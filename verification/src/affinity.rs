//! Pinning worker tasks to CPU cores: cores 0 and 1 are left alone, and the
//! tasks are dealt to the remaining cores in turn, starting over at core 2
//! after the last core.
use vstd::prelude::*;
use vstd::arithmetic::div_mod::{lemma_add_mod_noop_right, lemma_fundamental_div_mod_converse};

verus! {

/// The first core that worker tasks are pinned to.
pub const FIRST_WORKER_CORE: usize = 2;

/// The number of worker tasks the runtime starts.
pub const WORKER_TASKS: usize = 8;

/// How far each worker counts in one round of its busy loop.
pub const BUSY_LOOP_LIMIT: i32 = 100000000;

/// The sum `0 + 1 + ... + (n - 1)` computed in `i32` arithmetic that wraps
/// around on overflow, one term at a time.
pub open spec fn wrapped_sum(n: nat) -> i32
    decreases n,
{
    if n == 0 {
        0
    } else {
        wrapped_sum((n - 1) as nat).wrapping_add((n - 1) as i32)
    }
}

/// `0 + 1 + ... + (n - 1)` in unbounded arithmetic.
pub open spec fn triangle(n: nat) -> nat
    decreases n,
{
    if n == 0 {
        0
    } else {
        triangle((n - 1) as nat) + (n - 1) as nat
    }
}

/// The `i32` that `x` wraps around to: the one congruent to `x` modulo 2^32.
pub open spec fn wrap_i32(x: int) -> int {
    (x + 0x8000_0000) % 0x1_0000_0000 - 0x8000_0000
}

proof fn lemma_wrapping_add_is_wrap(x: i32, y: i32)
    ensures
        x.wrapping_add(y) as int == wrap_i32(x + y),
{
    let m: int = 0x1_0000_0000;
    let s: int = x + y + 0x8000_0000;
    if x + y > i32::MAX {
        lemma_fundamental_div_mod_converse(s, m, 1, s - m);
    } else if x + y < i32::MIN {
        lemma_fundamental_div_mod_converse(s, m, -1, s + m);
    } else {
        lemma_fundamental_div_mod_converse(s, m, 0, s);
    }
}

proof fn lemma_wrap_absorbs(a: int, b: int)
    ensures
        wrap_i32(wrap_i32(a) + b) == wrap_i32(a + b),
{
    let m: int = 0x1_0000_0000;
    lemma_add_mod_noop_right(b, a + 0x8000_0000, m);
}

/// The busy loop's sum is the true sum `0 + 1 + ... + (n - 1)` wrapped
/// into the `i32` range, for every count whose terms fit in an `i32`.
pub proof fn lemma_wrapped_sum_is_wrapped_triangle(n: nat)
    requires
        n <= 0x8000_0000,
    ensures
        wrapped_sum(n) as int == wrap_i32(triangle(n) as int),
    decreases n,
{
    if n == 0 {
        lemma_fundamental_div_mod_converse(0x8000_0000, 0x1_0000_0000, 0, 0x8000_0000);
    } else {
        let k = (n - 1) as nat;
        lemma_wrapped_sum_is_wrapped_triangle(k);
        lemma_wrapping_add_is_wrap(wrapped_sum(k), k as i32);
        lemma_wrap_absorbs(triangle(k) as int, k as int);
    }
}

/// `0 + 1 + ... + (n - 1)` is `n * (n - 1) / 2`.
pub proof fn lemma_triangle_closed_form(n: nat)
    ensures
        2 * triangle(n) == n * (n - 1),
    decreases n,
{
    if n > 0 {
        lemma_triangle_closed_form((n - 1) as nat);
        assert(2 * triangle(n) == (n - 1) * (n - 2) + 2 * (n - 1));
        assert((n - 1) * (n - 2) + 2 * (n - 1) == n * (n - 1)) by (nonlinear_arith);
    } else {
        assert(n * (n - 1) == 0) by (nonlinear_arith)
            requires
                n == 0,
        ;
    }
}

/// The work a worker repeats to keep its core busy: adds up `0..limit`,
/// wrapping around on overflow.
pub fn busy_sum(limit: i32) -> (sum: i32)
    ensures
        limit <= 0 ==> sum == 0,
        limit > 0 ==> sum == wrapped_sum(limit as nat),
{
    let mut sum: i32 = 0;
    let mut i: i32 = 0;
    while i < limit
        invariant
            0 <= i,
            limit > 0 ==> i <= limit,
            limit <= 0 ==> i == 0,
            sum == wrapped_sum(i as nat),
        decreases limit - i,
    {
        sum = sum.wrapping_add(i);
        i = i + 1;
    }
    sum
}

/// The core that task number `task` is pinned to among `core_count` cores.
pub open spec fn core_slot(core_count: nat, task: nat) -> nat
    recommends
        core_count >= 3,
{
    2 + task % ((core_count - 2) as nat)
}

/// Tasks go to consecutive cores from core 2 up to the last core, then start
/// over at core 2: task `i` gets core `i + 2` while that core exists, task
/// `i + (core_count - 2)` gets the same core as task `i`, and every slot is a
/// core from 2 to the last.
pub proof fn lemma_core_slot_round_robin(core_count: nat, task: nat)
    requires
        core_count >= 3,
    ensures
        task + 2 < core_count ==> core_slot(core_count, task) == task + 2,
        core_slot(core_count, (task + (core_count - 2)) as nat) == core_slot(core_count, task),
        2 <= core_slot(core_count, task) < core_count,
{
    let m: int = core_count - 2;
    let q = task as int / m;
    let r = task as int % m;
    assert(task as int == q * m + r && 0 <= r < m) by (nonlinear_arith)
        requires
            m > 0,
            q == task as int / m,
            r == task as int % m,
    ;
    if task + 2 < core_count {
        lemma_fundamental_div_mod_converse(task as int, m, 0, task as int);
    }
    assert(task + m == (q + 1) * m + r) by (nonlinear_arith)
        requires
            task as int == q * m + r,
    ;
    lemma_fundamental_div_mod_converse(task + m, m, q + 1, r);
}

/// The core after `idx`: the next one, or core 2 again after the last core.
pub fn next_core_index(idx: usize, core_count: usize) -> (r: usize)
    requires
        FIRST_WORKER_CORE <= idx < core_count,
    ensures
        r == if idx == core_count - 1 {
            FIRST_WORKER_CORE
        } else {
            (idx + 1) as usize
        },
        FIRST_WORKER_CORE <= r < core_count,
{
    if idx == core_count - 1 {
        FIRST_WORKER_CORE
    } else {
        idx + 1
    }
}

/// The core index each of `tasks` tasks is pinned to, in the order they
/// start. Pinning any task needs at least three cores.
pub fn core_schedule(core_count: usize, tasks: usize) -> (schedule: Vec<usize>)
    requires
        tasks == 0 || core_count >= 3,
    ensures
        schedule@.len() == tasks,
        forall|i: int|
            0 <= i < tasks ==> #[trigger] schedule@[i] as nat == core_slot(core_count as nat, i as nat),
        forall|i: int| 0 <= i < tasks ==> FIRST_WORKER_CORE <= #[trigger] schedule@[i] < core_count,
        forall|i: int| 0 <= i < tasks && i + 2 < core_count ==> #[trigger] schedule@[i] == i + 2,
        forall|i: int|
            core_count >= 3 && 0 <= i && i + core_count - 2 < tasks ==> #[trigger] schedule@[i + core_count - 2]
                == schedule@[i],
{
    let schedule = deal_cores(core_count, tasks);
    proof {
        assert forall|i: int| 0 <= i < tasks && i + 2 < core_count implies #[trigger] schedule@[i]
            == i + 2 by {
            lemma_core_slot_round_robin(core_count as nat, i as nat);
        }
        assert forall|i: int| core_count >= 3 && 0 <= i && i + core_count - 2 < tasks implies #[trigger] schedule@[i
            + core_count - 2] == schedule@[i] by {
            lemma_core_slot_round_robin(core_count as nat, i as nat);
            assert(schedule@[i + core_count - 2] as nat == core_slot(
                core_count as nat,
                (i + core_count - 2) as nat,
            ));
        }
    }
    schedule
}

/// Builds the schedule one task at a time, moving to the next core after
/// each.
fn deal_cores(core_count: usize, tasks: usize) -> (schedule: Vec<usize>)
    requires
        tasks == 0 || core_count >= 3,
    ensures
        schedule@.len() == tasks,
        forall|i: int|
            0 <= i < tasks ==> #[trigger] schedule@[i] as nat == core_slot(core_count as nat, i as nat),
        forall|i: int| 0 <= i < tasks ==> FIRST_WORKER_CORE <= #[trigger] schedule@[i] < core_count,
{
    let mut schedule: Vec<usize> = Vec::new();
    if tasks == 0 {
        return schedule;
    }
    let ghost m: int = core_count - 2;
    let ghost q: int = 0;
    let mut idx: usize = FIRST_WORKER_CORE;
    let mut i: usize = 0;
    proof {
        lemma_fundamental_div_mod_converse(0, m, 0, 0);
    }
    while i < tasks
        invariant
            core_count >= 3,
            m == core_count - 2,
            0 <= i <= tasks,
            schedule@.len() == i,
            FIRST_WORKER_CORE <= idx < core_count,
            i == q * m + (idx - 2),
            q >= 0,
            forall|j: int|
                0 <= j < i ==> #[trigger] schedule@[j] as nat == core_slot(core_count as nat, j as nat),
            forall|j: int| 0 <= j < i ==> FIRST_WORKER_CORE <= #[trigger] schedule@[j] < core_count,
        decreases tasks - i,
    {
        proof {
            lemma_fundamental_div_mod_converse(i as int, m, q, idx - 2);
        }
        schedule.push(idx);
        let next = next_core_index(idx, core_count);
        proof {
            if idx == core_count - 1 {
                assert(i + 1 == (q + 1) * m + 0) by (nonlinear_arith)
                    requires
                        i == q * m + (idx - 2),
                        idx - 2 == m - 1,
                ;
                q = q + 1;
            }
        }
        idx = next;
        i = i + 1;
    }
    schedule
}

} // verus!
