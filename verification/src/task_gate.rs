//! Admission of writer tasks: the parallel file writer keeps at most a fixed
//! number of tasks in flight, waiting for one to finish before it starts
//! another once the limit is reached.
use vstd::prelude::*;

verus! {

/// The number of writer tasks the parallel file writer keeps in flight.
pub const MAX_TASKS: usize = 200;

/// What the spawner does next.
#[derive(PartialEq, Eq, Structural, Clone, Copy, Debug)]
pub enum GateAction {
    /// Wait for one task in flight to finish.
    JoinOne,
    /// Start another task.
    Spawn,
}

/// The tasks in flight against their limit.
#[derive(Debug)]
pub struct TaskGate {
    max_tasks: usize,
    in_flight: usize,
}

impl TaskGate {
    /// The limit.
    pub closed spec fn limit(&self) -> nat {
        self.max_tasks as nat
    }

    /// The number of tasks started and not yet joined.
    pub closed spec fn running(&self) -> nat {
        self.in_flight as nat
    }

    /// Well-formedness: the count of tasks in flight stays within the limit.
    pub closed spec fn wf(&self) -> bool {
        self.in_flight <= self.max_tasks
    }

    /// A gate with no task in flight.
    pub fn new(max_tasks: usize) -> (g: Self)
        ensures
            g.wf(),
            g.limit() == max_tasks,
            g.running() == 0,
    {
        TaskGate { max_tasks, in_flight: 0 }
    }

    /// The number of tasks in flight.
    pub fn in_flight(&self) -> (r: usize)
        ensures
            r == self.running(),
    {
        self.in_flight
    }

    /// Spawn while below the limit; at the limit, join one task first.
    pub fn next_action(&self) -> (a: GateAction)
        requires
            self.wf(),
        ensures
            a == (if self.running() < self.limit() {
                GateAction::Spawn
            } else {
                GateAction::JoinOne
            }),
    {
        if self.in_flight < self.max_tasks {
            GateAction::Spawn
        } else {
            GateAction::JoinOne
        }
    }

    /// Counts one more task in flight; allowed below the limit only.
    pub fn record_spawn(&mut self)
        requires
            old(self).wf(),
            old(self).running() < old(self).limit(),
        ensures
            final(self).wf(),
            final(self).limit() == old(self).limit(),
            final(self).running() == old(self).running() + 1,
    {
        self.in_flight = self.in_flight + 1;
    }

    /// Records that waiting for a task ended: `joined` tells whether a task
    /// finished (waiting on no task in flight ends with none).
    pub fn record_join(&mut self, joined: bool)
        requires
            old(self).wf(),
            joined ==> old(self).running() > 0,
        ensures
            final(self).wf(),
            final(self).limit() == old(self).limit(),
            final(self).running() == if joined {
                old(self).running() - 1
            } else {
                old(self).running() as int
            },
    {
        if joined {
            self.in_flight = self.in_flight - 1;
        }
    }
}

/// Every gate that `new` makes and the other operations keep never has more
/// tasks in flight than its limit.
pub proof fn lemma_gate_within_limit(g: TaskGate)
    requires
        g.wf(),
    ensures
        g.running() <= g.limit(),
{
}

} // verus!
