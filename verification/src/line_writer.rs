//! The records that the parallel file writer appends: each task writes a
//! fixed number of lines, each made of the current UNIX time in seconds, an
//! underscore and the line's index, followed by two newlines.
use vstd::prelude::*;
use crate::decimal::{all_digits, decimal_bytes, decimal_digits, lemma_decimal_injective, lemma_decimal_round_trip};

verus! {

/// The number of records that one writer task appends.
pub const LINES_PER_TASK: u64 = 1000;

/// The text of one record: the seconds, `_`, the index.
pub open spec fn record_text(secs: nat, index: nat) -> Seq<u8> {
    decimal_digits(secs) + seq![95u8] + decimal_digits(index)
}

/// The three writes that make one record: its text, then a newline twice.
pub open spec fn record_chunks(secs: nat, index: nat) -> Seq<Seq<u8>> {
    seq![record_text(secs, index), seq![10u8], seq![10u8]]
}

/// The bytes of a sequence of writes, in order.
pub open spec fn chunks_view(chunks: Seq<Vec<u8>>) -> Seq<Seq<u8>> {
    chunks.map_values(|c: Vec<u8>| c@)
}

/// Builds the three writes of the record with index `index`, stamped with
/// `now_secs`.
pub fn line_record(now_secs: u64, index: u64) -> (chunks: Vec<Vec<u8>>)
    ensures
        chunks_view(chunks@) == record_chunks(now_secs as nat, index as nat),
{
    let mut text = decimal_bytes(now_secs);
    text.push(95u8);
    let mut index_text = decimal_bytes(index);
    text.append(&mut index_text);
    assert(text@ =~= record_text(now_secs as nat, index as nat));
    let mut chunks: Vec<Vec<u8>> = Vec::new();
    chunks.push(text);
    let mut first_newline: Vec<u8> = Vec::new();
    first_newline.push(10u8);
    chunks.push(first_newline);
    let mut second_newline: Vec<u8> = Vec::new();
    second_newline.push(10u8);
    chunks.push(second_newline);
    assert(chunks@[1]@ =~= seq![10u8]);
    assert(chunks@[2]@ =~= seq![10u8]);
    assert(chunks_view(chunks@) =~= record_chunks(now_secs as nat, index as nat));
    chunks
}

/// A record's text holds no newline: it is made of digits and one
/// underscore, so the two newlines after it separate it from the next one.
pub proof fn lemma_record_text_is_one_line(secs: nat, index: nat)
    ensures
        forall|i: int|
            0 <= i < record_text(secs, index).len() ==> {
                let b = #[trigger] record_text(secs, index)[i];
                (48 <= b <= 57) || b == 95
            },
{
    lemma_decimal_round_trip(secs);
    lemma_decimal_round_trip(index);
    let a = decimal_digits(secs);
    let c = decimal_digits(index);
    assert forall|i: int| 0 <= i < record_text(secs, index).len() implies {
        let b = #[trigger] record_text(secs, index)[i];
        (48 <= b <= 57) || b == 95
    } by {
        if i < a.len() {
            assert(record_text(secs, index)[i] == a[i]);
        } else if i > a.len() {
            assert(record_text(secs, index)[i] == c[i - a.len() - 1]);
        }
    }
}

/// A record's text determines the time and the index it was made from: two
/// records read the same only if both their seconds and their indices agree.
pub proof fn lemma_record_text_injective(secs1: nat, index1: nat, secs2: nat, index2: nat)
    requires
        record_text(secs1, index1) == record_text(secs2, index2),
    ensures
        secs1 == secs2,
        index1 == index2,
{
    let a1 = decimal_digits(secs1);
    let a2 = decimal_digits(secs2);
    let c1 = decimal_digits(index1);
    let c2 = decimal_digits(index2);
    let t = record_text(secs1, index1);
    lemma_decimal_round_trip(secs1);
    lemma_decimal_round_trip(secs2);
    if a1.len() < a2.len() {
        assert(t[a1.len() as int] == 95u8);
        assert(record_text(secs2, index2)[a1.len() as int] == a2[a1.len() as int]);
        assert(all_digits(a2));
        assert(false);
    }
    if a2.len() < a1.len() {
        assert(record_text(secs2, index2)[a2.len() as int] == 95u8);
        assert(t[a2.len() as int] == a1[a2.len() as int]);
        assert(all_digits(a1));
        assert(false);
    }
    assert(a1 =~= t.subrange(0, a1.len() as int));
    assert(a2 =~= record_text(secs2, index2).subrange(0, a2.len() as int));
    lemma_decimal_injective(secs1, secs2);
    assert(c1 =~= t.subrange(a1.len() as int + 1, t.len() as int));
    assert(c2 =~= record_text(secs2, index2).subrange(a2.len() as int + 1, t.len() as int));
    lemma_decimal_injective(index1, index2);
}

/// All bytes of a sequence of writes, in order.
pub open spec fn flatten(chunks: Seq<Seq<u8>>) -> Seq<u8>
    decreases chunks.len(),
{
    if chunks.len() == 0 {
        Seq::empty()
    } else {
        flatten(chunks.drop_last()) + chunks.last()
    }
}

/// The bytes of the records `0 .. times.len()`, record `i` stamped with
/// `times[i]`, each followed by its two newlines: what a writer task appends
/// when the clock reads `times`.
pub open spec fn batch_bytes(times: Seq<u64>) -> Seq<u8>
    decreases times.len(),
{
    if times.len() == 0 {
        Seq::empty()
    } else {
        batch_bytes(times.drop_last()) + flatten(
            record_chunks(times.last() as nat, (times.len() - 1) as nat),
        )
    }
}

/// One record and its newlines, as bytes.
pub open spec fn record_line(secs: nat, index: nat) -> Seq<u8> {
    record_text(secs, index) + seq![10u8, 10u8]
}

/// A batch's bytes are the concatenation, for `i` in order, of the text of
/// record `i` stamped with `times[i]` and two newlines.
pub proof fn lemma_batch_bytes_concatenates_records(times: Seq<u64>)
    ensures
        batch_bytes(times) == flatten(
            Seq::new(times.len(), |i: int| record_line(times[i] as nat, i as nat)),
        ),
    decreases times.len(),
{
    let lines = Seq::new(times.len(), |i: int| record_line(times[i] as nat, i as nat));
    if times.len() > 0 {
        let n = times.len() - 1;
        let prefix = times.drop_last();
        lemma_batch_bytes_concatenates_records(prefix);
        assert(lines.drop_last() =~= Seq::new(
            prefix.len(),
            |i: int| record_line(prefix[i] as nat, i as nat),
        ));
        let c = record_chunks(times.last() as nat, n as nat);
        let t = record_text(times.last() as nat, n as nat);
        let c1 = c.drop_last().drop_last();
        assert(c1 =~= seq![t]);
        assert(c1.drop_last() =~= Seq::<Seq<u8>>::empty());
        assert(c1.last() == t);
        assert(flatten(c1) == flatten(c1.drop_last()) + t);
        assert(flatten(c1) =~= t);
        assert(flatten(c.drop_last()) =~= t + seq![10u8]);
        assert(flatten(c) =~= record_line(times.last() as nat, n as nat));
    }
}

/// The progress of one writer task through its records.
pub struct LineBatch {
    next: u64,
    total: u64,
    stamps: Ghost<Seq<u64>>,
}

impl LineBatch {
    /// The index of the record that is written next.
    pub closed spec fn next_index(&self) -> nat {
        self.next as nat
    }

    /// The number of records the task writes in all.
    pub closed spec fn total(&self) -> nat {
        self.total as nat
    }

    /// The times the records handed out so far were stamped with, in order.
    pub closed spec fn stamps(&self) -> Seq<u64> {
        self.stamps@
    }

    /// The batch's invariant: it never runs past its total, and it has one
    /// time stamp per record handed out.
    pub closed spec fn wf(&self) -> bool {
        &&& self.next <= self.total
        &&& self.stamps@.len() == self.next
    }

    /// A batch of `LINES_PER_TASK` records, none written yet.
    pub fn new() -> (b: Self)
        ensures
            b.wf(),
            b.next_index() == 0,
            b.total() == LINES_PER_TASK,
            b.stamps() == Seq::<u64>::empty(),
    {
        LineBatch { next: 0, total: LINES_PER_TASK, stamps: Ghost(Seq::empty()) }
    }

    /// Whether every record of the batch has been handed out.
    pub fn is_done(&self) -> (r: bool)
        requires
            self.wf(),
        ensures
            r == (self.next_index() == self.total()),
            self.stamps().len() == self.next_index(),
    {
        self.next == self.total
    }

    /// Hands out the writes of the next record, stamped with `now_secs`, and
    /// moves on; once the batch is done it hands out nothing and stays done.
    ///
    /// A writer that appends every write handed out, in order, from `new`
    /// on, has appended exactly `batch_bytes(self.stamps())` at every step,
    /// whatever else it does between steps (such as taking a lock).
    pub fn next_record(&mut self, now_secs: u64) -> (r: Option<Vec<Vec<u8>>>)
        requires
            old(self).wf(),
        ensures
            final(self).wf(),
            final(self).total() == old(self).total(),
            old(self).next_index() < old(self).total() ==> {
                &&& r is Some
                &&& chunks_view(r->Some_0@) == record_chunks(now_secs as nat, old(self).next_index())
                &&& final(self).next_index() == old(self).next_index() + 1
                &&& final(self).stamps() == old(self).stamps().push(now_secs)
                &&& batch_bytes(final(self).stamps()) == batch_bytes(old(self).stamps()) + flatten(
                    chunks_view(r->Some_0@),
                )
            },
            old(self).next_index() == old(self).total() ==> {
                &&& r is None
                &&& final(self).next_index() == old(self).next_index()
                &&& final(self).stamps() == old(self).stamps()
            },
    {
        if self.next < self.total {
            let chunks = line_record(now_secs, self.next);
            let ghost before = self.stamps@;
            self.next = self.next + 1;
            self.stamps = Ghost(before.push(now_secs));
            proof {
                assert(self.stamps@.drop_last() =~= before);
            }
            Some(chunks)
        } else {
            None
        }
    }
}

/// A finished batch has handed out one record per index, record `i` stamped
/// with the `i`-th clock reading it was given: a writer that appended every
/// write handed out, in order, appended exactly these bytes, however it
/// guarded the file, so two writers given the same clock readings append the
/// same bytes.
pub proof fn lemma_finished_batch_bytes(b: LineBatch)
    requires
        b.wf(),
        b.next_index() == b.total(),
    ensures
        b.stamps().len() == b.total(),
        batch_bytes(b.stamps()) == flatten(
            Seq::new(b.total(), |i: int| record_line(b.stamps()[i] as nat, i as nat)),
        ),
{
    lemma_batch_bytes_concatenates_records(b.stamps());
}

} // verus!
