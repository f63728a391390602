//! The timing protocol of the benchmark: one record per batch, appended in
//! strict batch order, and the textual report built from the records.
//!
//! The harness itself does no timing and makes no engine call; the caller
//! measures each batch's wall-clock span and hands the elapsed whole
//! milliseconds in. The harness guarantees the shape of the report: when
//! it is complete it holds exactly [`REPEAT`] records whose indices are
//! `0, 1, ..., REPEAT - 1` in order. Elapsed times are unsigned, so every
//! reported time is non-negative by construction.

use vstd::prelude::*;
use crate::numeric::{dec_seq, to_decimal};

verus! {

/// Number of batches one benchmark runs.
pub const REPEAT: usize = 1000;

/// One reported sample: a batch index and the batch's elapsed time.
#[derive(Debug)]
pub struct BatchRecord {
    /// Index of the batch, counted from zero.
    pub index: usize,
    /// Wall-clock span of the whole batch, in whole milliseconds.
    pub millis: u128,
}

/// The textual form of one record: `index`, a comma and a space, the
/// elapsed milliseconds, a newline.
pub open spec fn record_line(index: nat, millis: nat) -> Seq<char> {
    dec_seq(index) + seq![',', ' '] + dec_seq(millis) + seq!['\n']
}

/// The textual report of a record sequence: its lines in order.
pub open spec fn report_text(rs: Seq<BatchRecord>) -> Seq<char>
    decreases rs.len(),
{
    if rs.len() == 0 {
        Seq::<char>::empty()
    } else {
        report_text(rs.drop_last()) + record_line(
            rs.last().index as nat,
            rs.last().millis as nat,
        )
    }
}

/// Render one record as its report line.
pub fn format_record(index: usize, millis: u128) -> (line: String)
    ensures
        line@ == record_line(index as nat, millis as nat),
{
    let mut line = to_decimal(index as u128);
    proof {
        reveal_strlit(", ");
        reveal_strlit("\n");
        assert((", ")@ =~= seq![',', ' ']);
        assert(("\n")@ =~= seq!['\n']);
    }
    line.append(", ");
    let ms = to_decimal(millis);
    line.append(ms.as_str());
    line.append("\n");
    proof {
        assert(line@ =~= record_line(index as nat, millis as nat));
    }
    line
}

/// The report buffer of one benchmark run.
#[derive(Debug)]
pub struct TimingHarness {
    /// The batch records appended so far, in batch order.
    pub records: Vec<BatchRecord>,
}

impl TimingHarness {
    /// The records are a prefix of a run: record `k` belongs to batch `k`.
    pub open spec fn wf(self) -> bool {
        self.records@.len() <= REPEAT && forall|k: int|
            0 <= k < self.records@.len() ==> (#[trigger] self.records@[k]).index == k
    }

    /// Every batch of the run has its record.
    pub open spec fn complete(self) -> bool {
        self.records@.len() == REPEAT
    }

    /// An empty harness, ready for batch zero.
    pub fn new() -> (h: TimingHarness)
        ensures
            h.wf(),
            h.records@.len() == 0,
    {
        TimingHarness { records: Vec::new() }
    }

    /// How many batches have been recorded.
    pub fn batch_count(&self) -> (n: usize)
        ensures
            n == self.records@.len(),
    {
        self.records.len()
    }

    /// Whether the run is complete.
    pub fn is_complete(&self) -> (b: bool)
        ensures
            b == self.complete(),
    {
        self.records.len() == REPEAT
    }

    /// Append the record of the next batch and return its report line,
    /// for the live progress channel.
    ///
    /// The new record's index is the number of batches recorded before
    /// it, so indices grow strictly, batch by batch.
    pub fn record_batch(&mut self, millis: u128) -> (line: String)
        requires
            old(self).wf(),
            !old(self).complete(),
        ensures
            final(self).wf(),
            final(self).records@ == old(self).records@.push(
                BatchRecord { index: old(self).records@.len() as usize, millis },
            ),
            line@ == record_line(old(self).records@.len() as nat, millis as nat),
    {
        let index = self.records.len();
        let line = format_record(index, millis);
        self.records.push(BatchRecord { index, millis });
        line
    }

    /// Render the whole report buffer: one line per batch, in order.
    pub fn render_report(&self) -> (report: String)
        ensures
            report@ == report_text(self.records@),
    {
        let n = self.records.len();
        let mut report = String::new();
        let mut i: usize = 0;
        while i < n
            invariant
                i <= n,
                n == self.records@.len(),
                report@ == report_text(self.records@.take(i as int)),
            decreases n - i,
        {
            let r = &self.records[i];
            let line = format_record(r.index, r.millis);
            report.append(line.as_str());
            proof {
                let t = self.records@.take(i + 1);
                assert(t.drop_last() =~= self.records@.take(i as int));
                assert(t.last() == self.records@[i as int]);
            }
            i += 1;
        }
        proof {
            assert(self.records@.take(n as int) =~= self.records@);
        }
        report
    }
}

/// Report shape law: a complete harness holds exactly [`REPEAT`] records,
/// record `k` belongs to batch `k`, and the indices are strictly
/// increasing across the report.
pub proof fn lemma_complete_report(h: TimingHarness)
    requires
        h.wf(),
        h.complete(),
    ensures
        h.records@.len() == REPEAT,
        forall|k: int| 0 <= k < h.records@.len() ==> (#[trigger] h.records@[k]).index == k,
        forall|k: int, l: int|
            0 <= k < l < h.records@.len() ==> h.records@[k].index < h.records@[l].index,
{
}

} // verus!
