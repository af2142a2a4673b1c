//! Adding up the results of a write benchmark.

use vstd::prelude::*;

use crate::chunk::client::LargeWritePolicy;
use crate::chunk::error::prefixed;
#[allow(unused_imports)]
use crate::ordered;
use crate::ordered::stable_sort;
use crate::text::decimal_text;
#[allow(unused_imports)]
use crate::text;

verus! {

/// What a benchmark writes.
#[derive(Debug, Clone)]
pub struct LargeWriteBenchmarkConfig {
    pub object_count: u64,
    pub object_size: u64,
    pub concurrency: usize,
    pub seed: u8,
    pub policy: LargeWritePolicy,
}

/// What one worker did.
#[derive(Debug, Clone, PartialEq, Eq)]
pub struct WorkerResult {
    pub objects: u64,
    pub logical_bytes: u64,
    pub physical_bytes: u64,
    pub preparation_stalls: u64,
    pub preparation_stall_us: u64,
    pub latencies: Vec<u64>,
    pub errors: Vec<String>,
}

/// What one write reports.
#[derive(Debug, Clone, Copy, PartialEq, Eq, Structural)]
pub struct WriteReport {
    pub logical_bytes: u64,
    pub physical_bytes: u64,
    pub preparation_stalls: u64,
    pub preparation_stall_us: u64,
    pub latency_us: u64,
}

impl Default for WorkerResult {
    fn default() -> (w: Self)
        ensures
            w.objects == 0,
            w.logical_bytes == 0,
            w.physical_bytes == 0,
            w.preparation_stalls == 0,
            w.preparation_stall_us == 0,
            w.latencies@ == Seq::<u64>::empty(),
            w.errors@ == Seq::<String>::empty(),
    {
        WorkerResult {
            objects: 0,
            logical_bytes: 0,
            physical_bytes: 0,
            preparation_stalls: 0,
            preparation_stall_us: 0,
            latencies: Vec::new(),
            errors: Vec::new(),
        }
    }
}

/// The number of workers: as many as asked for, at least one.
pub fn worker_count(concurrency: usize) -> (n: usize)
    ensures
        n == (if concurrency == 0 {
            1
        } else {
            concurrency
        }),
{
    if concurrency == 0 {
        1
    } else {
        concurrency
    }
}

/// The object to write next, if there is one left.
pub fn claim_object(ticket: u64, object_count: u64) -> (r: Option<u64>)
    ensures
        r == (if ticket < object_count {
            Some(ticket)
        } else {
            None
        }),
{
    if ticket >= object_count {
        None
    } else {
        Some(ticket)
    }
}

/// The byte that an object consists of.
pub fn object_byte(seed: u8, worker: usize, object: u64) -> (b: u8)
    ensures
        b == seed.wrapping_add(#[verifier::truncate] (worker as u8)).wrapping_add(
            #[verifier::truncate] (object as u8),
        ),
{
    seed.wrapping_add(#[verifier::truncate] (worker as u8)).wrapping_add(
        #[verifier::truncate] (object as u8),
    )
}

impl WorkerResult {
    /// Counts a write that succeeded.
    pub fn record_write(&mut self, w: WriteReport)
        requires
            old(self).objects < u64::MAX,
            old(self).logical_bytes + w.logical_bytes <= u64::MAX,
            old(self).physical_bytes + w.physical_bytes <= u64::MAX,
            old(self).preparation_stalls + w.preparation_stalls <= u64::MAX,
            old(self).preparation_stall_us + w.preparation_stall_us <= u64::MAX,
        ensures
            final(self).objects == old(self).objects + 1,
            final(self).logical_bytes == old(self).logical_bytes + w.logical_bytes,
            final(self).physical_bytes == old(self).physical_bytes + w.physical_bytes,
            final(self).preparation_stalls == old(self).preparation_stalls + w.preparation_stalls,
            final(self).preparation_stall_us == old(self).preparation_stall_us
                + w.preparation_stall_us,
            final(self).latencies@ == old(self).latencies@.push(w.latency_us),
            final(self).errors@ == old(self).errors@,
    {
        self.objects = self.objects + 1;
        self.logical_bytes = self.logical_bytes + w.logical_bytes;
        self.physical_bytes = self.physical_bytes + w.physical_bytes;
        self.preparation_stalls = self.preparation_stalls + w.preparation_stalls;
        self.preparation_stall_us = self.preparation_stall_us + w.preparation_stall_us;
        self.latencies.push(w.latency_us);
    }

    /// Takes note of a write that failed.
    pub fn record_error(&mut self, object: u64, error: &str)
        ensures
            final(self).errors@.len() == old(self).errors@.len() + 1,
            final(self).errors@.take(old(self).errors@.len() as int) == old(self).errors@,
            final(self).errors@.last()@ == "object "@ + text::decimal(object as nat) + ": "@
                + error@,
            final(self).objects == old(self).objects,
            final(self).logical_bytes == old(self).logical_bytes,
            final(self).physical_bytes == old(self).physical_bytes,
            final(self).preparation_stalls == old(self).preparation_stalls,
            final(self).preparation_stall_us == old(self).preparation_stall_us,
            final(self).latencies@ == old(self).latencies@,
    {
        let mut message = "object ".to_owned();
        message.append(decimal_text(object).as_str());
        message.append(": ");
        message.append(error);
        self.errors.push(message);
        assert(self.errors@.take(old(self).errors@.len() as int) =~= old(self).errors@);
    }
}

/// Adds what a worker did to the total.
pub fn merge_worker(total: &mut WorkerResult, worker: WorkerResult)
    requires
        old(total).objects + worker.objects <= u64::MAX,
        old(total).logical_bytes + worker.logical_bytes <= u64::MAX,
        old(total).physical_bytes + worker.physical_bytes <= u64::MAX,
        old(total).preparation_stalls + worker.preparation_stalls <= u64::MAX,
        old(total).preparation_stall_us + worker.preparation_stall_us <= u64::MAX,
    ensures
        final(total).objects == old(total).objects + worker.objects,
        final(total).logical_bytes == old(total).logical_bytes + worker.logical_bytes,
        final(total).physical_bytes == old(total).physical_bytes + worker.physical_bytes,
        final(total).preparation_stalls == old(total).preparation_stalls
            + worker.preparation_stalls,
        final(total).preparation_stall_us == old(total).preparation_stall_us
            + worker.preparation_stall_us,
        final(total).latencies@ == old(total).latencies@ + worker.latencies@,
        final(total).errors@ == old(total).errors@ + worker.errors@,
{
    let mut worker = worker;
    total.objects = total.objects + worker.objects;
    total.logical_bytes = total.logical_bytes + worker.logical_bytes;
    total.physical_bytes = total.physical_bytes + worker.physical_bytes;
    total.preparation_stalls = total.preparation_stalls + worker.preparation_stalls;
    total.preparation_stall_us = total.preparation_stall_us + worker.preparation_stall_us;
    total.latencies.append(&mut worker.latencies);
    total.errors.append(&mut worker.errors);
}

/// Takes note of a worker that was lost, which says `error`.
pub fn record_lost_worker(total: &mut WorkerResult, error: &str)
    ensures
        final(total).errors@.len() == old(total).errors@.len() + 1,
        final(total).errors@.take(old(total).errors@.len() as int) == old(total).errors@,
        final(total).errors@.last()@ == "benchmark worker failed: "@ + error@,
        final(total).objects == old(total).objects,
        final(total).logical_bytes == old(total).logical_bytes,
        final(total).physical_bytes == old(total).physical_bytes,
        final(total).preparation_stalls == old(total).preparation_stalls,
        final(total).preparation_stall_us == old(total).preparation_stall_us,
        final(total).latencies@ == old(total).latencies@,
{
    total.errors.push(prefixed("benchmark worker failed: ", error));
    assert(total.errors@.take(old(total).errors@.len() as int) =~= old(total).errors@);
}

/// The percentile of sorted latencies: the entry at that share of the last
/// index.
pub fn percentile(sorted: &Vec<u64>, p: usize) -> (r: u64)
    requires
        sorted@.len() > 0 ==> (sorted@.len() - 1) * p <= usize::MAX,
        sorted@.len() > 0 ==> (sorted@.len() - 1) * p / 100 < sorted@.len(),
    ensures
        sorted@.len() == 0 ==> r == 0,
        sorted@.len() > 0 ==> r == sorted@[(sorted@.len() - 1) * p / 100],
{
    if sorted.len() == 0 {
        return 0;
    }
    let last: usize = sorted.len() - 1;
    let index: usize = last * p / 100;
    sorted[index]
}

/// The counts of a finished benchmark; latencies in microseconds.
#[derive(Debug, Clone, PartialEq, Eq)]
pub struct BenchmarkSummary {
    pub objects: u64,
    pub errors: u64,
    pub logical_bytes: u64,
    pub physical_bytes: u64,
    pub latency_p50_us: u64,
    pub latency_p99_us: u64,
    pub preparation_stalls: u64,
    pub preparation_stall_us: u64,
    pub error_messages: Vec<String>,
}

/// The entry at the share `p` of the last index, 0 for an empty list.
pub open spec fn percentile_entry(sorted: Seq<u64>, p: int) -> u64 {
    if sorted.len() == 0 {
        0
    } else {
        sorted[(sorted.len() - 1) * p / 100]
    }
}

/// The summary of all that the workers did.
pub fn summarize(total: WorkerResult) -> (s: BenchmarkSummary)
    requires
        total.latencies@.len() > 0 ==> (total.latencies@.len() - 1) * 99 <= usize::MAX,
    ensures
        s.objects == total.objects,
        s.errors == total.errors@.len(),
        s.logical_bytes == total.logical_bytes,
        s.physical_bytes == total.physical_bytes,
        s.preparation_stalls == total.preparation_stalls,
        s.preparation_stall_us == total.preparation_stall_us,
        s.error_messages@ == total.errors@,
        exists|sorted: Seq<u64>| #[trigger]
            ordered::is_stable_sort(total.latencies@, sorted) && sorted.len()
                == total.latencies@.len() && s.latency_p50_us == percentile_entry(sorted, 50)
                && s.latency_p99_us == percentile_entry(sorted, 99),
{
    let ghost before = total.latencies@;
    let sorted = stable_sort(total.latencies);
    proof {
        ordered::lemma_stable_sort_len(before, sorted@);
    }
    let errors: u64 = total.errors.len() as u64;
    BenchmarkSummary {
        objects: total.objects,
        errors,
        logical_bytes: total.logical_bytes,
        physical_bytes: total.physical_bytes,
        latency_p50_us: percentile(&sorted, 50),
        latency_p99_us: percentile(&sorted, 99),
        preparation_stalls: total.preparation_stalls,
        preparation_stall_us: total.preparation_stall_us,
        error_messages: total.errors,
    }
}

/// A percentile of sorted latencies is one of them: at least that share of the
/// latencies before the last one is not above it, and what comes behind is not
/// below it.
pub proof fn lemma_percentile_is_entry(sorted: Seq<u64>, p: int)
    requires
        0 <= p <= 100,
        sorted.len() > 0,
        forall|i: int, j: int| 0 <= i <= j < sorted.len() ==> sorted[i] <= sorted[j],
    ensures
        exists|k: int|
            #![trigger sorted[k]]
            {
                &&& 0 <= k < sorted.len()
                &&& percentile_entry(sorted, p) == sorted[k]
                &&& 100 * k <= (sorted.len() - 1) * p < 100 * (k + 1)
                &&& forall|i: int| 0 <= i <= k ==> sorted[i] <= percentile_entry(sorted, p)
                &&& forall|i: int| k <= i < sorted.len() ==> sorted[i] >= percentile_entry(
                    sorted,
                    p,
                )
            },
        percentile_entry(sorted, 0) == sorted[0],
        percentile_entry(sorted, 100) == sorted.last(),
{
    let last = sorted.len() - 1;
    let k = last * p / 100;
    assert(0 <= k <= last) by (nonlinear_arith)
        requires
            0 <= p <= 100,
            last >= 0,
            k == last * p / 100,
    ;
    assert(sorted[k] == percentile_entry(sorted, p));
    assert(last * 100 / 100 == last);
    assert(last * 0 == 0);
}

/// Nothing was measured: the percentile is 0.
pub proof fn lemma_percentile_of_nothing(p: int)
    ensures
        percentile_entry(Seq::empty(), p) == 0,
{
}

} // verus!
