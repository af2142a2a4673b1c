//! A latency histogram with fixed buckets, over a window and over the whole
//! run.

use vstd::prelude::*;

#[allow(unused_imports)]
use crate::lists;
use crate::metrics::name::MetricName;

verus! {

/// How many buckets there are.
pub const NUM_BUCKETS: usize = 22;

/// The upper bounds of the buckets in nanoseconds: one, two and five times
/// each power of ten from a microsecond to five seconds, then no bound.
pub const BUCKET_BOUNDS_NS: [u64; 22] = [
    1_000,
    2_000,
    5_000,
    10_000,
    20_000,
    50_000,
    100_000,
    200_000,
    500_000,
    1_000_000,
    2_000_000,
    5_000_000,
    10_000_000,
    20_000_000,
    50_000_000,
    100_000_000,
    200_000_000,
    500_000_000,
    1_000_000_000,
    2_000_000_000,
    5_000_000_000,
    18_446_744_073_709_551_615,
];

/// The sum of the first `n` of `counts`.
pub open spec fn prefix_sum(counts: Seq<u64>, n: int) -> int
    decreases n,
{
    if n <= 0 {
        0
    } else {
        prefix_sum(counts, n - 1) + counts[n - 1]
    }
}

/// How many observations fell into the buckets.
pub open spec fn bucket_total(counts: Seq<u64>) -> int {
    prefix_sum(counts, counts.len() as int)
}

/// The upper bound reported for bucket `i`: its own, but the last finite one
/// for the unbounded bucket.
pub open spec fn reported_bound(i: int) -> u64 {
    BUCKET_BOUNDS_NS@[if i < NUM_BUCKETS - 2 {
        i
    } else {
        NUM_BUCKETS - 2
    }]
}

/// The first bucket up to which at least `target` observations fell.
pub open spec fn rank_bucket(counts: Seq<u64>, target: int) -> Option<int> {
    lists::first_index(
        Seq::new(counts.len(), |i: int| prefix_sum(counts, i + 1)),
        |x: int| x >= target,
    )
}

/// The place of the `p`-th percentile among `count` observations in order,
/// counted from 1.
pub open spec fn percentile_rank(count: u64, p: u64) -> int {
    if count * p / 100 > 1 {
        count * p / 100
    } else {
        1
    }
}

/// The bound of the bucket that the `p`-th percentile of `count` observations
/// falls into.
pub open spec fn percentile_bound(counts: Seq<u64>, count: u64, p: u64) -> u64 {
    if count == 0 {
        0
    } else {
        match rank_bucket(counts, percentile_rank(count, p)) {
            Some(i) => reported_bound(i),
            None => reported_bound(NUM_BUCKETS - 1),
        }
    }
}

/// The last bucket that anything fell into.
pub open spec fn last_nonempty(counts: Seq<u64>) -> Option<int>
    decreases counts.len(),
{
    if counts.len() == 0 {
        None
    } else if counts.last() > 0 {
        Some(counts.len() - 1)
    } else {
        last_nonempty(counts.drop_last())
    }
}

/// The bound of the last bucket that anything fell into, 0 if there is none.
pub open spec fn max_bound(counts: Seq<u64>) -> u64 {
    match last_nonempty(counts) {
        Some(i) => reported_bound(i),
        None => 0,
    }
}

/// The bucket with the smallest upper bound that is at least `ns`.
pub open spec fn is_bucket_of(i: int, ns: u64) -> bool {
    &&& 0 <= i < NUM_BUCKETS
    &&& BUCKET_BOUNDS_NS@[i] >= ns
    &&& forall|j: int| 0 <= j < i ==> BUCKET_BOUNDS_NS@[j] < ns
}

/// The bucket that an observation of `ns` nanoseconds falls into.
pub open spec fn bucket_of(ns: u64) -> int {
    lists::first_index(BUCKET_BOUNDS_NS@, |bound: u64| bound >= ns)->0
}

/// Every observation falls into one bucket.
proof fn lemma_bucket_of(ns: u64)
    ensures
        is_bucket_of(bucket_of(ns), ns),
        forall|i: int| #[trigger] is_bucket_of(i, ns) ==> i == bucket_of(ns),
{
    let fits = |bound: u64| bound >= ns;
    lists::lemma_first_index(BUCKET_BOUNDS_NS@, fits);
    assert(BUCKET_BOUNDS_NS@[21] == u64::MAX);
    assert(fits(BUCKET_BOUNDS_NS@[21]));
    assert forall|j: int| 0 <= j < bucket_of(ns) implies BUCKET_BOUNDS_NS@[j] < ns by {
        assert(!fits(BUCKET_BOUNDS_NS@[j]));
    }
}

proof fn lemma_bounds_ascend()
    ensures
        forall|i: int, j: int|
            0 <= i < j < NUM_BUCKETS ==> BUCKET_BOUNDS_NS@[i] < BUCKET_BOUNDS_NS@[j],
        BUCKET_BOUNDS_NS@.len() == NUM_BUCKETS,
{
}

/// The bucket that an observation of `ns` nanoseconds falls into.
pub fn bucket_index(ns: u64) -> (i: usize)
    ensures
        is_bucket_of(i as int, ns),
        i == bucket_of(ns),
{
    let mut lo: usize = 0;
    let mut hi: usize = NUM_BUCKETS - 1;
    proof {
        lemma_bounds_ascend();
        assert(BUCKET_BOUNDS_NS@[21] == u64::MAX);
    }
    while lo < hi
        invariant
            lo <= hi < NUM_BUCKETS,
            forall|i: int, j: int|
                0 <= i < j < NUM_BUCKETS ==> BUCKET_BOUNDS_NS@[i] < BUCKET_BOUNDS_NS@[j],
            forall|j: int| 0 <= j < lo ==> BUCKET_BOUNDS_NS@[j] < ns,
            BUCKET_BOUNDS_NS@[hi as int] >= ns,
        decreases hi - lo,
    {
        let mid: usize = lo + (hi - lo) / 2;
        if BUCKET_BOUNDS_NS[mid] < ns {
            assert(forall|j: int| 0 <= j < mid ==> BUCKET_BOUNDS_NS@[j] < BUCKET_BOUNDS_NS@[
                mid as int
            ]);
            lo = mid + 1;
        } else {
            hi = mid;
        }
    }
    proof {
        lemma_bucket_of(ns);
        assert(is_bucket_of(lo as int, ns));
    }
    lo
}

/// A longer prefix sums up to no less.
proof fn lemma_prefix_sum_grows(counts: Seq<u64>, m: int, n: int)
    requires
        0 <= m <= n <= counts.len(),
    ensures
        0 <= prefix_sum(counts, m) <= prefix_sum(counts, n),
    decreases n,
{
    if m < n {
        lemma_prefix_sum_grows(counts, m, n - 1);
    } else if n > 0 {
        lemma_prefix_sum_grows(counts, m - 1, n - 1);
    }
}

/// One more observation in bucket `idx` adds one to the sums that cover it.
proof fn lemma_prefix_sum_update(counts: Seq<u64>, idx: int, n: int)
    requires
        0 <= idx < counts.len(),
        0 <= n <= counts.len(),
        counts[idx] < u64::MAX,
    ensures
        prefix_sum(counts.update(idx, (counts[idx] + 1) as u64), n) == prefix_sum(counts, n) + (
        if idx < n {
            1int
        } else {
            0
        }),
    decreases n,
{
    if n > 0 {
        lemma_prefix_sum_update(counts, idx, n - 1);
    }
}

/// A bucket holds no more than the total.
proof fn lemma_bucket_within_total(counts: Seq<u64>, idx: int)
    requires
        0 <= idx < counts.len(),
    ensures
        counts[idx] <= bucket_total(counts),
{
    lemma_prefix_sum_grows(counts, idx + 1, counts.len() as int);
    lemma_prefix_sum_grows(counts, 0, idx);
}

proof fn lemma_zero_counts(counts: Seq<u64>, n: int)
    requires
        0 <= n <= counts.len(),
        forall|i: int| 0 <= i < counts.len() ==> counts[i] == 0,
    ensures
        prefix_sum(counts, n) == 0,
    decreases n,
{
    if n > 0 {
        lemma_zero_counts(counts, n - 1);
    }
}

/// The last non-empty bucket, seen from outside.
proof fn lemma_last_nonempty(counts: Seq<u64>)
    ensures
        match last_nonempty(counts) {
            Some(i) => 0 <= i < counts.len() && counts[i] > 0 && forall|j: int|
                i < j < counts.len() ==> counts[j] == 0,
            None => forall|j: int| 0 <= j < counts.len() ==> counts[j] == 0,
        },
    decreases counts.len(),
{
    if counts.len() > 0 && counts.last() == 0 {
        lemma_last_nonempty(counts.drop_last());
        match last_nonempty(counts.drop_last()) {
            Some(i) => {
                assert(counts.drop_last()[i] == counts[i]);
                assert forall|j: int| i < j < counts.len() implies counts[j] == 0 by {
                    if j < counts.len() - 1 {
                        assert(counts.drop_last()[j] == counts[j]);
                    }
                }
            },
            None => {
                assert forall|j: int| 0 <= j < counts.len() implies counts[j] == 0 by {
                    if j < counts.len() - 1 {
                        assert(counts.drop_last()[j] == counts[j]);
                    }
                }
            },
        }
    }
}

proof fn lemma_tail_of_zeros(counts: Seq<u64>, m: int, n: int)
    requires
        0 <= m <= n <= counts.len(),
        forall|j: int| m <= j < n ==> counts[j] == 0,
    ensures
        prefix_sum(counts, n) == prefix_sum(counts, m),
    decreases n,
{
    if m < n {
        lemma_tail_of_zeros(counts, m, n - 1);
    }
}

/// Of counts that add up, the bucket of a percentile is one that something
/// fell into.
proof fn lemma_percentile_bucket(counts: Seq<u64>, count: u64, p: u64)
    requires
        bucket_total(counts) == count,
        count > 0,
        p <= 100,
    ensures
        rank_bucket(counts, percentile_rank(count, p)) matches Some(i) && 0 <= i < counts.len()
            && counts[i] > 0,
{
    let rank = percentile_rank(count, p);
    let sums = Seq::new(counts.len(), |i: int| prefix_sum(counts, i + 1));
    let enough = |x: int| x >= rank;
    lists::lemma_first_index(sums, enough);
    assert(count * p <= count * 100) by (nonlinear_arith)
        requires
            p <= 100,
            count >= 0,
    ;
    assert(rank <= count);
    assert(sums[counts.len() - 1] == count);
    assert(enough(sums[counts.len() - 1]));
    let i = lists::first_index(sums, enough)->0;
    assert(prefix_sum(counts, i + 1) == prefix_sum(counts, i) + counts[i]);
    if i > 0 {
        assert(!enough(sums[i - 1]));
    } else {
        assert(prefix_sum(counts, 0) == 0);
    }
    assert(enough(sums[i]));
}

/// The percentile of `count` observations, as the upper bound of the bucket
/// that it falls into. Where the counts add up to `count`, that bucket is one
/// that something fell into.
pub fn percentile(bucket_counts: &[u64; 22], count: u64, p: u64) -> (ns: u64)
    requires
        count * p <= u64::MAX,
        bucket_total(bucket_counts@) <= u64::MAX,
    ensures
        ns == percentile_bound(bucket_counts@, count, p),
        count > 0 && bucket_total(bucket_counts@) == count && p <= 100 ==> {
            &&& rank_bucket(bucket_counts@, percentile_rank(count, p)) matches Some(i)
            &&& 0 <= i < NUM_BUCKETS
            &&& bucket_counts@[i] > 0
            &&& ns == reported_bound(i)
        },
{
    if count == 0 {
        return 0;
    }
    proof {
        if bucket_total(bucket_counts@) == count && p <= 100 {
            lemma_percentile_bucket(bucket_counts@, count, p);
        }
    }
    let share: u64 = count * p / 100;
    let target: u64 = if share > 1 {
        share
    } else {
        1
    };
    let ghost sums = Seq::new(
        bucket_counts@.len(),
        |i: int| prefix_sum(bucket_counts@, i + 1),
    );
    let ghost enough = |x: int| x >= target as int;
    let mut cumulative: u64 = 0;
    let mut i: usize = 0;
    while i < NUM_BUCKETS
        invariant
            i <= NUM_BUCKETS == bucket_counts@.len(),
            cumulative == prefix_sum(bucket_counts@, i as int),
            bucket_total(bucket_counts@) <= u64::MAX,
            sums == Seq::new(bucket_counts@.len(), |i: int| prefix_sum(bucket_counts@, i + 1)),
            enough == (|x: int| x >= target as int),
            count != 0,
            target == percentile_rank(count, p),
            count > 0 && bucket_total(bucket_counts@) == count && p <= 100 ==> {
                &&& rank_bucket(bucket_counts@, percentile_rank(count, p)) matches Some(i)
                &&& 0 <= i < NUM_BUCKETS
                &&& bucket_counts@[i] > 0
            },
            forall|j: int| 0 <= j < i ==> !enough(#[trigger] sums[j]),
        decreases NUM_BUCKETS - i,
    {
        proof {
            lemma_prefix_sum_grows(bucket_counts@, i + 1, NUM_BUCKETS as int);
        }
        cumulative = cumulative + bucket_counts[i];
        assert(sums[i as int] == cumulative);
        if cumulative >= target {
            proof {
                lists::lemma_is_first_index(sums, enough, i as int);
            }
            if i < NUM_BUCKETS - 2 {
                return BUCKET_BOUNDS_NS[i];
            }
            return BUCKET_BOUNDS_NS[NUM_BUCKETS - 2];
        }
        i = i + 1;
    }
    proof {
        lists::lemma_no_first_index(sums, enough);
    }
    BUCKET_BOUNDS_NS[NUM_BUCKETS - 2]
}

/// The upper bound of the last bucket that anything fell into.
pub fn max_latency(bucket_counts: &[u64; 22]) -> (ns: u64)
    ensures
        ns == max_bound(bucket_counts@),
{
    let mut n: usize = NUM_BUCKETS;
    assert(bucket_counts@.take(NUM_BUCKETS as int) =~= bucket_counts@);
    while n > 0
        invariant
            n <= NUM_BUCKETS == bucket_counts@.len(),
            last_nonempty(bucket_counts@) == last_nonempty(bucket_counts@.take(n as int)),
        decreases n,
    {
        let i: usize = n - 1;
        assert(bucket_counts@.take(n as int).last() == bucket_counts@[i as int]);
        assert(bucket_counts@.take(n as int).drop_last() =~= bucket_counts@.take(i as int));
        if bucket_counts[i] > 0 {
            if i < NUM_BUCKETS - 2 {
                return BUCKET_BOUNDS_NS[i];
            }
            return BUCKET_BOUNDS_NS[NUM_BUCKETS - 2];
        }
        n = i;
    }
    0
}

/// What a histogram reports; latencies in nanoseconds.
#[derive(Debug, Clone, Copy)]
pub struct HistogramSnapshot {
    pub count: u64,
    pub avg: u64,
    pub p50: u64,
    pub p99: u64,
    pub max: u64,
    pub total_count: u64,
}

impl Default for HistogramSnapshot {
    fn default() -> (s: Self)
        ensures
            s == (HistogramSnapshot { count: 0, avg: 0, p50: 0, p99: 0, max: 0, total_count: 0 }),
    {
        HistogramSnapshot { count: 0, avg: 0, p50: 0, p99: 0, max: 0, total_count: 0 }
    }
}

/// The observations of one period: how many fell into each bucket, how many
/// there were, and their sum.
#[verifier::ext_equal]
pub struct Tally {
    pub buckets: Seq<u64>,
    pub count: u64,
    pub sum: u64,
}

/// The observations of the window and of the whole run.
#[verifier::ext_equal]
pub struct HistogramState {
    pub window: Tally,
    pub total: Tally,
}

/// The sum of the upper bounds of the observations in the first `n` buckets.
pub open spec fn bound_sum(counts: Seq<u64>, n: int) -> int
    decreases n,
{
    if n <= 0 {
        0
    } else {
        bound_sum(counts, n - 1) + counts[n - 1] * BUCKET_BOUNDS_NS@[n - 1]
    }
}

impl Tally {
    pub open spec fn empty() -> Tally {
        Tally { buckets: Seq::new(NUM_BUCKETS as nat, |i: int| 0u64), count: 0, sum: 0 }
    }

    /// The tally after one more observation; counters wrap around.
    pub open spec fn observed(self, ns: u64) -> Tally {
        Tally {
            buckets: Seq::new(
                self.buckets.len(),
                |i: int|
                    if i == bucket_of(ns) {
                        self.buckets[i].wrapping_add(1)
                    } else {
                        self.buckets[i]
                    },
            ),
            count: self.count.wrapping_add(1),
            sum: self.sum.wrapping_add(ns),
        }
    }

    /// The tally of a list of observations.
    pub open spec fn of(observations: Seq<u64>) -> Tally {
        observations.fold_left(Tally::empty(), |t: Tally, ns: u64| t.observed(ns))
    }

    /// The buckets hold just the observations that were counted, and these are
    /// no longer than their buckets say.
    pub open spec fn consistent(self) -> bool {
        &&& self.buckets.len() == NUM_BUCKETS
        &&& bucket_total(self.buckets) == self.count
        &&& self.sum <= bound_sum(self.buckets, NUM_BUCKETS as int)
    }

    /// Small enough for percentiles to be computed without overflow.
    pub open spec fn reportable(self) -> bool {
        self.count * 99 <= u64::MAX && bucket_total(self.buckets) <= u64::MAX
    }

    /// What is reported of the tally.
    pub open spec fn report(self, total_count: u64) -> HistogramSnapshot {
        HistogramSnapshot {
            count: self.count,
            avg: if self.count == 0 {
                0
            } else {
                self.sum / self.count
            },
            p50: percentile_bound(self.buckets, self.count, 50),
            p99: percentile_bound(self.buckets, self.count, 99),
            max: max_bound(self.buckets),
            total_count,
        }
    }
}

impl HistogramState {
    pub open spec fn empty() -> HistogramState {
        HistogramState { window: Tally::empty(), total: Tally::empty() }
    }

    /// The state after one more observation.
    pub open spec fn observed(self, ns: u64) -> HistogramState {
        HistogramState { window: self.window.observed(ns), total: self.total.observed(ns) }
    }

    /// The state with an empty window.
    pub open spec fn flushed(self) -> HistogramState {
        HistogramState { window: Tally::empty(), total: self.total }
    }

    /// What is reported of the window.
    pub open spec fn window_report(self) -> HistogramSnapshot {
        self.window.report(self.total.count)
    }

    /// What is reported of the whole run.
    pub open spec fn total_report(self) -> HistogramSnapshot {
        self.total.report(self.total.count)
    }

    /// Both tallies hold what was counted, and the window is part of the run.
    pub open spec fn consistent(self) -> bool {
        &&& self.window.consistent()
        &&& self.total.consistent()
        &&& self.window.count <= self.total.count
        &&& forall|i: int|
            0 <= i < NUM_BUCKETS ==> #[trigger] self.window.buckets[i] <= self.total.buckets[i]
    }

    /// The state of a new histogram after what happened to it.
    pub open spec fn after(events: Seq<HistogramEvent>) -> HistogramState
        decreases events.len(),
    {
        if events.len() == 0 {
            HistogramState::empty()
        } else {
            let before = HistogramState::after(events.drop_last());
            match events.last() {
                HistogramEvent::Observe(ns) => before.observed(ns),
                HistogramEvent::Flush => before.flushed(),
            }
        }
    }
}

/// What can happen to a histogram.
pub enum HistogramEvent {
    Observe(u64),
    Flush,
}

/// The latencies that were observed, in order.
pub open spec fn observations(events: Seq<HistogramEvent>) -> Seq<u64>
    decreases events.len(),
{
    if events.len() == 0 {
        Seq::empty()
    } else {
        let before = observations(events.drop_last());
        match events.last() {
            HistogramEvent::Observe(ns) => before.push(ns),
            HistogramEvent::Flush => before,
        }
    }
}

/// The sum of the latencies.
pub open spec fn latency_sum(latencies: Seq<u64>) -> int
    decreases latencies.len(),
{
    if latencies.len() == 0 {
        0
    } else {
        latency_sum(latencies.drop_last()) + latencies.last()
    }
}

impl HistogramSnapshot {
    /// The figures fit together: the period is part of the run, the median is
    /// at most the 99th percentile and that is at most the maximum, and all of
    /// them are 0 just where nothing was observed.
    pub open spec fn fits_together(self) -> bool {
        &&& self.count <= self.total_count
        &&& self.p50 <= self.p99 <= self.max
        &&& self.count == 0 <==> self.max == 0
        &&& self.count == 0 ==> self.avg == 0 && self.p50 == 0 && self.p99 == 0
    }
}

/// One more observation adds the bound of its bucket to the sums that cover it.
proof fn lemma_bound_sum_update(counts: Seq<u64>, idx: int, n: int)
    requires
        0 <= idx < counts.len(),
        0 <= n <= counts.len() == NUM_BUCKETS,
        counts[idx] < u64::MAX,
    ensures
        bound_sum(counts.update(idx, (counts[idx] + 1) as u64), n) == bound_sum(counts, n) + (
        if idx < n {
            BUCKET_BOUNDS_NS@[idx] as int
        } else {
            0
        }),
    decreases n,
{
    if n > 0 {
        lemma_bound_sum_update(counts, idx, n - 1);
        if idx == n - 1 {
            let c = counts[idx] as int;
            let b = BUCKET_BOUNDS_NS@[idx] as int;
            assert((c + 1) * b == c * b + b) by (nonlinear_arith);
        }
    }
}

proof fn lemma_zero_bounds(counts: Seq<u64>, n: int)
    requires
        0 <= n <= counts.len(),
        forall|i: int| 0 <= i < counts.len() ==> counts[i] == 0,
    ensures
        bound_sum(counts, n) == 0,
    decreases n,
{
    if n > 0 {
        lemma_zero_bounds(counts, n - 1);
        let b = BUCKET_BOUNDS_NS@[n - 1] as int;
        assert(0 * b == 0);
    }
}

/// No bound is above that of the last bucket that anything fell into.
proof fn lemma_bound_sum_under(counts: Seq<u64>, m: int, n: int)
    requires
        0 <= n <= counts.len() == NUM_BUCKETS,
        0 <= m < NUM_BUCKETS,
        forall|j: int| m < j < counts.len() ==> counts[j] == 0,
    ensures
        bound_sum(counts, n) <= prefix_sum(counts, n) * BUCKET_BOUNDS_NS@[m],
    decreases n,
{
    let top = BUCKET_BOUNDS_NS@[m] as int;
    if n > 0 {
        lemma_bound_sum_under(counts, m, n - 1);
        let c = counts[n - 1] as int;
        let b = BUCKET_BOUNDS_NS@[n - 1] as int;
        let s = prefix_sum(counts, n - 1);
        assert(c * b <= c * top) by {
            if n - 1 > m {
                assert(c == 0);
                assert(0 * b == 0 && 0 * top == 0);
            } else {
                lemma_bounds_ascend();
                assert(c * b <= c * top) by (nonlinear_arith)
                    requires
                        b <= top,
                        c >= 0,
                ;
            }
        }
        assert((s + c) * top == s * top + c * top) by (nonlinear_arith);
    } else {
        assert(0 * top == 0);
    }
}

proof fn lemma_empty_consistent()
    ensures
        Tally::empty().consistent(),
{
    lemma_zero_counts(Tally::empty().buckets, NUM_BUCKETS as int);
    lemma_zero_bounds(Tally::empty().buckets, NUM_BUCKETS as int);
}

/// A tally stays consistent, as long as its count does not wrap around.
proof fn lemma_observed_consistent(t: Tally, ns: u64)
    requires
        t.consistent(),
        t.count < u64::MAX,
    ensures
        t.observed(ns).consistent(),
        t.observed(ns).count == t.count + 1,
        t.observed(ns).buckets == t.buckets.update(
            bucket_of(ns),
            (t.buckets[bucket_of(ns)] + 1) as u64,
        ),
        t.buckets[bucket_of(ns)] < u64::MAX,
{
    let i = bucket_of(ns);
    lemma_bucket_of(ns);
    lemma_bucket_within_total(t.buckets, i);
    lemma_prefix_sum_update(t.buckets, i, NUM_BUCKETS as int);
    lemma_bound_sum_update(t.buckets, i, NUM_BUCKETS as int);
    assert(t.buckets[i].wrapping_add(1) == t.buckets[i] + 1);
    assert(t.observed(ns).buckets =~= t.buckets.update(i, (t.buckets[i] + 1) as u64));
    assert(t.sum.wrapping_add(ns) <= t.sum + ns);
}

/// A histogram stays consistent, as long as its count does not wrap around.
proof fn lemma_state_observed_consistent(s: HistogramState, ns: u64)
    requires
        s.consistent(),
        s.total.count < u64::MAX,
    ensures
        s.observed(ns).consistent(),
        s.observed(ns).total.count == s.total.count + 1,
{
    lemma_bucket_of(ns);
    lemma_observed_consistent(s.window, ns);
    lemma_observed_consistent(s.total, ns);
}

/// What is reported of a consistent tally fits together, and where nothing fell
/// into the unbounded bucket the average is at most the maximum.
pub proof fn lemma_report_fits_together(t: Tally, total_count: u64)
    requires
        t.consistent(),
        t.count <= total_count,
    ensures
        t.report(total_count).fits_together(),
        t.buckets[NUM_BUCKETS - 1] == 0 ==> t.report(total_count).avg <= t.report(total_count).max,
{
    let c = t.buckets;
    lemma_last_nonempty(c);
    if t.count > 0 {
        let sums = Seq::new(c.len(), |i: int| prefix_sum(c, i + 1));
        let lo = percentile_rank(t.count, 50);
        let hi = percentile_rank(t.count, 99);
        let pl = |x: int| x >= lo;
        let ph = |x: int| x >= hi;
        lists::lemma_first_index(sums, pl);
        lists::lemma_first_index(sums, ph);
        assert(last_nonempty(c) is Some) by {
            if last_nonempty(c) is None {
                lemma_zero_counts(c, c.len() as int);
            }
        }
        let m = last_nonempty(c)->0;
        lemma_tail_of_zeros(c, m + 1, c.len() as int);
        assert(sums[m] == t.count);
        assert(ph(sums[m]));
        let h = lists::first_index(sums, ph)->0;
        assert(pl(sums[h]));
        let l = lists::first_index(sums, pl)->0;
        assert(l <= h <= m);
        assert(0 < reported_bound(l) <= reported_bound(h) <= reported_bound(m)) by {
            lemma_bounds_ascend();
        }
        if c[NUM_BUCKETS - 1] == 0 {
            lemma_bound_sum_under(c, m, NUM_BUCKETS as int);
            let top = BUCKET_BOUNDS_NS@[m] as int;
            let n = t.count as int;
            let sum = t.sum as int;
            assert(m < NUM_BUCKETS - 1);
            assert(reported_bound(m) == top);
            assert(sum / n <= top) by (nonlinear_arith)
                requires
                    sum <= n * top,
                    n > 0,
            ;
        }
    } else {
        match last_nonempty(c) {
            Some(i) => {
                lemma_bucket_within_total(c, i);
            },
            None => {},
        }
    }
}

/// A histogram is consistent whatever happened to it, as long as the number of
/// observations can be counted.
proof fn lemma_after_consistent(events: Seq<HistogramEvent>)
    requires
        observations(events).len() <= u64::MAX,
    ensures
        HistogramState::after(events).consistent(),
        HistogramState::after(events).total.count == observations(events).len(),
    decreases events.len(),
{
    lemma_empty_consistent();
    if events.len() > 0 {
        lemma_after_consistent(events.drop_last());
        let before = HistogramState::after(events.drop_last());
        match events.last() {
            HistogramEvent::Observe(ns) => {
                lemma_state_observed_consistent(before, ns);
            },
            HistogramEvent::Flush => {},
        }
    }
}

/// Without an observation above the last finite bound, nothing is in the
/// unbounded bucket.
proof fn lemma_nothing_unbounded(events: Seq<HistogramEvent>)
    requires
        observations(events).len() <= u64::MAX,
        forall|k: int|
            0 <= k < observations(events).len() ==> observations(events)[k]
                <= BUCKET_BOUNDS_NS@[NUM_BUCKETS - 2],
    ensures
        HistogramState::after(events).total.buckets[NUM_BUCKETS - 1] == 0,
    decreases events.len(),
{
    if events.len() > 0 {
        let earlier = events.drop_last();
        assert forall|k: int| 0 <= k < observations(earlier).len() implies observations(earlier)[k]
            <= BUCKET_BOUNDS_NS@[NUM_BUCKETS - 2] by {
            assert(observations(events)[k] == observations(earlier)[k]);
        }
        lemma_nothing_unbounded(earlier);
        lemma_after_consistent(earlier);
        match events.last() {
            HistogramEvent::Observe(ns) => {
                assert(observations(events).last() == ns);
                lemma_bucket_of(ns);
            },
            HistogramEvent::Flush => {},
        }
    }
}

/// Whatever was observed, and whenever the window was flushed: the figures of
/// the window and those of the whole run fit together. Where no latency was
/// above five seconds, the average is at most the maximum.
pub proof fn lemma_reports_fit_together(events: Seq<HistogramEvent>)
    requires
        observations(events).len() <= u64::MAX,
    ensures
        HistogramState::after(events).window_report().fits_together(),
        HistogramState::after(events).total_report().fits_together(),
        (forall|k: int| 0 <= k < observations(events).len() ==> observations(events)[k]
            <= 5_000_000_000) ==> {
            let s = HistogramState::after(events);
            s.window_report().avg <= s.window_report().max && s.total_report().avg
                <= s.total_report().max
        },
{
    let s = HistogramState::after(events);
    lemma_after_consistent(events);
    lemma_report_fits_together(s.window, s.total.count);
    lemma_report_fits_together(s.total, s.total.count);
    assert(BUCKET_BOUNDS_NS@[NUM_BUCKETS - 2] == 5_000_000_000);
    if forall|k: int| 0 <= k < observations(events).len() ==> observations(events)[k]
        <= 5_000_000_000 {
        lemma_nothing_unbounded(events);
        assert(s.window.buckets[NUM_BUCKETS - 1] <= s.total.buckets[NUM_BUCKETS - 1]);
    }
}

/// The tally of the whole run is that of the observations, flushes or not.
proof fn lemma_total_of_observations(events: Seq<HistogramEvent>)
    ensures
        HistogramState::after(events).total == Tally::of(observations(events)),
    decreases events.len(),
{
    if events.len() > 0 {
        let earlier = events.drop_last();
        lemma_total_of_observations(earlier);
        match events.last() {
            HistogramEvent::Observe(ns) => {
                assert(observations(events).drop_last() =~= observations(earlier));
            },
            HistogramEvent::Flush => {},
        }
    }
}

/// Without a flush, the window is the whole run.
proof fn lemma_unflushed_window(events: Seq<HistogramEvent>)
    requires
        forall|k: int| 0 <= k < events.len() ==> events[k] is Observe,
    ensures
        HistogramState::after(events).window == HistogramState::after(events).total,
    decreases events.len(),
{
    if events.len() > 0 {
        let earlier = events.drop_last();
        assert forall|k: int| 0 <= k < earlier.len() implies earlier[k] is Observe by {
            assert(events[k] == earlier[k]);
        }
        lemma_unflushed_window(earlier);
        assert(events.last() is Observe);
    }
}

/// What is reported of the whole run depends neither on the flushes nor on the
/// order of the observations: two histograms that observed the same latencies
/// report the same of the whole run. One that was never flushed reports that of
/// its window, too.
pub proof fn lemma_totals_ignore_flushes_and_order(
    flushed: Seq<HistogramEvent>,
    other: Seq<HistogramEvent>,
)
    requires
        observations(flushed).to_multiset() == observations(other).to_multiset(),
    ensures
        HistogramState::after(flushed).total_report() == HistogramState::after(
            other,
        ).total_report(),
        (forall|k: int| 0 <= k < other.len() ==> other[k] is Observe) ==> HistogramState::after(
            flushed,
        ).total_report() == HistogramState::after(other).window_report(),
{
    let step = |t: Tally, ns: u64| t.observed(ns);
    assert forall|x: u64, y: u64, t: Tally| #[trigger] step(step(t, x), y) == step(
        step(t, y),
        x,
    ) by {
        let a = t.observed(x).observed(y);
        let b = t.observed(y).observed(x);
        assert(a.buckets =~= b.buckets);
        assert(a =~= b);
    }
    vstd::seq_lib::lemma_fold_left_permutation(
        observations(flushed),
        observations(other),
        step,
        Tally::empty(),
    );
    lemma_total_of_observations(flushed);
    lemma_total_of_observations(other);
    if forall|k: int| 0 <= k < other.len() ==> other[k] is Observe {
        lemma_unflushed_window(other);
    }
}

proof fn lemma_latency_sum_positive(latencies: Seq<u64>)
    ensures
        latency_sum(latencies) >= 0,
    decreases latencies.len(),
{
    if latencies.len() > 0 {
        lemma_latency_sum_positive(latencies.drop_last());
    }
}

/// The sum and the number of the observations, where both can be counted.
proof fn lemma_total_counts(events: Seq<HistogramEvent>)
    requires
        observations(events).len() <= u64::MAX,
        latency_sum(observations(events)) <= u64::MAX,
    ensures
        HistogramState::after(events).total.count == observations(events).len(),
        HistogramState::after(events).total.sum == latency_sum(observations(events)),
    decreases events.len(),
{
    if events.len() > 0 {
        let earlier = events.drop_last();
        match events.last() {
            HistogramEvent::Observe(ns) => {
                assert(observations(events).drop_last() =~= observations(earlier));
                lemma_latency_sum_positive(observations(earlier));
                lemma_total_counts(earlier);
            },
            HistogramEvent::Flush => {
                lemma_total_counts(earlier);
            },
        }
    }
}

/// The whole run counts every observation and averages all of them, whatever
/// was flushed in between.
pub proof fn lemma_totals_count_all(events: Seq<HistogramEvent>)
    requires
        observations(events).len() <= u64::MAX,
        latency_sum(observations(events)) <= u64::MAX,
    ensures
        ({
            let s = HistogramState::after(events).total_report();
            let all = observations(events);
            &&& s.count == s.total_count == all.len()
            &&& s.avg == (if all.len() == 0 {
                0
            } else {
                latency_sum(all) / all.len() as int
            })
        }),
{
    lemma_total_counts(events);
}

/// A latency histogram. Observations count towards the window and towards the
/// whole run; a flush empties the window.
#[derive(Debug)]
pub struct LatencyHistogram {
    name: MetricName,
    buckets: [u64; 22],
    count: u64,
    sum: u64,
    total_buckets: [u64; 22],
    total_count: u64,
    total_sum: u64,
}

impl View for LatencyHistogram {
    type V = HistogramState;

    closed spec fn view(&self) -> HistogramState {
        HistogramState {
            window: Tally { buckets: self.buckets@, count: self.count, sum: self.sum },
            total: Tally {
                buckets: self.total_buckets@,
                count: self.total_count,
                sum: self.total_sum,
            },
        }
    }
}

impl LatencyHistogram {
    pub closed spec fn metric_name(self) -> MetricName {
        self.name
    }

    /// Both tallies hold what was counted, and the window is part of the run.
    pub open spec fn consistent(self) -> bool {
        self@.consistent()
    }

    pub fn new(name: MetricName) -> (h: Self)
        ensures
            h.metric_name() == name,
            h@ == HistogramState::empty(),
            h.consistent(),
    {
        let h = LatencyHistogram {
            name,
            buckets: [0; 22],
            count: 0,
            sum: 0,
            total_buckets: [0; 22],
            total_count: 0,
            total_sum: 0,
        };
        proof {
            assert(h@ =~= HistogramState::empty());
            lemma_empty_consistent();
        }
        h
    }

    /// Records a latency of `ns` nanoseconds.
    pub fn observe(&mut self, ns: u64)
        ensures
            final(self).metric_name() == old(self).metric_name(),
            final(self)@ == old(self)@.observed(ns),
            old(self).consistent() && old(self)@.total.count < u64::MAX
                ==> final(self).consistent(),
    {
        let i = bucket_index(ns);
        self.buckets[i] = self.buckets[i].wrapping_add(1);
        self.total_buckets[i] = self.total_buckets[i].wrapping_add(1);
        self.count = self.count.wrapping_add(1);
        self.sum = self.sum.wrapping_add(ns);
        self.total_count = self.total_count.wrapping_add(1);
        self.total_sum = self.total_sum.wrapping_add(ns);
        proof {
            let before = old(self)@;
            assert(self@.window =~= before.window.observed(ns));
            assert(self@.total =~= before.total.observed(ns));
            if old(self).consistent() && before.total.count < u64::MAX {
                lemma_state_observed_consistent(before, ns);
            }
        }
    }

    /// Reports the window and empties it. The tally of the whole run stays.
    pub fn flush(&mut self) -> (s: HistogramSnapshot)
        requires
            old(self)@.window.reportable(),
        ensures
            s == old(self)@.window_report(),
            final(self)@ == old(self)@.flushed(),
            final(self).metric_name() == old(self).metric_name(),
            old(self).consistent() ==> final(self).consistent(),
    {
        let s = self.snapshot();
        self.buckets = [0; 22];
        self.count = 0;
        self.sum = 0;
        proof {
            assert(self@ =~= old(self)@.flushed());
            lemma_empty_consistent();
        }
        s
    }

    /// Reports the window without emptying it.
    pub fn snapshot(&self) -> (s: HistogramSnapshot)
        requires
            self@.window.reportable(),
        ensures
            s == self@.window_report(),
    {
        let avg: u64 = if self.count == 0 {
            0
        } else {
            self.sum / self.count
        };
        HistogramSnapshot {
            count: self.count,
            avg,
            p50: percentile(&self.buckets, self.count, 50),
            p99: percentile(&self.buckets, self.count, 99),
            max: max_latency(&self.buckets),
            total_count: self.total_count,
        }
    }

    /// Reports the whole run.
    pub fn snapshot_total(&self) -> (s: HistogramSnapshot)
        requires
            self@.total.reportable(),
        ensures
            s == self@.total_report(),
    {
        let avg: u64 = if self.total_count == 0 {
            0
        } else {
            self.total_sum / self.total_count
        };
        HistogramSnapshot {
            count: self.total_count,
            avg,
            p50: percentile(&self.total_buckets, self.total_count, 50),
            p99: percentile(&self.total_buckets, self.total_count, 99),
            max: max_latency(&self.total_buckets),
            total_count: self.total_count,
        }
    }

    pub fn name(&self) -> (name: &str)
        ensures
            name@ == self.metric_name().text(),
    {
        self.name.as_str()
    }
}

/// The buckets grow by one, two and five times each power of ten: from a
/// microsecond on, every third bound is ten times the one three before it, up
/// to five seconds. The last bucket has no bound.
pub proof fn lemma_bounds_by_decade()
    ensures
        NUM_BUCKETS == 22,
        BUCKET_BOUNDS_NS@.len() == 22,
        BUCKET_BOUNDS_NS@[0] == 1_000,
        BUCKET_BOUNDS_NS@[1] == 2_000,
        BUCKET_BOUNDS_NS@[2] == 5_000,
        forall|i: int| 0 <= i < 18 ==> BUCKET_BOUNDS_NS@[i + 3] == 10 * #[trigger] BUCKET_BOUNDS_NS@[i],
        BUCKET_BOUNDS_NS@[20] == 5_000_000_000,
        BUCKET_BOUNDS_NS@[21] == u64::MAX,
{
    assert forall|i: int| 0 <= i < 18 implies BUCKET_BOUNDS_NS@[i + 3] == 10
        * #[trigger] BUCKET_BOUNDS_NS@[i] by {
        assert(i == 0 || i == 1 || i == 2 || i == 3 || i == 4 || i == 5 || i == 6 || i == 7 || i == 8
            || i == 9 || i == 10 || i == 11 || i == 12 || i == 13 || i == 14 || i == 15 || i == 16
            || i == 17);
    }
}

/// A latency falls into the bucket whose bound is the first to reach it.
pub proof fn lemma_bucket_reaches_latency(ns: u64)
    ensures
        0 <= bucket_of(ns) < 22,
        ns <= BUCKET_BOUNDS_NS@[bucket_of(ns)],
        bucket_of(ns) > 0 ==> BUCKET_BOUNDS_NS@[bucket_of(ns) - 1] < ns,
        ns <= 1_000 <==> bucket_of(ns) == 0,
        ns > 5_000_000_000 <==> bucket_of(ns) == 21,
{
    lemma_bucket_of(ns);
    lemma_bounds_by_decade();
    if bucket_of(ns) > 0 {
        assert(BUCKET_BOUNDS_NS@[0] < ns);
    }
    if bucket_of(ns) == 21 {
        assert(BUCKET_BOUNDS_NS@[20] < ns);
    } else {
        lemma_bounds_ascend();
        assert(BUCKET_BOUNDS_NS@[bucket_of(ns)] <= BUCKET_BOUNDS_NS@[20]);
    }
}

/// Where the counts add up to `count`, at least `p` percent of the
/// observations, rounded down, fell into the buckets up to the one whose bound
/// is reported for percentile `p`, and fewer than that many (or none) fell
/// into the buckets before it. That bucket is not empty. Above five seconds,
/// five seconds are reported.
pub proof fn lemma_percentile_covers_share(counts: Seq<u64>, count: u64, p: u64)
    requires
        counts.len() == 22,
        prefix_sum(counts, 22) == count,
        count > 0,
        p <= 100,
    ensures
        exists|i: int|
            {
                &&& 0 <= i < 22
                &&& #[trigger] counts[i] > 0
                &&& percentile_bound(counts, count, p) == (if i < 21 {
                    BUCKET_BOUNDS_NS@[i]
                } else {
                    5_000_000_000
                })
                &&& 100 * prefix_sum(counts, i + 1) >= count * p - 99
                &&& prefix_sum(counts, i + 1) >= 1
                &&& i > 0 ==> prefix_sum(counts, i) < (if count * p / 100 > 1 {
                    count * p / 100
                } else {
                    1
                })
            },
{
    lemma_percentile_bucket(counts, count, p);
    lemma_bounds_by_decade();
    let share = count * p;
    let rank = percentile_rank(count, p);
    let sums = Seq::new(counts.len(), |i: int| prefix_sum(counts, i + 1));
    let enough = |x: int| x >= rank;
    lists::lemma_first_index(sums, enough);
    let i = rank_bucket(counts, rank)->0;
    assert(enough(sums[i]));
    assert(prefix_sum(counts, i + 1) >= rank);
    assert(100 * (share / 100) >= share - 99);
    if i > 0 {
        assert(!enough(sums[i - 1]));
    }
    assert(counts[i] > 0);
}

/// Of nothing, every percentile is 0.
pub proof fn lemma_percentile_of_none(counts: Seq<u64>, p: u64)
    ensures
        percentile_bound(counts, 0, p) == 0,
{
}

/// Nothing fell behind the bucket whose bound is reported as the maximum, and
/// something fell into it. Where nothing was counted, the maximum is 0.
pub proof fn lemma_max_is_last_nonempty(counts: Seq<u64>)
    requires
        counts.len() == 22,
    ensures
        (forall|j: int| 0 <= j < 22 ==> counts[j] == 0) ==> max_bound(counts) == 0,
        forall|i: int|
            0 <= i < 22 && #[trigger] counts[i] > 0 && (forall|j: int| i < j < 22 ==> counts[j] == 0)
                ==> max_bound(counts) == (if i < 21 {
                BUCKET_BOUNDS_NS@[i]
            } else {
                5_000_000_000
            }),
{
    lemma_last_nonempty(counts);
    lemma_bounds_by_decade();
}

proof fn lemma_tally_of(latencies: Seq<u64>)
    requires
        latencies.len() <= u64::MAX,
    ensures
        Tally::of(latencies).consistent(),
        Tally::of(latencies).count == latencies.len(),
    decreases latencies.len(),
{
    lemma_empty_consistent();
    if latencies.len() > 0 {
        lemma_tally_of(latencies.drop_last());
        lemma_observed_consistent(Tally::of(latencies.drop_last()), latencies.last());
    }
}

/// The buckets up to a bound hold the latencies that are at most that bound,
/// no more and no fewer.
pub proof fn lemma_buckets_hold_latencies(latencies: Seq<u64>, i: int)
    requires
        latencies.len() <= u64::MAX,
        0 <= i < 22,
    ensures
        Tally::of(latencies).buckets.len() == 22,
        prefix_sum(Tally::of(latencies).buckets, i + 1) == latencies.filter(
            |ns: u64| ns <= BUCKET_BOUNDS_NS@[i],
        ).len(),
    decreases latencies.len(),
{
    let within = |ns: u64| ns <= BUCKET_BOUNDS_NS@[i];
    reveal(Seq::filter);
    if latencies.len() > 0 {
        let earlier = latencies.drop_last();
        let ns = latencies.last();
        let t = Tally::of(earlier);
        lemma_buckets_hold_latencies(earlier, i);
        lemma_tally_of(earlier);
        lemma_observed_consistent(t, ns);
        lemma_bucket_of(ns);
        lemma_bounds_ascend();
        lemma_prefix_sum_update(t.buckets, bucket_of(ns), i + 1);
        assert(bucket_of(ns) < i + 1 <==> within(ns));
    } else {
        lemma_zero_counts(Tally::empty().buckets, i + 1);
    }
}

/// The percentile that is reported of some latencies, seen from the latencies
/// themselves: unless it is the cap of five seconds, `p` percent of them,
/// rounded down, and at least one, are no longer; and of every shorter bound
/// fewer of them are within it.
pub proof fn lemma_percentile_of_latencies(latencies: Seq<u64>, p: u64, b: int)
    requires
        0 < latencies.len() <= u64::MAX,
        p <= 100,
        0 <= b < 22,
    ensures
        ({
            let n = latencies.len() as u64;
            let v = percentile_bound(Tally::of(latencies).buckets, n, p);
            let rank = if latencies.len() * p / 100 > 1 {
                latencies.len() * p / 100
            } else {
                1
            };
            &&& 1_000 <= v <= 5_000_000_000
            &&& v < 5_000_000_000 ==> latencies.filter(|ns: u64| ns <= v).len() >= rank
            &&& BUCKET_BOUNDS_NS@[b] < v ==> latencies.filter(
                |ns: u64| ns <= BUCKET_BOUNDS_NS@[b],
            ).len() < rank
        }),
{
    let n = latencies.len() as u64;
    let counts = Tally::of(latencies).buckets;
    let v = percentile_bound(counts, n, p);
    lemma_tally_of(latencies);
    lemma_bounds_by_decade();
    lemma_bounds_ascend();
    let rank = percentile_rank(n, p);
    let sums = Seq::new(counts.len(), |i: int| prefix_sum(counts, i + 1));
    let enough = |x: int| x >= rank;
    lemma_percentile_bucket(counts, n, p);
    lists::lemma_first_index(sums, enough);
    let i = rank_bucket(counts, rank)->0;
    assert(enough(sums[i]));
    lemma_buckets_hold_latencies(latencies, i);
    lemma_buckets_hold_latencies(latencies, b);
    if v < 5_000_000_000 {
        assert(i < 20);
        assert(v == BUCKET_BOUNDS_NS@[i]);
        assert((|ns: u64| ns <= v) =~= (|ns: u64| ns <= BUCKET_BOUNDS_NS@[i]));
    }
    if BUCKET_BOUNDS_NS@[b] < v {
        assert(b < i);
        assert(!enough(sums[b]));
    }
}

/// The maximum that is reported of some latencies, seen from the latencies
/// themselves: unless it is the cap of five seconds, none of them is longer;
/// and every shorter bound is exceeded by one of them.
pub proof fn lemma_max_of_latencies(latencies: Seq<u64>, k: int, b: int)
    requires
        latencies.len() <= u64::MAX,
        0 <= k < latencies.len(),
        0 <= b < 22,
    ensures
        ({
            let v = max_bound(Tally::of(latencies).buckets);
            &&& 1_000 <= v <= 5_000_000_000
            &&& v < 5_000_000_000 ==> latencies[k] <= v
            &&& BUCKET_BOUNDS_NS@[b] < v ==> latencies.filter(
                |ns: u64| ns <= BUCKET_BOUNDS_NS@[b],
            ).len() < latencies.len()
        }),
{
    let counts = Tally::of(latencies).buckets;
    let v = max_bound(counts);
    lemma_tally_of(latencies);
    lemma_bounds_by_decade();
    lemma_bounds_ascend();
    lemma_last_nonempty(counts);
    if last_nonempty(counts) is None {
        lemma_zero_counts(counts, 22);
    }
    let i = last_nonempty(counts)->0;
    lemma_tail_of_zeros(counts, i + 1, 22);
    lemma_buckets_hold_latencies(latencies, i);
    lemma_buckets_hold_latencies(latencies, b);
    let within = |ns: u64| ns <= BUCKET_BOUNDS_NS@[i];
    lemma_all_kept(latencies, within);
    assert(latencies.filter(within)[k] == latencies[k]);
    assert(within(latencies[k])) by {
        broadcast use vstd::seq_lib::group_filter_ensures;
    }
    if BUCKET_BOUNDS_NS@[b] < v {
        assert(b < i);
        lemma_prefix_sum_grows(counts, b + 1, i);
        assert(prefix_sum(counts, i + 1) == prefix_sum(counts, i) + counts[i]);
    }
}

/// Where a filter keeps as many entries as there are, it keeps all of them.
proof fn lemma_all_kept(s: Seq<u64>, p: spec_fn(u64) -> bool)
    requires
        s.filter(p).len() == s.len(),
    ensures
        s.filter(p) == s,
    decreases s.len(),
{
    reveal(Seq::filter);
    if s.len() > 0 {
        s.drop_last().lemma_filter_len(p);
        lemma_all_kept(s.drop_last(), p);
        assert(s.filter(p) =~= s);
    }
}

/// What is reported of a tally: its own count, the average of its sum, the
/// median, the 99th percentile and the maximum of its buckets, and the count of
/// the whole run.
pub proof fn lemma_report_figures(t: Tally, total_count: u64)
    ensures
        t.report(total_count).count == t.count,
        t.report(total_count).total_count == total_count,
        t.count == 0 ==> t.report(total_count).avg == 0,
        t.count > 0 ==> t.report(total_count).avg * t.count <= t.sum < (t.report(total_count).avg
            + 1) * t.count,
        t.report(total_count).p50 == percentile_bound(t.buckets, t.count, 50),
        t.report(total_count).p99 == percentile_bound(t.buckets, t.count, 99),
        t.report(total_count).max == max_bound(t.buckets),
{
    if t.count > 0 {
        let s = t.sum as int;
        let n = t.count as int;
        assert((s / n) * n <= s < (s / n + 1) * n) by (nonlinear_arith)
            requires
                n > 0,
        ;
    }
}

/// One more observation raises the count of its own bucket and of no other,
/// in the window and in the whole run.
pub proof fn lemma_observation_counts_once(s: HistogramState, ns: u64, i: int)
    requires
        s.consistent(),
        s.total.count < u64::MAX,
        0 <= i < 22,
    ensures
        s.observed(ns).window.count == s.window.count + 1,
        s.observed(ns).total.count == s.total.count + 1,
        s.observed(ns).window.buckets[i] == s.window.buckets[i] + (if i == bucket_of(ns) {
            1int
        } else {
            0
        }),
        s.observed(ns).total.buckets[i] == s.total.buckets[i] + (if i == bucket_of(ns) {
            1int
        } else {
            0
        }),
        s.window.sum + ns <= u64::MAX ==> s.observed(ns).window.sum == s.window.sum + ns,
        s.total.sum + ns <= u64::MAX ==> s.observed(ns).total.sum == s.total.sum + ns,
{
    lemma_bucket_of(ns);
    lemma_observed_consistent(s.window, ns);
    lemma_observed_consistent(s.total, ns);
}

/// A flush empties the window and keeps the whole run.
pub proof fn lemma_flush_empties_window(s: HistogramState)
    ensures
        s.flushed().window.count == 0,
        s.flushed().window.sum == 0,
        s.flushed().window.buckets.len() == 22,
        forall|i: int| 0 <= i < 22 ==> #[trigger] s.flushed().window.buckets[i] == 0,
        s.flushed().total == s.total,
        HistogramState::empty().window == s.flushed().window,
        HistogramState::empty().total == s.flushed().window,
        s.window_report() == s.window.report(s.total.count),
        s.total_report() == s.total.report(s.total.count),
{
}

/// The window holds what happened since the last flush, as if the histogram
/// had been new then.
pub proof fn lemma_window_since_flush(
    before: Seq<HistogramEvent>,
    since: Seq<HistogramEvent>,
)
    ensures
        HistogramState::after(before.push(HistogramEvent::Flush) + since).window
            == HistogramState::after(since).window,
    decreases since.len(),
{
    let all = before.push(HistogramEvent::Flush) + since;
    if since.len() == 0 {
        assert(all =~= before.push(HistogramEvent::Flush));
        assert(all.drop_last() =~= before);
    } else {
        lemma_window_since_flush(before, since.drop_last());
        assert(all.drop_last() =~= before.push(HistogramEvent::Flush) + since.drop_last());
        assert(all.last() == since.last());
    }
}

/// Observations are kept in order, flushes are not among them.
pub proof fn lemma_observations_in_order(events: Seq<HistogramEvent>, ns: u64)
    ensures
        observations(Seq::empty()) == Seq::<u64>::empty(),
        observations(events.push(HistogramEvent::Observe(ns))) == observations(events).push(ns),
        observations(events.push(HistogramEvent::Flush)) == observations(events),
        latency_sum(observations(events).push(ns)) == latency_sum(observations(events)) + ns,
        latency_sum(Seq::empty()) == 0,
{
    assert(events.push(HistogramEvent::Observe(ns)).drop_last() =~= events);
    assert(events.push(HistogramEvent::Flush).drop_last() =~= events);
    assert(observations(events).push(ns).drop_last() =~= observations(events));
}

/// What the figures of a snapshot that fits together promise.
pub proof fn lemma_fitting_figures(s: HistogramSnapshot)
    requires
        s.fits_together(),
    ensures
        s.count <= s.total_count,
        s.p50 <= s.p99,
        s.p99 <= s.max,
        s.count == 0 ==> s.avg == 0 && s.p50 == 0 && s.p99 == 0 && s.max == 0,
        s.count > 0 ==> s.max > 0,
{
}

/// A tally can be reported as long as 99 times its count fits 64 bits; one that
/// holds what it counted needs no more.
pub proof fn lemma_reportable(t: Tally)
    requires
        t.consistent(),
    ensures
        t.reportable() <==> t.count * 99 <= u64::MAX,
        t.buckets.len() == 22,
        prefix_sum(t.buckets, 22) == t.count,
{
}

/// The window is part of the whole run, bucket by bucket.
pub proof fn lemma_window_within_run(s: HistogramState, i: int)
    requires
        s.consistent(),
        0 <= i < 22,
    ensures
        s.window.buckets[i] <= s.total.buckets[i],
        s.window.count <= s.total.count,
{
}

} // verus!
