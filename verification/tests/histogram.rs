use crowdb::metrics::histogram::{bucket_index, percentile, LatencyHistogram};
use crowdb::metrics::name::MetricName;

#[test]
fn histogram_p50_p99_with_known_distribution() {
    let mut h = LatencyHistogram::new(MetricName::Static("test.lh"));
    for _ in 0..100 {
        h.observe(500_000);
    }
    let s = h.flush();
    assert_eq!(s.count, 100);
    assert_eq!(s.total_count, 100);
    assert_eq!(s.p50, 500_000);
    assert_eq!(s.p99, 500_000);
    assert_eq!(s.max, 500_000);
}

#[test]
fn histogram_mixed_distribution() {
    let mut h = LatencyHistogram::new(MetricName::Static("test.lh"));
    for _ in 0..80 {
        h.observe(1_000);
    }
    for _ in 0..20 {
        h.observe(10_000_000);
    }
    let s = h.flush();
    assert_eq!(s.count, 100);
    assert_eq!(s.p50, 1_000);
    assert_eq!(s.p99, 10_000_000);
    assert_eq!(s.max, 10_000_000);
}

#[test]
fn histogram_window_resets_after_flush() {
    let mut h = LatencyHistogram::new(MetricName::Static("test.lh"));
    h.observe(1_000);
    h.observe(2_000);
    let s1 = h.flush();
    assert_eq!(s1.count, 2);
    assert_eq!(s1.total_count, 2);

    let s2 = h.flush();
    assert_eq!(s2.count, 0);
    assert_eq!(s2.p50, 0);
    assert_eq!(s2.total_count, 2);
}

#[test]
fn histogram_snapshot_does_not_reset() {
    let mut h = LatencyHistogram::new(MetricName::Static("test.lh"));
    h.observe(100_000);
    let s = h.snapshot();
    assert_eq!(s.count, 1);
    let s2 = h.snapshot();
    assert_eq!(s2.count, 1);
}

#[test]
fn bucket_index_correctness() {
    assert_eq!(bucket_index(0), 0);
    assert_eq!(bucket_index(1_000), 0);
    assert_eq!(bucket_index(1_001), 1);
    assert_eq!(bucket_index(10_000), 3);
    assert_eq!(bucket_index(10_001), 4);
    assert_eq!(bucket_index(u64::MAX), 21);
}

#[test]
fn totals_survive_flushes() {
    let mut h = LatencyHistogram::new(MetricName::Static("test.lh"));
    h.observe(1_500);
    h.flush();
    h.observe(3_000);
    let t = h.snapshot_total();
    assert_eq!(t.count, 2);
    assert_eq!(t.total_count, 2);
    assert_eq!(t.avg, 2_250);
    assert_eq!(t.p50, 2_000);
    assert_eq!(t.max, 5_000);
    assert_eq!(h.name(), "test.lh");
}

#[test]
fn percentiles_do_not_pass_the_maximum() {
    let mut h = LatencyHistogram::new(MetricName::Static("test.lh"));
    for ns in [7, 40_000, 900_000_000, 6_000_000_000] {
        h.observe(ns);
    }
    let s = h.snapshot();
    assert!(s.p50 <= s.p99 && s.p99 <= s.max);
    assert_eq!(s.max, 5_000_000_000);
}

#[test]
fn a_single_observation_is_every_percentile() {
    let mut h = LatencyHistogram::new(MetricName::Static("test.lh"));
    h.observe(100_000);
    let s = h.snapshot();
    assert_eq!((s.p50, s.p99, s.max), (100_000, 100_000, 100_000));
    let t = h.snapshot_total();
    assert_eq!((t.p50, t.p99, t.max), (100_000, 100_000, 100_000));
    let f = h.flush();
    assert_eq!((f.p50, f.p99, f.max), (100_000, 100_000, 100_000));
    let mut buckets = [0; 22];
    buckets[6] = 1;
    assert_eq!(percentile(&buckets, 1, 50), 100_000);
    assert_eq!(percentile(&buckets, 1, 0), 100_000);
    assert_eq!(percentile(&buckets, 0, 50), 0);
}

#[test]
fn totals_do_not_depend_on_flushes_or_order() {
    let mut flushed = LatencyHistogram::new(MetricName::Static("a"));
    let mut other = LatencyHistogram::new(MetricName::Static("b"));
    for ns in [900, 3_000_000, 42_000, 7_000_000_000] {
        flushed.observe(ns);
        flushed.flush();
    }
    for ns in [42_000, 7_000_000_000, 900, 3_000_000] {
        other.observe(ns);
    }
    let figures = |s: crowdb::metrics::histogram::HistogramSnapshot| {
        (s.count, s.avg, s.p50, s.p99, s.max, s.total_count)
    };
    assert_eq!(figures(flushed.snapshot_total()), figures(other.snapshot_total()));
    assert_eq!(figures(flushed.snapshot_total()), figures(other.snapshot()));
    let s = other.snapshot_total();
    assert_eq!((s.count, s.total_count, s.avg), (4, 4, 1_750_760_725));
    assert_eq!((s.p50, s.p99, s.max), (50_000, 5_000_000, 5_000_000_000));
}

#[test]
fn figures_fit_together() {
    let mut h = LatencyHistogram::new(MetricName::Static("test.lh"));
    let none = h.snapshot();
    assert_eq!((none.count, none.avg, none.p50, none.p99, none.max), (0, 0, 0, 0, 0));
    for ns in [0, 7, 40_000, 900_000_000, 5_000_000_000] {
        h.observe(ns);
        for s in [h.snapshot(), h.snapshot_total()] {
            assert!(s.count <= s.total_count);
            assert!(s.p50 <= s.p99 && s.p99 <= s.max);
            assert!(s.avg <= s.max && s.max > 0);
        }
    }
}
