//! Tests for the histogram, the aggregator, the report builder and the
//! rate controller.

use cannon::aggregate::Aggregator;
use cannon::histogram::{LatencyHistogram, MAX_TRACKABLE_MICROS};
use cannon::rate::shot_delay_micros;
use cannon::report::{
    build_report, efficiency_centipercent, sorted_tally, throughput_milli_rps,
};
use cannon::shot::{classify_transport_failure, ShotError, ShotResult, TransportFailure};

fn success_shot(duration_us: u64, status: u16) -> ShotResult {
    ShotResult {
        success: true,
        duration_us,
        status_code: Some(status),
        error: None,
        assertion_success: true,
    }
}

#[test]
fn histogram_tracks_exact_min_max_mean_and_len() {
    let mut h = LatencyHistogram::new();
    assert_eq!(h.len(), 0);
    assert_eq!(h.min(), 0);
    assert_eq!(h.max(), 0);
    for v in [10u64, 20, 30, 40, 50, 60, 70, 80, 90, 100] {
        assert!(h.record(v));
    }
    assert_eq!(h.len(), 10);
    assert_eq!(h.min(), 10);
    assert_eq!(h.max(), 100);
    assert_eq!(h.mean_micros(), 55);
}

#[test]
fn histogram_quantiles_are_order_statistics() {
    let mut h = LatencyHistogram::new();
    for v in [10u64, 20, 30, 40, 50, 60, 70, 80, 90, 100] {
        assert!(h.record(v));
    }
    assert_eq!(h.value_at_permyriad(0), 10);
    assert_eq!(h.value_at_permyriad(5000), 50);
    assert_eq!(h.value_at_permyriad(9500), 100);
    assert_eq!(h.value_at_permyriad(9900), 100);
    assert_eq!(h.value_at_permyriad(10000), 100);
}

#[test]
fn histogram_quantizes_large_values_to_four_digits() {
    let mut h = LatencyHistogram::new();
    assert!(h.record(123_456));
    assert_eq!(h.value_at_permyriad(10000), 123_400);
    assert_eq!(h.max(), 123_456);
}

#[test]
fn histogram_rejects_out_of_range_samples() {
    let mut h = LatencyHistogram::new();
    assert!(h.record(MAX_TRACKABLE_MICROS));
    assert!(!h.record(MAX_TRACKABLE_MICROS + 1));
    assert_eq!(h.len(), 1);
}

#[test]
fn histogram_lists_nonzero_buckets_ascending() {
    let mut h = LatencyHistogram::new();
    for v in [5u64, 5, 42, 123_456] {
        assert!(h.record(v));
    }
    let buckets = h.nonzero_buckets();
    assert_eq!(buckets, vec![(5, 2), (42, 1), (123_400, 1)]);
}

#[test]
fn successes_plus_failures_equals_outcomes_absorbed() {
    let mut agg = Aggregator::new();
    for i in 0..7u64 {
        agg.absorb(success_shot(1000 + i, 200));
    }
    for _ in 0..3 {
        agg.absorb(classify_transport_failure(TransportFailure::Other, 50));
    }
    assert_eq!(agg.successes(), 7);
    assert_eq!(agg.failures(), 3);
    assert_eq!(agg.absorbed_count(), 10);
}

#[test]
fn histogram_sample_count_equals_successes() {
    let mut agg = Aggregator::new();
    for i in 0..5u64 {
        agg.absorb(success_shot(2000 * (i + 1), 200));
    }
    agg.absorb(classify_transport_failure(TransportFailure::Timeout, 99));
    assert_eq!(agg.histogram().len(), agg.successes());
    assert_eq!(agg.dropped_samples(), 0);
}

#[test]
fn out_of_range_success_is_counted_but_dropped_from_histogram() {
    let mut agg = Aggregator::new();
    agg.absorb(success_shot(1000, 200));
    agg.absorb(success_shot(MAX_TRACKABLE_MICROS + 5, 200));
    assert_eq!(agg.successes(), 2);
    assert_eq!(agg.dropped_samples(), 1);
    assert_eq!(agg.histogram().len(), 1);
}

#[test]
fn connection_refused_run_fails_every_shot() {
    let mut agg = Aggregator::new();
    for _ in 0..100 {
        let r = classify_transport_failure(TransportFailure::Connect, 75);
        assert!(!r.success);
        assert_eq!(r.status_code, None);
        assert_eq!(r.error, Some(ShotError::ConnectionError));
        agg.absorb(r);
    }
    assert_eq!(agg.successes(), 0);
    assert_eq!(agg.failures(), 100);
    assert_eq!(agg.histogram().len(), 0);
    assert!(sorted_tally(&agg).is_empty());
}

#[test]
fn steady_run_at_twenty_millis_has_median_twenty_millis() {
    let mut agg = Aggregator::new();
    for _ in 0..100 {
        agg.absorb(success_shot(20_000, 200));
    }
    assert_eq!(agg.successes(), 100);
    assert_eq!(agg.failures(), 0);
    let report = build_report(&agg, String::from("http://localhost/"), 100, 10);
    assert_eq!(report.successes, 100);
    assert_eq!(report.failures, 0);
    assert_eq!(report.p50_us, 20_000);
    assert_eq!(report.min_us, 20_000);
    assert_eq!(report.max_us, 20_000);
    let tally = sorted_tally(&agg);
    assert_eq!(tally, vec![(200, 100)]);
}

#[test]
fn report_fields_match_direct_quantile_queries() {
    let mut agg = Aggregator::new();
    for v in [1500u64, 250, 4800, 250, 99_000, 12, 700_000, 31, 31, 2] {
        agg.absorb(success_shot(v, 200));
    }
    let report = build_report(&agg, String::from("t"), 10, 2);
    let h = agg.histogram();
    assert_eq!(report.min_us, h.min());
    assert_eq!(report.p50_us, h.value_at_permyriad(5000));
    assert_eq!(report.p95_us, h.value_at_permyriad(9500));
    assert_eq!(report.p99_us, h.value_at_permyriad(9900));
    assert_eq!(report.max_us, h.max());
    assert_eq!(report.avg_us, h.mean_micros());
}

#[test]
fn empty_run_reports_zero_latencies() {
    let agg = Aggregator::new();
    let report = build_report(&agg, String::from("t"), 0, 1);
    assert_eq!(report.successes, 0);
    assert_eq!(report.failures, 0);
    assert_eq!(report.min_us, 0);
    assert_eq!(report.p50_us, 0);
    assert_eq!(report.max_us, 0);
}

#[test]
fn status_tally_sorts_ascending_by_code() {
    let mut agg = Aggregator::new();
    agg.absorb(success_shot(10, 404));
    agg.absorb(success_shot(10, 200));
    agg.absorb(success_shot(10, 200));
    agg.absorb(success_shot(10, 500));
    let tally = sorted_tally(&agg);
    assert_eq!(tally, vec![(200, 2), (404, 1), (500, 1)]);
}

#[test]
fn no_configured_rate_means_no_delay() {
    assert_eq!(shot_delay_micros(None, 0, 0), 0);
    assert_eq!(shot_delay_micros(Some(0), 500, 0), 0);
}

#[test]
fn flat_rate_sleeps_one_over_rps() {
    assert_eq!(shot_delay_micros(Some(100), 0, 0), 10_000);
    assert_eq!(shot_delay_micros(Some(50), 123, 0), 20_000);
    assert_eq!(shot_delay_micros(Some(1), 0, 0), 1_000_000);
}

#[test]
fn ramp_starts_at_one_second_and_tightens_to_target() {
    let ramp_us: u64 = 10_000_000;
    let target: u32 = 50;
    let at_start = shot_delay_micros(Some(target), 0, ramp_us);
    assert_eq!(at_start, 1_000_000);
    let mut prev = at_start;
    for elapsed in [1_000_000u64, 2_500_000, 5_000_000, 7_500_000, 9_999_999] {
        let d = shot_delay_micros(Some(target), elapsed, ramp_us);
        assert!(d <= prev, "delay grew during ramp");
        prev = d;
    }
    let after = shot_delay_micros(Some(target), ramp_us, ramp_us);
    assert_eq!(after, 1_000_000 / target as u64);
}

#[test]
fn throughput_and_efficiency_are_exact_integer_ratios() {
    let actual = throughput_milli_rps(100, 2_000_000);
    assert_eq!(actual, 50_000);
    assert_eq!(efficiency_centipercent(actual, 50), 10_000);
    assert_eq!(efficiency_centipercent(25_000, 50), 5_000);
}
