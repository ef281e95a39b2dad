//! The report builder: derives the immutable final snapshot from the
//! aggregator's state once the outcome stream is exhausted. Latencies
//! are carried in whole microseconds; converting them to fractional
//! milliseconds for display or persistence is the outside renderer's
//! business.

use vstd::prelude::*;
use crate::aggregate::{
    count_failure, count_status, count_success, recorded_latencies, tally_has_code, Aggregator,
};
use crate::histogram::{is_rank_value, max_of, min_of, rank_spec, sum_of, lemma_rank_value_unique};

verus! {

/// The immutable final snapshot of one run: echoed configuration,
/// outcome counters and derived latency statistics, in microseconds.
pub struct FinalReport {
    /// The target URL, echoed from the configuration.
    pub target: String,
    /// The configured total shot count.
    pub total_requests: u32,
    /// The configured concurrency limit.
    pub concurrency: u32,
    /// How many shots succeeded.
    pub successes: u64,
    /// How many shots failed.
    pub failures: u64,
    /// Least recorded latency.
    pub min_us: u64,
    /// Mean recorded latency, rounded down.
    pub avg_us: u64,
    /// Median recorded latency.
    pub p50_us: u64,
    /// 95th-percentile recorded latency.
    pub p95_us: u64,
    /// 99th-percentile recorded latency.
    pub p99_us: u64,
    /// Greatest recorded latency.
    pub max_us: u64,
}

/// One labelled row of the rendered latency table.
pub struct LatencyMetrics {
    /// The row's label.
    pub metric: String,
    /// The rendered value.
    pub value: String,
}

/// Builds the final report from the aggregator's state. With no recorded
/// sample every latency field is zero; otherwise the minimum, mean and
/// maximum are exact and each percentile field carries the rank value
/// its permyriad picks out of the recorded stream.
pub fn build_report(
    agg: &Aggregator,
    target: String,
    total_requests: u32,
    concurrency: u32,
) -> (r: FinalReport)
    requires
        agg.wf(),
    ensures
        r.target == target,
        r.total_requests == total_requests,
        r.concurrency == concurrency,
        r.successes == count_success(agg@),
        r.failures == count_failure(agg@),
        recorded_latencies(agg@).len() == 0 ==> r.min_us == 0 && r.avg_us == 0 && r.p50_us == 0
            && r.p95_us == 0 && r.p99_us == 0 && r.max_us == 0,
        recorded_latencies(agg@).len() > 0 ==> {
            let lats = recorded_latencies(agg@);
            &&& r.min_us == min_of(lats)
            &&& r.avg_us == sum_of(lats) / lats.len() as int
            &&& is_rank_value(lats, rank_spec(5000, lats.len() as int), r.p50_us as int)
            &&& is_rank_value(lats, rank_spec(9500, lats.len() as int), r.p95_us as int)
            &&& is_rank_value(lats, rank_spec(9900, lats.len() as int), r.p99_us as int)
            &&& r.max_us == max_of(lats)
        },
{
    let successes = agg.successes();
    let failures = agg.failures();
    let h = agg.histogram();
    if h.len() == 0 {
        FinalReport {
            target,
            total_requests,
            concurrency,
            successes,
            failures,
            min_us: 0,
            avg_us: 0,
            p50_us: 0,
            p95_us: 0,
            p99_us: 0,
            max_us: 0,
        }
    } else {
        FinalReport {
            target,
            total_requests,
            concurrency,
            successes,
            failures,
            min_us: h.min(),
            avg_us: h.mean_micros(),
            p50_us: h.value_at_permyriad(5000),
            p95_us: h.value_at_permyriad(9500),
            p99_us: h.value_at_permyriad(9900),
            max_us: h.max(),
        }
    }
}

/// Report round-trip: the percentile fields of a built report are
/// exactly what direct quantile queries against the same recorded
/// stream answer — a rank value is unique, so persisting and re-querying
/// cannot disagree. The minimum and maximum fields already carry exact
/// equalities in `build_report`'s contract.
pub proof fn lemma_report_round_trip(
    lats: Seq<u64>,
    r: FinalReport,
    q50: u64,
    q95: u64,
    q99: u64,
)
    requires
        is_rank_value(lats, rank_spec(5000, lats.len() as int), r.p50_us as int),
        is_rank_value(lats, rank_spec(9500, lats.len() as int), r.p95_us as int),
        is_rank_value(lats, rank_spec(9900, lats.len() as int), r.p99_us as int),
        is_rank_value(lats, rank_spec(5000, lats.len() as int), q50 as int),
        is_rank_value(lats, rank_spec(9500, lats.len() as int), q95 as int),
        is_rank_value(lats, rank_spec(9900, lats.len() as int), q99 as int),
    ensures
        r.p50_us == q50,
        r.p95_us == q95,
        r.p99_us == q99,
{
    lemma_rank_value_unique(lats, rank_spec(5000, lats.len() as int), r.p50_us as int, q50 as int);
    lemma_rank_value_unique(lats, rank_spec(9500, lats.len() as int), r.p95_us as int, q95 as int);
    lemma_rank_value_unique(lats, rank_spec(9900, lats.len() as int), r.p99_us as int, q99 as int);
}

/// Finds the tally entry for `code`, if one exists.
fn tally_lookup(t: &Vec<(u16, u64)>, code: u16) -> (r: Option<u64>)
    ensures
        match r {
            Some(c) => exists|b: int| 0 <= b < t@.len() && #[trigger] t@[b] == (code, c),
            None => !tally_has_code(t@, code),
        },
{
    let mut b: usize = 0;
    while b < t.len()
        invariant
            b <= t@.len(),
            forall|a: int| 0 <= a < b ==> (#[trigger] t@[a]).0 != code,
        decreases t@.len() - b,
    {
        let entry = t[b];
        if entry.0 == code {
            proof {
                assert(t@[b as int] == (code, entry.1));
            }
            return Some(entry.1);
        }
        b = b + 1;
    }
    None
}

/// The status-code distribution, sorted ascending by code: every code
/// that occurred appears exactly once with its occurrence count, and no
/// other code appears.
pub fn sorted_tally(agg: &Aggregator) -> (r: Vec<(u16, u64)>)
    requires
        agg.wf(),
    ensures
        forall|a: int, b: int| 0 <= a < b < r@.len() ==> (#[trigger] r@[a]).0 < (#[trigger] r@[b]).0,
        forall|a: int|
            0 <= a < r@.len() ==> (#[trigger] r@[a]).1 == count_status(agg@, r@[a].0) && r@[a].1
                >= 1,
        forall|code: u16|
            count_status(agg@, code) > 0 ==> exists|a: int|
                0 <= a < r@.len() && (#[trigger] r@[a]).0 == code,
{
    let t = agg.tally_entries();
    let mut r: Vec<(u16, u64)> = Vec::new();
    let mut code: u32 = 0;
    while code <= 65535
        invariant
            code <= 65536,
            agg.wf(),
            crate::aggregate::tally_wf(t@, agg@),
            forall|a: int, b: int|
                0 <= a < b < r@.len() ==> (#[trigger] r@[a]).0 < (#[trigger] r@[b]).0,
            forall|a: int| 0 <= a < r@.len() ==> (#[trigger] r@[a]).0 < code,
            forall|a: int|
                0 <= a < r@.len() ==> (#[trigger] r@[a]).1 == count_status(agg@, r@[a].0)
                    && r@[a].1 >= 1,
            forall|c: u16|
                c < code && count_status(agg@, c) > 0 ==> exists|a: int|
                    0 <= a < r@.len() && (#[trigger] r@[a]).0 == c,
        decreases 65536 - code,
    {
        let c16: u16 = code as u16;
        let ghost r0 = r@;
        match tally_lookup(t, c16) {
            Some(cnt) => {
                proof {
                    let b = choose|b: int| 0 <= b < t@.len() && #[trigger] t@[b] == (c16, cnt);
                    assert(t@[b].1 == count_status(agg@, t@[b].0) && t@[b].1 >= 1);
                }
                r.push((c16, cnt));
                proof {
                    assert(forall|a: int| 0 <= a < r0.len() ==> r@[a] == r0[a]);
                    assert(r@[r@.len() - 1] == (c16, cnt));
                    assert forall|c: u16|
                        c < code + 1 && count_status(agg@, c) > 0 implies exists|a: int|
                        0 <= a < r@.len() && (#[trigger] r@[a]).0 == c by {
                        if c < code {
                            let a = choose|a: int| 0 <= a < r0.len() && (#[trigger] r0[a]).0 == c;
                            assert(r@[a].0 == c);
                        } else {
                            assert(r@[r@.len() - 1].0 == c);
                        }
                    }
                }
            },
            None => {
                proof {
                    assert(count_status(agg@, c16) == 0);
                    assert forall|c: u16|
                        c < code + 1 && count_status(agg@, c) > 0 implies exists|a: int|
                        0 <= a < r@.len() && (#[trigger] r@[a]).0 == c by {
                        assert(c < code);
                        let a = choose|a: int| 0 <= a < r0.len() && (#[trigger] r0[a]).0 == c;
                        assert(r@[a].0 == c);
                    }
                }
            },
        }
        code = code + 1;
    }
    proof {
        assert forall|c: u16| count_status(agg@, c) > 0 implies exists|a: int|
            0 <= a < r@.len() && (#[trigger] r@[a]).0 == c by {
            assert(c < 65536 && count_status(agg@, c) > 0);
        }
    }
    r
}

/// Successes per second of wall time, in milli-requests per second.
pub fn throughput_milli_rps(successes: u64, elapsed_us: u64) -> (r: u64)
    requires
        elapsed_us > 0,
        successes <= u32::MAX,
    ensures
        r == successes as int * 1_000_000_000 / elapsed_us as int,
{
    let w: u128 = successes as u128 * 1_000_000_000;
    let q: u128 = w / (elapsed_us as u128);
    proof {
        vstd::arithmetic::div_mod::lemma_div_is_ordered_by_denominator(
            w as int,
            1,
            elapsed_us as int,
        );
    }
    q as u64
}

/// Achieved throughput as a share of the target, in hundredths of a
/// percent: `actual / target × 100`, with the actual rate given in
/// milli-requests per second.
pub fn efficiency_centipercent(actual_milli_rps: u64, target_rps: u32) -> (r: u64)
    requires
        1 <= target_rps,
        actual_milli_rps * 10 <= u64::MAX,
    ensures
        r == actual_milli_rps as int * 10 / target_rps as int,
{
    actual_milli_rps * 10 / (target_rps as u64)
}

} // verus!
