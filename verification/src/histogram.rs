//! A compressed latency distribution at microsecond resolution over a
//! bounded range, supporting constant-time insertion and quantile, mean,
//! minimum and maximum queries.
//!
//! Values up to 10 milliseconds are kept exactly; larger values are
//! quantized to four significant decimal digits, so the relative
//! quantization error is below one part in a thousand. The trackable
//! range is 0 to 60 seconds; an out-of-range sample is rejected and the
//! caller decides what to do about it.

use vstd::prelude::*;
use vstd::arithmetic::div_mod::{lemma_div_is_ordered, lemma_fundamental_div_mod};

verus! {

/// Largest latency, in microseconds, that the histogram can record.
pub const MAX_TRACKABLE_MICROS: u64 = 60_000_000;

/// Number of buckets: one per exact value below 10000, then 9000 per
/// decimal order of magnitude up to 10^8.
pub const NUM_BUCKETS: usize = 46000;

/// Whether the histogram can record a latency of `v` microseconds.
pub open spec fn trackable(v: u64) -> bool {
    v <= MAX_TRACKABLE_MICROS
}

/// The bucket that holds value `v`. Meaningful for `0 <= v < 10^8`.
pub open spec fn bucket_of(v: int) -> int {
    if v < 10000 {
        v
    } else if v < 100000 {
        10000 + (v / 10 - 1000)
    } else if v < 1000000 {
        19000 + (v / 100 - 1000)
    } else if v < 10000000 {
        28000 + (v / 1000 - 1000)
    } else {
        37000 + (v / 10000 - 1000)
    }
}

/// `v` rounded down to four significant decimal digits: the lowest value
/// of its bucket.
pub open spec fn quantize(v: int) -> int {
    if v < 10000 {
        v
    } else if v < 100000 {
        v / 10 * 10
    } else if v < 1000000 {
        v / 100 * 100
    } else if v < 10000000 {
        v / 1000 * 1000
    } else {
        v / 10000 * 10000
    }
}

/// The lowest value of bucket `i`: the common quantization of everything
/// the bucket holds.
pub open spec fn bucket_value(i: int) -> int {
    if i < 10000 {
        i
    } else if i < 19000 {
        (i - 10000 + 1000) * 10
    } else if i < 28000 {
        (i - 19000 + 1000) * 100
    } else if i < 37000 {
        (i - 28000 + 1000) * 1000
    } else {
        (i - 37000 + 1000) * 10000
    }
}

/// Each value below 10^8 lands in a real bucket, the lowest value of that
/// bucket is the value's quantization, and quantization only rounds down,
/// by less than a thousandth of the value.
pub proof fn lemma_bucket_of_range(v: int)
    requires
        0 <= v < 100000000,
    ensures
        0 <= bucket_of(v) < NUM_BUCKETS,
        bucket_value(bucket_of(v)) == quantize(v),
        quantize(v) <= v,
        1000 * (v - quantize(v)) < if v < 10000 {
            1000int
        } else {
            v
        },
{
    if v < 10000 {
    } else if v < 100000 {
        lemma_fundamental_div_mod(v, 10);
    } else if v < 1000000 {
        lemma_fundamental_div_mod(v, 100);
    } else if v < 10000000 {
        lemma_fundamental_div_mod(v, 1000);
    } else {
        lemma_fundamental_div_mod(v, 10000);
    }
}

/// A bucket's lowest value lands back in that bucket: `bucket_value`
/// inverts `bucket_of`.
pub proof fn lemma_bucket_of_value(i: int)
    requires
        0 <= i < NUM_BUCKETS,
    ensures
        0 <= bucket_value(i) < 100000000,
        bucket_of(bucket_value(i)) == i,
{
}

/// Bucket lowest values strictly increase with the bucket index.
pub proof fn lemma_bucket_value_increasing(i: int, j: int)
    requires
        0 <= i < j <= NUM_BUCKETS,
    ensures
        bucket_value(i) < bucket_value(j),
{
}

/// For a value in range, sitting below bucket `i` and being quantized
/// below that bucket's lowest value are the same thing.
pub proof fn lemma_bucket_order_equiv(v: int, i: int)
    requires
        0 <= v < 100000000,
        0 <= i <= NUM_BUCKETS,
    ensures
        (bucket_of(v) < i) == (quantize(v) < bucket_value(i)),
        i < NUM_BUCKETS ==> (bucket_of(v) <= i) == (quantize(v) <= bucket_value(i)),
{
    lemma_bucket_of_range(v);
    if bucket_of(v) < i {
        lemma_bucket_value_increasing(bucket_of(v), i);
    } else if i < bucket_of(v) {
        lemma_bucket_value_increasing(i, bucket_of(v));
    }
}

/// How many values of `s` land in bucket `i`.
pub open spec fn count_in_bucket(s: Seq<u64>, i: int) -> nat
    decreases s.len(),
{
    if s.len() == 0 {
        0
    } else {
        count_in_bucket(s.drop_last(), i) + if bucket_of(s.last() as int) == i {
            1nat
        } else {
            0nat
        }
    }
}

/// How many values of `s` land in a bucket below `i`.
pub open spec fn count_below_bucket(s: Seq<u64>, i: int) -> nat
    decreases s.len(),
{
    if s.len() == 0 {
        0
    } else {
        count_below_bucket(s.drop_last(), i) + if bucket_of(s.last() as int) < i {
            1nat
        } else {
            0nat
        }
    }
}

/// How many values of `s` quantize to at most `v`.
pub open spec fn count_q_leq(s: Seq<u64>, v: int) -> nat
    decreases s.len(),
{
    if s.len() == 0 {
        0
    } else {
        count_q_leq(s.drop_last(), v) + if quantize(s.last() as int) <= v {
            1nat
        } else {
            0nat
        }
    }
}

/// How many values of `s` quantize to strictly less than `v`.
pub open spec fn count_q_lt(s: Seq<u64>, v: int) -> nat
    decreases s.len(),
{
    if s.len() == 0 {
        0
    } else {
        count_q_lt(s.drop_last(), v) + if quantize(s.last() as int) < v {
            1nat
        } else {
            0nat
        }
    }
}

/// The sum of the values of `s`.
pub open spec fn sum_of(s: Seq<u64>) -> int
    decreases s.len(),
{
    if s.len() == 0 {
        0
    } else {
        sum_of(s.drop_last()) + s.last()
    }
}

/// The least value of `s`, or 0 when `s` is empty.
pub open spec fn min_of(s: Seq<u64>) -> u64
    decreases s.len(),
{
    if s.len() == 0 {
        0
    } else if s.len() == 1 {
        s.last()
    } else if s.last() < min_of(s.drop_last()) {
        s.last()
    } else {
        min_of(s.drop_last())
    }
}

/// The greatest value of `s`, or 0 when `s` is empty.
pub open spec fn max_of(s: Seq<u64>) -> u64
    decreases s.len(),
{
    if s.len() == 0 {
        0
    } else if s.last() > max_of(s.drop_last()) {
        s.last()
    } else {
        max_of(s.drop_last())
    }
}

/// Every value of `s` can be tracked.
pub open spec fn all_trackable(s: Seq<u64>) -> bool {
    forall|j: int| 0 <= j < s.len() ==> trackable(#[trigger] s[j])
}

/// No bucket holds more values than `s` has, nor do the buckets below any
/// index.
pub proof fn lemma_counts_le_len(s: Seq<u64>, i: int)
    ensures
        count_in_bucket(s, i) <= s.len(),
        count_below_bucket(s, i) <= s.len(),
    decreases s.len(),
{
    if s.len() > 0 {
        lemma_counts_le_len(s.drop_last(), i);
    }
}

/// Counting below bucket `i + 1` is counting below `i` plus bucket `i`
/// itself.
pub proof fn lemma_count_below_step(s: Seq<u64>, i: int)
    ensures
        count_below_bucket(s, i + 1) == count_below_bucket(s, i) + count_in_bucket(s, i),
    decreases s.len(),
{
    if s.len() > 0 {
        lemma_count_below_step(s.drop_last(), i);
    }
}

/// Every trackable value lands below the bucket array's end, so counting
/// below the end counts everything.
pub proof fn lemma_count_below_all(s: Seq<u64>)
    requires
        all_trackable(s),
    ensures
        count_below_bucket(s, NUM_BUCKETS as int) == s.len(),
    decreases s.len(),
{
    if s.len() > 0 {
        assert(trackable(s.last()));
        lemma_bucket_of_range(s.last() as int);
        assert(all_trackable(s.drop_last())) by {
            assert(forall|j: int|
                0 <= j < s.drop_last().len() ==> s.drop_last()[j] == s[j]);
        }
        lemma_count_below_all(s.drop_last());
    }
}

/// Counting by quantized value and counting by bucket agree at bucket
/// boundaries.
pub proof fn lemma_count_q_at_bucket(s: Seq<u64>, i: int)
    requires
        all_trackable(s),
        0 <= i <= NUM_BUCKETS,
    ensures
        count_q_lt(s, bucket_value(i)) == count_below_bucket(s, i),
        i < NUM_BUCKETS ==> count_q_leq(s, bucket_value(i)) == count_below_bucket(s, i + 1),
    decreases s.len(),
{
    if s.len() > 0 {
        assert(trackable(s.last()));
        lemma_bucket_order_equiv(s.last() as int, i);
        assert(all_trackable(s.drop_last())) by {
            assert(forall|j: int|
                0 <= j < s.drop_last().len() ==> s.drop_last()[j] == s[j]);
        }
        lemma_count_q_at_bucket(s.drop_last(), i);
    }
}

/// A bucket that counts at least one value holds a recorded sample whose
/// quantization is the bucket's lowest value.
pub proof fn lemma_nonempty_bucket_has_sample(s: Seq<u64>, i: int)
    requires
        count_in_bucket(s, i) > 0,
        0 <= i < NUM_BUCKETS,
        all_trackable(s),
    ensures
        exists|j: int|
            0 <= j < s.len() && quantize(#[trigger] s[j] as int) == bucket_value(i),
    decreases s.len(),
{
    if s.len() > 0 {
        if bucket_of(s.last() as int) == i {
            lemma_bucket_of_range(s.last() as int);
            assert(quantize(s[s.len() - 1] as int) == bucket_value(i));
        } else {
            assert(all_trackable(s.drop_last())) by {
                assert(forall|j: int|
                    0 <= j < s.drop_last().len() ==> s.drop_last()[j] == s[j]);
            }
            lemma_nonempty_bucket_has_sample(s.drop_last(), i);
            let j = choose|j: int|
                0 <= j < s.drop_last().len() && quantize(
                    #[trigger] s.drop_last()[j] as int,
                ) == bucket_value(i);
            assert(quantize(s[j] as int) == bucket_value(i));
        }
    }
}

/// The quantized-value counts are monotone in the threshold.
pub proof fn lemma_count_q_monotonic(s: Seq<u64>, a: int, b: int)
    requires
        a <= b,
    ensures
        count_q_leq(s, a) <= count_q_leq(s, b),
        count_q_lt(s, a) <= count_q_lt(s, b),
        a < b ==> count_q_leq(s, a) <= count_q_lt(s, b),
    decreases s.len(),
{
    if s.len() > 0 {
        lemma_count_q_monotonic(s.drop_last(), a, b);
    }
}

/// The value a given rank picks out of the stream: at least `k` samples
/// quantize to at most `r`, fewer than `k` quantize below `r`, and `r` is
/// itself the quantization of a recorded sample.
pub open spec fn is_rank_value(s: Seq<u64>, k: int, r: int) -> bool {
    &&& count_q_leq(s, r) >= k
    &&& count_q_lt(s, r) < k
    &&& exists|j: int| 0 <= j < s.len() && quantize(#[trigger] s[j] as int) == r
}

/// For a fixed stream and rank there is only one rank value: any two
/// values that both satisfy `is_rank_value` are equal. A quantile query
/// answered twice from the same state answers the same.
pub proof fn lemma_rank_value_unique(s: Seq<u64>, k: int, r1: int, r2: int)
    requires
        is_rank_value(s, k, r1),
        is_rank_value(s, k, r2),
    ensures
        r1 == r2,
{
    if r1 < r2 {
        lemma_count_q_monotonic(s, r1, r2);
        assert(false);
    }
    if r2 < r1 {
        lemma_count_q_monotonic(s, r2, r1);
        assert(false);
    }
}

/// A stream of trackable values sums to no more than its length times the
/// trackable maximum.
pub proof fn lemma_sum_bound(s: Seq<u64>)
    requires
        all_trackable(s),
    ensures
        0 <= sum_of(s) <= s.len() * (MAX_TRACKABLE_MICROS as int),
    decreases s.len(),
{
    if s.len() > 0 {
        assert(trackable(s.last()));
        assert(all_trackable(s.drop_last())) by {
            assert(forall|j: int|
                0 <= j < s.drop_last().len() ==> s.drop_last()[j] == s[j]);
        }
        lemma_sum_bound(s.drop_last());
    }
}

/// The latency histogram itself: a fixed array of bucket counters plus
/// exact running total, sum, minimum and maximum, with the stream of
/// recorded samples carried alongside as its abstract model.
pub struct LatencyHistogram {
    counts: Vec<u64>,
    total: u64,
    min_v: u64,
    max_v: u64,
    sum_us: u128,
    recorded: Ghost<Seq<u64>>,
}

impl View for LatencyHistogram {
    type V = Seq<u64>;

    closed spec fn view(&self) -> Seq<u64> {
        self.recorded@
    }
}

impl LatencyHistogram {
    /// The counters, totals and extrema agree with the recorded stream.
    pub closed spec fn wf(&self) -> bool {
        &&& self.counts@.len() == NUM_BUCKETS
        &&& self.recorded@.len() == self.total
        &&& all_trackable(self.recorded@)
        &&& forall|i: int|
            0 <= i < NUM_BUCKETS ==> self.counts@[i] == count_in_bucket(self.recorded@, i)
        &&& self.sum_us == sum_of(self.recorded@)
        &&& self.min_v == min_of(self.recorded@)
        &&& self.max_v == max_of(self.recorded@)
    }

    /// An empty histogram.
    pub fn new() -> (h: Self)
        ensures
            h.wf(),
            h@ == Seq::<u64>::empty(),
    {
        let counts: Vec<u64> = vec![0u64; NUM_BUCKETS];
        LatencyHistogram {
            counts,
            total: 0,
            min_v: 0,
            max_v: 0,
            sum_us: 0,
            recorded: Ghost(Seq::empty()),
        }
    }

    /// How many samples the histogram holds.
    pub fn len(&self) -> (n: u64)
        requires
            self.wf(),
        ensures
            n == self@.len(),
    {
        self.total
    }

    /// The least recorded latency, 0 when nothing was recorded.
    pub fn min(&self) -> (r: u64)
        requires
            self.wf(),
        ensures
            r == min_of(self@),
    {
        self.min_v
    }

    /// The greatest recorded latency, 0 when nothing was recorded.
    pub fn max(&self) -> (r: u64)
        requires
            self.wf(),
        ensures
            r == max_of(self@),
    {
        self.max_v
    }

    /// The mean recorded latency in whole microseconds, rounded down.
    pub fn mean_micros(&self) -> (r: u64)
        requires
            self.wf(),
            self@.len() > 0,
        ensures
            r == sum_of(self@) / self@.len() as int,
    {
        proof {
            lemma_sum_bound(self.recorded@);
            lemma_div_is_ordered(
                sum_of(self.recorded@),
                self.recorded@.len() * (MAX_TRACKABLE_MICROS as int),
                self.recorded@.len() as int,
            );
            vstd::arithmetic::div_mod::lemma_div_multiples_vanish(
                MAX_TRACKABLE_MICROS as int,
                self.recorded@.len() as int,
            );
        }
        (self.sum_us / self.total as u128) as u64
    }

    /// Records one latency sample of `v` microseconds. Returns whether the
    /// sample was within the trackable range; an out-of-range sample
    /// leaves the histogram unchanged.
    pub fn record(&mut self, v: u64) -> (ok: bool)
        requires
            old(self).wf(),
            old(self)@.len() < u64::MAX,
        ensures
            final(self).wf(),
            ok == trackable(v),
            trackable(v) ==> final(self)@ == old(self)@.push(v),
            !trackable(v) ==> final(self)@ == old(self)@,
    {
        if v > MAX_TRACKABLE_MICROS {
            return false;
        }
        let idx: usize = bucket_index(v);
        proof {
            lemma_counts_le_len(self.recorded@, idx as int);
            lemma_sum_bound(self.recorded@);
            vstd::arithmetic::mul::lemma_mul_upper_bound(
                self.recorded@.len() as int,
                u64::MAX as int,
                MAX_TRACKABLE_MICROS as int,
                MAX_TRACKABLE_MICROS as int,
            );
        }
        let c = self.counts[idx];
        self.counts[idx] = c + 1;
        self.total = self.total + 1;
        self.sum_us = self.sum_us + v as u128;
        if self.total == 1 {
            self.min_v = v;
            self.max_v = v;
        } else {
            if v < self.min_v {
                self.min_v = v;
            }
            if v > self.max_v {
                self.max_v = v;
            }
        }
        proof {
            let s0 = old(self).recorded@;
            self.recorded@ = s0.push(v);
            assert(s0.push(v).drop_last() =~= s0);
            assert(s0.push(v).last() == v);
            assert(forall|i: int|
                0 <= i < NUM_BUCKETS ==> count_in_bucket(s0.push(v), i) == count_in_bucket(s0, i)
                    + if bucket_of(v as int) == i {
                    1nat
                } else {
                    0nat
                });
        }
        true
    }
}

/// No trackable value lands below bucket 0.
pub proof fn lemma_count_below_zero(s: Seq<u64>)
    requires
        all_trackable(s),
    ensures
        count_below_bucket(s, 0) == 0,
    decreases s.len(),
{
    if s.len() > 0 {
        assert(trackable(s.last()));
        lemma_bucket_of_range(s.last() as int);
        assert(all_trackable(s.drop_last())) by {
            assert(forall|j: int|
                0 <= j < s.drop_last().len() ==> s.drop_last()[j] == s[j]);
        }
        lemma_count_below_zero(s.drop_last());
    }
}

/// The rank picked out by a permyriad `p` of a stream of `total` samples:
/// the least `k >= 1` with `k * 10000 >= p * total`.
pub open spec fn rank_spec(p: int, total: int) -> int {
    let k = (p * total + 9999) / 10000;
    if k == 0 {
        1
    } else {
        k
    }
}

/// A permyriad rank over a non-empty stream always lies between 1 and the
/// stream's length.
pub proof fn lemma_rank_in_range(p: int, total: int)
    requires
        0 <= p <= 10000,
        1 <= total,
    ensures
        1 <= rank_spec(p, total) <= total,
{
    vstd::arithmetic::mul::lemma_mul_inequality(p, 10000, total);
    lemma_div_is_ordered(p * total + 9999, 10000 * total + 9999, 10000);
    vstd::arithmetic::div_mod::lemma_div_multiples_vanish_fancy(total, 9999, 10000);
    assert(p * total >= 0) by {
        vstd::arithmetic::mul::lemma_mul_inequality(0, p, total);
    }
    lemma_div_is_ordered(0, p * total + 9999, 10000);
}

impl LatencyHistogram {
    /// The latency, in microseconds, at or below which the given
    /// permyriad of recorded samples lies: the `rank_spec(p, len)`-th
    /// smallest sample after quantization. `value_at_permyriad(5000)` is
    /// the median, `value_at_permyriad(9900)` the 99th percentile.
    pub fn value_at_permyriad(&self, p: u64) -> (r: u64)
        requires
            self.wf(),
            self@.len() > 0,
            p <= 10000,
        ensures
            is_rank_value(self@, rank_spec(p as int, self@.len() as int), r as int),
    {
        let ghost s = self.recorded@;
        let ghost k_spec = rank_spec(p as int, s.len() as int);
        proof {
            lemma_rank_in_range(p as int, s.len() as int);
        }
        let kw: u128 = (p as u128 * self.total as u128 + 9999) / 10000;
        let k: u64 = if kw == 0 {
            1
        } else {
            kw as u64
        };
        proof {
            assert(k == k_spec);
        }
        let mut i: usize = 0;
        let mut cum: u64 = 0;
        proof {
            lemma_count_below_zero(s);
        }
        while i < NUM_BUCKETS
            invariant
                self.wf(),
                s == self.recorded@,
                k == rank_spec(p as int, s.len() as int),
                1 <= k <= s.len(),
                i <= NUM_BUCKETS,
                cum == count_below_bucket(s, i as int),
                cum < k,
            decreases NUM_BUCKETS - i,
        {
            let c = self.counts[i];
            proof {
                lemma_count_below_step(s, i as int);
                lemma_counts_le_len(s, i + 1);
            }
            if cum + c >= k {
                let rv = bucket_value_at(i);
                proof {
                    lemma_count_q_at_bucket(s, i as int);
                    assert(count_in_bucket(s, i as int) > 0);
                    lemma_nonempty_bucket_has_sample(s, i as int);
                    let j = choose|j: int|
                        0 <= j < s.len() && quantize(#[trigger] s[j] as int) == bucket_value(
                            i as int,
                        );
                    assert(quantize(s[j] as int) == rv as int);
                    assert(count_q_leq(s, rv as int) >= k);
                    assert(count_q_lt(s, rv as int) < k);
                }
                return rv;
            }
            cum = cum + c;
            i = i + 1;
        }
        proof {
            lemma_count_below_all(s);
            assert(false);
        }
        0
    }
}

impl LatencyHistogram {
    /// Every non-empty bucket, in ascending value order: the bucket's
    /// lowest value paired with how many samples it holds. A renderer
    /// can bin these further; the histogram itself keeps no order
    /// beyond the buckets.
    pub fn nonzero_buckets(&self) -> (r: Vec<(u64, u64)>)
        requires
            self.wf(),
        ensures
            forall|a: int, b: int|
                0 <= a < b < r@.len() ==> (#[trigger] r@[a]).0 < (#[trigger] r@[b]).0,
            forall|a: int|
                0 <= a < r@.len() ==> {
                    let i = bucket_of((#[trigger] r@[a]).0 as int);
                    0 <= i < NUM_BUCKETS && r@[a].0 == bucket_value(i) && r@[a].1
                        == count_in_bucket(self@, i) && r@[a].1 > 0
                },
            forall|i: int|
                0 <= i < NUM_BUCKETS && count_in_bucket(self@, i) > 0 ==> exists|a: int|
                    0 <= a < r@.len() && (#[trigger] r@[a]).0 == bucket_value(i),
    {
        let ghost s = self.recorded@;
        let mut r: Vec<(u64, u64)> = Vec::new();
        let ghost mut idxs: Seq<int> = Seq::empty();
        let mut i: usize = 0;
        while i < NUM_BUCKETS
            invariant
                self.wf(),
                s == self.recorded@,
                i <= NUM_BUCKETS,
                idxs.len() == r@.len(),
                forall|a: int|
                    0 <= a < idxs.len() ==> 0 <= #[trigger] idxs[a] < i,
                forall|a: int|
                    0 <= a < r@.len() ==> (#[trigger] r@[a]).0 == bucket_value(idxs[a])
                        && r@[a].1 == count_in_bucket(s, idxs[a]) && r@[a].1 > 0,
                forall|a: int, b: int| 0 <= a < b < idxs.len() ==> idxs[a] < idxs[b],
                forall|i2: int|
                    0 <= i2 < i && count_in_bucket(s, i2) > 0 ==> exists|a: int|
                        0 <= a < idxs.len() && #[trigger] idxs[a] == i2,
            decreases NUM_BUCKETS - i,
        {
            let c = self.counts[i];
            let ghost r0 = r@;
            let ghost idxs0 = idxs;
            if c > 0 {
                let v = bucket_value_at(i);
                r.push((v, c));
                proof {
                    idxs = idxs.push(i as int);
                    assert(forall|a: int| 0 <= a < r0.len() ==> r@[a] == r0[a]);
                    assert(forall|a: int| 0 <= a < idxs0.len() ==> idxs[a] == idxs0[a]);
                    assert(r@[r@.len() - 1] == (v, c));
                    assert(idxs[idxs.len() - 1] == i as int);
                    assert forall|i2: int|
                        0 <= i2 < i + 1 && count_in_bucket(s, i2) > 0 implies exists|a: int|
                        0 <= a < idxs.len() && #[trigger] idxs[a] == i2 by {
                        if i2 < i {
                            let a = choose|a: int|
                                0 <= a < idxs0.len() && #[trigger] idxs0[a] == i2;
                            assert(idxs[a] == i2);
                        } else {
                            assert(idxs[idxs.len() - 1] == i2);
                        }
                    }
                }
            } else {
                proof {
                    assert(count_in_bucket(s, i as int) == 0);
                    assert forall|i2: int|
                        0 <= i2 < i + 1 && count_in_bucket(s, i2) > 0 implies exists|a: int|
                        0 <= a < idxs.len() && #[trigger] idxs[a] == i2 by {
                        assert(i2 < i);
                    }
                }
            }
            i = i + 1;
        }
        proof {
            assert(self@ == s);
            assert forall|a: int, b: int|
                0 <= a < b < r@.len() implies (#[trigger] r@[a]).0 < (#[trigger] r@[b]).0 by {
                lemma_bucket_value_increasing(idxs[a], idxs[b]);
            }
            assert forall|a: int|
                0 <= a < r@.len() implies {
                let i2 = bucket_of((#[trigger] r@[a]).0 as int);
                0 <= i2 < NUM_BUCKETS && r@[a].0 == bucket_value(i2) && r@[a].1
                    == count_in_bucket(self@, i2) && r@[a].1 > 0
            } by {
                lemma_bucket_of_value(idxs[a]);
                assert(bucket_of(r@[a].0 as int) == idxs[a]);
            }
            assert forall|i2: int|
                0 <= i2 < NUM_BUCKETS && count_in_bucket(s, i2) > 0 implies exists|a: int|
                0 <= a < r@.len() && (#[trigger] r@[a]).0 == bucket_value(i2) by {
                let a = choose|a: int| 0 <= a < idxs.len() && #[trigger] idxs[a] == i2;
                assert(r@[a].0 == bucket_value(i2));
            }
        }
        r
    }
}

/// The lowest value of bucket `i`, as the histogram reports it.
fn bucket_value_at(i: usize) -> (r: u64)
    requires
        i < NUM_BUCKETS,
    ensures
        r == bucket_value(i as int),
{
    let w: u64 = i as u64;
    if w < 10000 {
        w
    } else if w < 19000 {
        (w - 10000 + 1000) * 10
    } else if w < 28000 {
        (w - 19000 + 1000) * 100
    } else if w < 37000 {
        (w - 28000 + 1000) * 1000
    } else {
        (w - 37000 + 1000) * 10000
    }
}

/// The bucket that holds trackable value `v`.
fn bucket_index(v: u64) -> (i: usize)
    requires
        trackable(v),
    ensures
        i == bucket_of(v as int),
        i < NUM_BUCKETS,
{
    proof {
        lemma_bucket_of_range(v as int);
    }
    if v < 10000 {
        v as usize
    } else if v < 100000 {
        10000 + (v / 10 - 1000) as usize
    } else if v < 1000000 {
        19000 + (v / 100 - 1000) as usize
    } else if v < 10000000 {
        28000 + (v / 1000 - 1000) as usize
    } else {
        37000 + (v / 10000 - 1000) as usize
    }
}

} // verus!
