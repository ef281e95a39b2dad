//! The aggregator: the sole consumer of the outcome stream. It folds
//! each `ShotResult` into success/failure counters, a status-code tally
//! and the latency histogram, one outcome at a time, and is correct
//! under any arrival order. A successful shot whose latency falls
//! outside the histogram's range is counted as a success but its sample
//! is dropped, non-fatally, into a separate counter.

use vstd::prelude::*;
use crate::histogram::{all_trackable, trackable, LatencyHistogram};
use crate::shot::ShotResult;

verus! {

/// How many outcomes of `s` are successes.
pub open spec fn count_success(s: Seq<ShotResult>) -> nat
    decreases s.len(),
{
    if s.len() == 0 {
        0
    } else {
        count_success(s.drop_last()) + if s.last().success {
            1nat
        } else {
            0nat
        }
    }
}

/// How many outcomes of `s` are failures.
pub open spec fn count_failure(s: Seq<ShotResult>) -> nat
    decreases s.len(),
{
    if s.len() == 0 {
        0
    } else {
        count_failure(s.drop_last()) + if s.last().success {
            0nat
        } else {
            1nat
        }
    }
}

/// The latencies the histogram records: those of successful outcomes
/// whose duration is trackable, in arrival order.
pub open spec fn recorded_latencies(s: Seq<ShotResult>) -> Seq<u64>
    decreases s.len(),
{
    if s.len() == 0 {
        Seq::empty()
    } else {
        recorded_latencies(s.drop_last()) + if s.last().success && trackable(
            s.last().duration_us,
        ) {
            seq![s.last().duration_us]
        } else {
            Seq::empty()
        }
    }
}

/// How many successful outcomes had a latency outside the histogram's
/// range and were dropped from it.
pub open spec fn count_dropped(s: Seq<ShotResult>) -> nat
    decreases s.len(),
{
    if s.len() == 0 {
        0
    } else {
        count_dropped(s.drop_last()) + if s.last().success && !trackable(
            s.last().duration_us,
        ) {
            1nat
        } else {
            0nat
        }
    }
}

/// How many outcomes of `s` carried status code `code`.
pub open spec fn count_status(s: Seq<ShotResult>, code: u16) -> nat
    decreases s.len(),
{
    if s.len() == 0 {
        0
    } else {
        count_status(s.drop_last(), code) + if s.last().status_code == Some(code) {
            1nat
        } else {
            0nat
        }
    }
}

/// Every admitted outcome is counted exactly once: successes plus
/// failures equals the number of outcomes absorbed, whatever they were.
pub proof fn lemma_success_failure_partition(s: Seq<ShotResult>)
    ensures
        count_success(s) + count_failure(s) == s.len(),
    decreases s.len(),
{
    if s.len() > 0 {
        lemma_success_failure_partition(s.drop_last());
    }
}

/// Each success either lands its latency in the histogram or is counted
/// as dropped, never both, never neither.
pub proof fn lemma_recorded_plus_dropped(s: Seq<ShotResult>)
    ensures
        recorded_latencies(s).len() + count_dropped(s) == count_success(s),
    decreases s.len(),
{
    if s.len() > 0 {
        lemma_recorded_plus_dropped(s.drop_last());
    }
}

/// After full stream consumption the histogram holds one sample per
/// success, provided every successful latency was in range.
pub proof fn lemma_histogram_counts_successes(s: Seq<ShotResult>)
    requires
        forall|j: int|
            0 <= j < s.len() && (#[trigger] s[j]).success ==> trackable(s[j].duration_us),
    ensures
        recorded_latencies(s).len() == count_success(s),
    decreases s.len(),
{
    if s.len() > 0 {
        assert(s.last() == s[s.len() - 1]);
        assert(forall|j: int|
            0 <= j < s.drop_last().len() ==> s.drop_last()[j] == s[j]);
        lemma_histogram_counts_successes(s.drop_last());
    }
}

/// None of the per-outcome counts can exceed the stream's length.
pub proof fn lemma_counts_bounded(s: Seq<ShotResult>, code: u16)
    ensures
        count_success(s) <= s.len(),
        count_failure(s) <= s.len(),
        count_dropped(s) <= s.len(),
        count_status(s, code) <= s.len(),
        recorded_latencies(s).len() <= s.len(),
    decreases s.len(),
{
    if s.len() > 0 {
        lemma_counts_bounded(s.drop_last(), code);
    }
}

/// What absorbing one more outcome does to each count.
pub proof fn lemma_counts_push(s: Seq<ShotResult>, r: ShotResult)
    ensures
        count_success(s.push(r)) == count_success(s) + if r.success {
            1nat
        } else {
            0nat
        },
        count_failure(s.push(r)) == count_failure(s) + if r.success {
            0nat
        } else {
            1nat
        },
        count_dropped(s.push(r)) == count_dropped(s) + if r.success && !trackable(
            r.duration_us,
        ) {
            1nat
        } else {
            0nat
        },
        recorded_latencies(s.push(r)) == if r.success && trackable(r.duration_us) {
            recorded_latencies(s).push(r.duration_us)
        } else {
            recorded_latencies(s)
        },
        forall|code: u16|
            count_status(s.push(r), code) == count_status(s, code) + if r.status_code == Some(
                code,
            ) {
                1nat
            } else {
                0nat
            },
{
    assert(s.push(r).drop_last() =~= s);
    assert(s.push(r).last() == r);
    if r.success && trackable(r.duration_us) {
        assert(recorded_latencies(s) + seq![r.duration_us] =~= recorded_latencies(s).push(
            r.duration_us,
        ));
    } else {
        assert(recorded_latencies(s) + Seq::<u64>::empty() =~= recorded_latencies(s));
    }
}

/// Some tally entry names `code`.
pub open spec fn tally_has_code(t: Seq<(u16, u64)>, code: u16) -> bool {
    exists|a: int| 0 <= a < t.len() && (#[trigger] t[a]).0 == code
}

/// The tally is faithful to the stream: entries name distinct codes,
/// each entry counts its code's occurrences (at least one), and a code
/// without an entry never occurred.
pub open spec fn tally_wf(t: Seq<(u16, u64)>, s: Seq<ShotResult>) -> bool {
    &&& forall|a: int, b: int| 0 <= a < b < t.len() ==> (#[trigger] t[a]).0 != (#[trigger] t[b]).0
    &&& forall|a: int|
        0 <= a < t.len() ==> (#[trigger] t[a]).1 == count_status(s, t[a].0) && t[a].1 >= 1
    &&& forall|code: u16| !tally_has_code(t, code) ==> count_status(s, code) == 0
}

/// The streaming aggregator's state: counters, tally and histogram,
/// with the absorbed outcome stream carried alongside as its abstract
/// model.
pub struct Aggregator {
    successes: u64,
    failures: u64,
    dropped: u64,
    hist: LatencyHistogram,
    tally: Vec<(u16, u64)>,
    absorbed: Ghost<Seq<ShotResult>>,
}

impl View for Aggregator {
    type V = Seq<ShotResult>;

    closed spec fn view(&self) -> Seq<ShotResult> {
        self.absorbed@
    }
}

impl Aggregator {
    /// Counters, tally and histogram agree with the absorbed stream.
    pub closed spec fn wf(&self) -> bool {
        &&& self.successes == count_success(self.absorbed@)
        &&& self.failures == count_failure(self.absorbed@)
        &&& self.dropped == count_dropped(self.absorbed@)
        &&& self.hist.wf()
        &&& self.hist@ == recorded_latencies(self.absorbed@)
        &&& tally_wf(self.tally@, self.absorbed@)
    }

    /// A fresh aggregator that has seen nothing.
    pub fn new() -> (a: Self)
        ensures
            a.wf(),
            a@ == Seq::<ShotResult>::empty(),
    {
        Aggregator {
            successes: 0,
            failures: 0,
            dropped: 0,
            hist: LatencyHistogram::new(),
            tally: Vec::new(),
            absorbed: Ghost(Seq::empty()),
        }
    }

    /// How many outcomes were absorbed so far.
    pub fn absorbed_count(&self) -> (n: u64)
        requires
            self.wf(),
            self@.len() <= u64::MAX,
        ensures
            n == self@.len(),
    {
        proof {
            lemma_success_failure_partition(self.absorbed@);
        }
        self.successes + self.failures
    }

    /// How many successes were absorbed so far.
    pub fn successes(&self) -> (n: u64)
        requires
            self.wf(),
        ensures
            n == count_success(self@),
    {
        self.successes
    }

    /// How many failures were absorbed so far.
    pub fn failures(&self) -> (n: u64)
        requires
            self.wf(),
        ensures
            n == count_failure(self@),
    {
        self.failures
    }

    /// How many successful samples fell outside the histogram's range
    /// and were dropped from it.
    pub fn dropped_samples(&self) -> (n: u64)
        requires
            self.wf(),
        ensures
            n == count_dropped(self@),
    {
        self.dropped
    }

    /// The raw status-code tally, unordered, faithful to the stream.
    pub fn tally_entries(&self) -> (t: &Vec<(u16, u64)>)
        requires
            self.wf(),
        ensures
            tally_wf(t@, self@),
    {
        &self.tally
    }

    /// The latency histogram of every trackable successful sample.
    pub fn histogram(&self) -> (h: &LatencyHistogram)
        requires
            self.wf(),
        ensures
            h.wf(),
            h@ == recorded_latencies(self@),
    {
        &self.hist
    }

    /// Folds one outcome into the aggregate.
    pub fn absorb(&mut self, r: ShotResult)
        requires
            old(self).wf(),
            old(self)@.len() < u64::MAX,
        ensures
            final(self).wf(),
            final(self)@ == old(self)@.push(r),
    {
        let ghost s0 = self.absorbed@;
        proof {
            lemma_counts_push(s0, r);
            lemma_counts_bounded(s0, 0);
        }
        match r.status_code {
            Some(code) => {
                proof {
                    lemma_counts_bounded(s0, code);
                }
                tally_bump(&mut self.tally, code, Ghost(s0), Ghost(r));
            },
            None => {
                proof {
                    assert forall|code: u16| !tally_has_code(self.tally@, code) implies
                        count_status(s0.push(r), code) == 0 by {
                        assert(count_status(s0, code) == 0);
                    }
                }
            },
        }
        if r.success {
            self.successes = self.successes + 1;
            let ok = self.hist.record(r.duration_us);
            if !ok {
                self.dropped = self.dropped + 1;
            }
        } else {
            self.failures = self.failures + 1;
        }
        proof {
            self.absorbed@ = s0.push(r);
        }
    }
}

/// Adds one occurrence of `code` to the tally, creating its entry at
/// first sight.
fn tally_bump(
    t: &mut Vec<(u16, u64)>,
    code: u16,
    Ghost(s): Ghost<Seq<ShotResult>>,
    Ghost(r): Ghost<ShotResult>,
)
    requires
        tally_wf(old(t)@, s),
        r.status_code == Some(code),
        count_status(s, code) < u64::MAX,
    ensures
        tally_wf(final(t)@, s.push(r)),
{
    proof {
        lemma_counts_push(s, r);
    }
    let mut a: usize = 0;
    while a < t.len()
        invariant
            a <= t@.len(),
            tally_wf(t@, s),
            r.status_code == Some(code),
            count_status(s, code) < u64::MAX,
            forall|b: int| 0 <= b < a ==> (#[trigger] t@[b]).0 != code,
        decreases t@.len() - a,
    {
        let entry_code = t[a].0;
        if entry_code == code {
            let ghost t0 = t@;
            let c = t[a].1;
            t[a] = (code, c + 1);
            proof {
                lemma_counts_push(s, r);
                assert(t@ =~= t0.update(a as int, (code, (c + 1) as u64)));
                assert forall|b: int|
                    0 <= b < t@.len() implies (#[trigger] t@[b]).1 == count_status(
                    s.push(r),
                    t@[b].0,
                ) && t@[b].1 >= 1 by {
                    if b != a {
                        assert(t@[b] == t0[b]);
                        assert(t0[b].0 != t0[a as int].0);
                    }
                }
                assert forall|c2: u16| !tally_has_code(t@, c2) implies count_status(
                    s.push(r),
                    c2,
                ) == 0 by {
                    assert(!tally_has_code(t0, c2)) by {
                        if tally_has_code(t0, c2) {
                            let w = choose|w: int|
                                0 <= w < t0.len() && (#[trigger] t0[w]).0 == c2;
                            assert(t@[w].0 == c2);
                        }
                    }
                    assert(c2 != code) by {
                        assert(t0[a as int].0 == code);
                    }
                }
            }
            return;
        }
        a = a + 1;
    }
    let ghost t0 = t@;
    proof {
        assert(!tally_has_code(t0, code));
        assert(count_status(s, code) == 0);
    }
    t.push((code, 1));
    proof {
        lemma_counts_push(s, r);
        let n = t@.len() - 1;
        assert(t@ =~= t0.push((code, 1u64)));
        assert(t@[n] == (code, 1u64));
        assert(forall|b: int| 0 <= b < n ==> t@[b] == t0[b]);
        assert forall|b: int|
            0 <= b < t@.len() implies (#[trigger] t@[b]).1 == count_status(s.push(r), t@[b].0)
            && t@[b].1 >= 1 by {
            if b < n {
                assert(t@[b].0 != code);
            }
        }
        assert forall|c2: u16| !tally_has_code(t@, c2) implies count_status(s.push(r), c2)
            == 0 by {
            assert(c2 != code) by {
                assert(t@[n].0 == code);
            }
            assert(!tally_has_code(t0, c2)) by {
                if tally_has_code(t0, c2) {
                    let w = choose|w: int|
                        0 <= w < t0.len() && (#[trigger] t0[w]).0 == c2;
                    assert(t@[w].0 == c2);
                }
            }
        }
    }
}

} // verus!
