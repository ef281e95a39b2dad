//! Rate controller: decides, for each shot, how long it must wait before it
//! may begin. One canonical mechanism is used, the per-shot computed sleep.
//! With a target rate and no ramp the delay is a flat `1/rps`; with a
//! ramp-up of duration `T` the instantaneous target rate rises linearly
//! from 1 request/second at elapsed time 0 to `rps` at `T`, then holds.
//! Without a configured rate, shots are issued unthrottled.
//!
//! Rates are carried in milli-requests-per-second and delays in whole
//! microseconds, so every quantity is an integer.

use vstd::prelude::*;
use vstd::arithmetic::div_mod::{
    lemma_div_is_ordered, lemma_div_is_ordered_by_denominator, lemma_div_denominator,
    lemma_div_multiples_vanish, lemma_basic_div,
};
use vstd::arithmetic::mul::{lemma_mul_inequality, lemma_mul_is_commutative};

verus! {

/// The instantaneous target rate in milli-requests per second at
/// `elapsed_us` microseconds into the run, for a ramp of `ramp_us`
/// microseconds toward `rps` requests per second. Meaningful for
/// `elapsed_us >= 0`, `ramp_us >= 0` and `rps >= 1`.
pub open spec fn rate_milli_spec(elapsed_us: int, ramp_us: int, rps: int) -> int {
    if ramp_us > 0 && elapsed_us < ramp_us {
        1000 + ((rps - 1) * 1000) * elapsed_us / ramp_us
    } else {
        1000 * rps
    }
}

/// The sleep, in microseconds, owed before a shot that starts `elapsed_us`
/// microseconds into the run.
pub open spec fn delay_micros_spec(elapsed_us: int, ramp_us: int, rps: int) -> int {
    1_000_000_000int / rate_milli_spec(elapsed_us, ramp_us, rps)
}

/// The sleep owed for an optional configured rate: none, or a rate of
/// zero, means unthrottled.
pub open spec fn shot_delay_spec(rps: Option<u32>, elapsed_us: int, ramp_us: int) -> int {
    match rps {
        Some(r) => if r >= 1 {
            delay_micros_spec(elapsed_us, ramp_us, r as int)
        } else {
            0
        },
        None => 0,
    }
}

/// The instantaneous rate never falls below 1 request/second and never
/// exceeds the configured target.
pub proof fn lemma_rate_bounds(elapsed_us: int, ramp_us: int, rps: int)
    requires
        0 <= elapsed_us,
        0 <= ramp_us,
        1 <= rps,
    ensures
        1000 <= rate_milli_spec(elapsed_us, ramp_us, rps) <= 1000 * rps,
{
    if ramp_us > 0 && elapsed_us < ramp_us {
        let scaled = (rps - 1) * 1000;
        assert(scaled >= 0) by {
            lemma_mul_inequality(0, rps - 1, 1000);
        }
        assert(scaled * elapsed_us >= 0) by {
            lemma_mul_inequality(0, elapsed_us, scaled);
            lemma_mul_is_commutative(elapsed_us, scaled);
        }
        assert(scaled * elapsed_us / ramp_us >= 0) by {
            lemma_div_is_ordered(0, scaled * elapsed_us, ramp_us);
            lemma_basic_div(0, ramp_us);
        }
        assert(scaled * elapsed_us <= scaled * ramp_us) by {
            lemma_mul_inequality(elapsed_us, ramp_us, scaled);
            lemma_mul_is_commutative(elapsed_us, scaled);
            lemma_mul_is_commutative(ramp_us, scaled);
        }
        assert(scaled * elapsed_us / ramp_us <= scaled) by {
            lemma_div_is_ordered(scaled * elapsed_us, scaled * ramp_us, ramp_us);
            lemma_div_multiples_vanish(scaled, ramp_us);
            lemma_mul_is_commutative(ramp_us, scaled);
        }
    }
}

/// Computes the ramp-aware sleep before a shot: `elapsed_us` microseconds
/// have passed since the run began, the ramp lasts `ramp_up_us`
/// microseconds, and the target rate is `rps` requests per second.
pub fn delay_micros(elapsed_us: u64, ramp_up_us: u64, rps: u32) -> (r: u64)
    requires
        1 <= rps,
    ensures
        r == delay_micros_spec(elapsed_us as int, ramp_up_us as int, rps as int),
        r <= 1_000_000,
{
    proof {
        lemma_rate_bounds(elapsed_us as int, ramp_up_us as int, rps as int);
    }
    if ramp_up_us > 0 && elapsed_us < ramp_up_us {
        let scaled: u128 = (rps - 1) as u128 * 1000;
        proof {
            vstd::arithmetic::mul::lemma_mul_upper_bound(
                scaled as int,
                u32::MAX * 1000,
                elapsed_us as int,
                u64::MAX as int,
            );
        }
        let extra: u128 = scaled * elapsed_us as u128 / ramp_up_us as u128;
        let rate: u128 = 1000 + extra;
        let delay: u128 = 1_000_000_000 / rate;
        proof {
            lemma_div_is_ordered_by_denominator(1_000_000_000, 1000, rate as int);
        }
        delay as u64
    } else {
        let rate: u64 = 1000 * rps as u64;
        proof {
            lemma_div_is_ordered_by_denominator(1_000_000_000, 1000, rate as int);
        }
        1_000_000_000 / rate
    }
}

/// The sleep owed for an optional configured rate; none, or zero, means
/// the shot may start at once.
pub fn shot_delay_micros(rps: Option<u32>, elapsed_us: u64, ramp_up_us: u64) -> (r: u64)
    ensures
        r == shot_delay_spec(rps, elapsed_us as int, ramp_up_us as int),
        r <= 1_000_000,
{
    match rps {
        Some(r) => if r >= 1 {
            delay_micros(elapsed_us, ramp_up_us, r)
        } else {
            0
        },
        None => 0,
    }
}

/// The instantaneous rate only rises with elapsed time, so the per-shot
/// sleep only shrinks: the measured inter-issuance interval tightens
/// monotonically over the ramp.
pub proof fn lemma_delay_monotonic(e1: int, e2: int, ramp_us: int, rps: int)
    requires
        0 <= e1 <= e2,
        0 <= ramp_us,
        1 <= rps,
    ensures
        delay_micros_spec(e1, ramp_us, rps) >= delay_micros_spec(e2, ramp_us, rps),
{
    lemma_rate_bounds(e1, ramp_us, rps);
    lemma_rate_bounds(e2, ramp_us, rps);
    if ramp_us > 0 && e2 < ramp_us {
        let scaled = (rps - 1) * 1000;
        assert(scaled * e1 <= scaled * e2) by {
            lemma_mul_inequality(e1, e2, scaled);
            lemma_mul_is_commutative(e1, scaled);
            lemma_mul_is_commutative(e2, scaled);
        }
        lemma_div_is_ordered(scaled * e1, scaled * e2, ramp_us);
    }
    lemma_div_is_ordered_by_denominator(
        1_000_000_000,
        rate_milli_spec(e1, ramp_us, rps),
        rate_milli_spec(e2, ramp_us, rps),
    );
}

/// At the very start of a ramp the sleep is one full second.
pub proof fn lemma_delay_at_ramp_start(ramp_us: int, rps: int)
    requires
        0 < ramp_us,
        1 <= rps,
    ensures
        delay_micros_spec(0, ramp_us, rps) == 1_000_000,
{
    let scaled = (rps - 1) * 1000;
    assert(scaled * 0 == 0);
    assert(scaled * 0 / ramp_us == 0) by {
        lemma_basic_div(0, ramp_us);
    }
    assert(rate_milli_spec(0, ramp_us, rps) == 1000);
}

/// From the end of the ramp on, and whenever no ramp is configured, the
/// sleep is exactly `1/rps` seconds, rounded down to a microsecond.
pub proof fn lemma_delay_after_ramp(elapsed_us: int, ramp_us: int, rps: int)
    requires
        0 <= ramp_us <= elapsed_us,
        1 <= rps,
    ensures
        delay_micros_spec(elapsed_us, ramp_us, rps) == 1_000_000int / rps,
{
    assert(rate_milli_spec(elapsed_us, ramp_us, rps) == 1000 * rps);
    lemma_div_denominator(1_000_000_000, 1000, rps);
    assert(1_000_000_000int / 1000 == 1_000_000);
}

} // verus!
