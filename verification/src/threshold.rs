//! Threshold estimator: a single noise-rejection threshold from a baseline
//! window at the start of the trace.
//!
//! The window is the first 250 samples, or the full trace if shorter. The
//! threshold is the sample standard deviation of that window multiplied by
//! a negative micro-unit factor, so it is never positive: a response value
//! passes only if it is at or below it. With fewer than two baseline
//! samples the deviation is undefined and the threshold is zero.

use vstd::prelude::*;
use crate::fixed::{SCALE, div_t, div_trunc, isqrt, lemma_div_t_bound};
use crate::convolve::SAMPLE_LIMIT;
use vstd::arithmetic::div_mod::lemma_div_pos_is_pos;

verus! {

/// Number of leading samples that form the baseline window.
pub const BASELINE_WINDOW: usize = 250;

/// Most negative admissible threshold multiplier, in micro-units
/// (ten whole units).
pub const MIN_SIGMA_MULT: i64 = -10_000_000;

/// Sum of the first `n` entries of `s`.
pub open spec fn sum_prefix(s: Seq<int>, n: int) -> int
    recommends
        0 <= n <= s.len(),
    decreases n,
{
    if n <= 0 {
        0
    } else {
        sum_prefix(s, n - 1) + s[n - 1]
    }
}

/// Sum of squared deviations from `mu` over the first `n` entries of `s`.
pub open spec fn sumsq_prefix(s: Seq<int>, mu: int, n: int) -> int
    recommends
        0 <= n <= s.len(),
    decreases n,
{
    if n <= 0 {
        0
    } else {
        sumsq_prefix(s, mu, n - 1) + (s[n - 1] - mu) * (s[n - 1] - mu)
    }
}

/// The integer square root as a specification value: the unique `r >= 0`
/// with `r^2 <= x < (r+1)^2`.
pub open spec fn sqrt_floor(x: int) -> int
    recommends
        x >= 0,
{
    choose|r: int| 0 <= r && #[trigger] (r * r) <= x && (r + 1) * (r + 1) > x
}

/// Any value satisfying the square-root property equals `sqrt_floor`.
pub proof fn lemma_sqrt_floor_unique(x: int, r: int)
    requires
        0 <= r,
        r * r <= x,
        (r + 1) * (r + 1) > x,
    ensures
        sqrt_floor(x) == r,
{
    assert(exists|q: int| 0 <= q && #[trigger] (q * q) <= x && (q + 1) * (q + 1) > x) by {
        assert(0 <= r && r * r <= x && (r + 1) * (r + 1) > x);
    }
    let q = sqrt_floor(x);
    assert(0 <= q && q * q <= x && (q + 1) * (q + 1) > x);
    assert(q == r) by (nonlinear_arith)
        requires
            0 <= q && q * q <= x && (q + 1) * (q + 1) > x && 0 <= r && r * r <= x
                && (r + 1) * (r + 1) > x;
}

/// The baseline window length of a trace.
pub open spec fn baseline_len(s: Seq<int>) -> int {
    if s.len() < BASELINE_WINDOW {
        s.len() as int
    } else {
        BASELINE_WINDOW as int
    }
}

/// The noise threshold of a trace for a given (non-positive) multiplier,
/// in micro-units: `mult * stddev(baseline) / SCALE`, where the standard
/// deviation is the square root of the sample variance (denominator
/// `n - 1`) of the baseline window.
pub open spec fn threshold_spec(s: Seq<int>, mult: int) -> int {
    let n = baseline_len(s);
    if n < 2 {
        0
    } else {
        let mu = div_t(sum_prefix(s, n), n);
        let var = div_t(sumsq_prefix(s, mu, n), n - 1);
        div_t(mult * sqrt_floor(var), SCALE as int)
    }
}

/// Estimates the noise threshold from the baseline window, exactly
/// `threshold_spec`; the result is never positive.
pub fn estimate_threshold(signal: &Vec<i64>, mult: i64) -> (r: i64)
    requires
        forall|i: int| 0 <= i < signal.len() ==> -SAMPLE_LIMIT <= #[trigger] signal@[i]
            <= SAMPLE_LIMIT,
        MIN_SIGMA_MULT <= mult <= 0,
    ensures
        r as int == threshold_spec(signal@.map_values(|v: i64| v as int), mult as int),
        r <= 0,
{
    let ghost sv = signal@.map_values(|v: i64| v as int);
    let n: usize = if signal.len() < BASELINE_WINDOW {
        signal.len()
    } else {
        BASELINE_WINDOW
    };
    if n < 2 {
        return 0;
    }
    let mut sum: i128 = 0;
    let mut i: usize = 0;
    while i < n
        invariant
            sv == signal@.map_values(|v: i64| v as int),
            n <= signal.len(),
            n <= BASELINE_WINDOW,
            i <= n,
            forall|j: int| 0 <= j < signal.len() ==> -SAMPLE_LIMIT <= #[trigger] signal@[j]
                <= SAMPLE_LIMIT,
            sum as int == sum_prefix(sv, i as int),
            -(i as int) * (SAMPLE_LIMIT as int) <= sum as int <= (i as int) * (SAMPLE_LIMIT as int),
        decreases n - i,
    {
        proof {
            assert((i as int) * (SAMPLE_LIMIT as int) + SAMPLE_LIMIT as int
                == ((i + 1) as int) * (SAMPLE_LIMIT as int)) by (nonlinear_arith);
        }
        sum = sum + (signal[i] as i128);
        i = i + 1;
    }
    let mu128 = div_trunc(sum, n as i128);
    proof {
        assert((n as int) * (SAMPLE_LIMIT as int) == (SAMPLE_LIMIT as int) * (n as int))
            by (nonlinear_arith);
        lemma_div_t_bound(sum as int, n as int, SAMPLE_LIMIT as int);
    }
    let mu = mu128 as i64;
    let mut ssq: i128 = 0;
    let mut i2: usize = 0;
    while i2 < n
        invariant
            sv == signal@.map_values(|v: i64| v as int),
            n <= signal.len(),
            n <= BASELINE_WINDOW,
            i2 <= n,
            forall|j: int| 0 <= j < signal.len() ==> -SAMPLE_LIMIT <= #[trigger] signal@[j]
                <= SAMPLE_LIMIT,
            -SAMPLE_LIMIT <= mu <= SAMPLE_LIMIT,
            ssq as int == sumsq_prefix(sv, mu as int, i2 as int),
            0 <= ssq as int <= (i2 as int) * (4_000_000_000_000_000_000_000_000int),
        decreases n - i2,
    {
        let dev: i64 = signal[i2] - mu;
        proof {
            assert(0 <= (dev as int) * (dev as int) <= 4_000_000_000_000_000_000_000_000int)
                by (nonlinear_arith)
                requires -2_000_000_000_000 <= dev as int <= 2_000_000_000_000;
            assert((i2 as int) * 4_000_000_000_000_000_000_000_000int
                + 4_000_000_000_000_000_000_000_000int
                == ((i2 + 1) as int) * 4_000_000_000_000_000_000_000_000int) by (nonlinear_arith);
        }
        ssq = ssq + (dev as i128) * (dev as i128);
        i2 = i2 + 1;
    }
    proof {
        assert((n as int) * 4_000_000_000_000_000_000_000_000int
            <= 250 * 4_000_000_000_000_000_000_000_000int) by (nonlinear_arith)
            requires n as int <= 250;
        lemma_div_pos_is_pos(ssq as int, n as int - 1);
        assert((n as int - 1) * 1_000_000_000_000_000_000_000_000_000int
            >= 1_000_000_000_000_000_000_000_000_000int) by (nonlinear_arith)
            requires n as int >= 2;
        lemma_div_t_bound(ssq as int, n as int - 1, 1_000_000_000_000_000_000_000_000_000int);
    }
    let var = div_trunc(ssq, (n as i128) - 1);
    let sd = isqrt(var);
    proof {
        lemma_sqrt_floor_unique(var as int, sd as int);
        assert(sd as int <= 40_000_000_000_000int) by (nonlinear_arith)
            requires
                (sd as int) * (sd as int) <= 1_000_000_000_000_000_000_000_000_000int
                    && sd as int >= 0;
        assert(-(400_000_000_000_000_000_000int) <= (mult as int) * (sd as int) <= 0)
            by (nonlinear_arith)
            requires -10_000_000 <= mult as int <= 0 && 0 <= sd as int <= 40_000_000_000_000int;
        lemma_div_t_bound((mult as int) * (sd as int), SCALE as int, 400_000_000_000_000int);
        assert(div_t((mult as int) * (sd as int), SCALE as int) <= 0) by {
            if (mult as int) * (sd as int) < 0 {
                lemma_div_pos_is_pos(-((mult as int) * (sd as int)), SCALE as int);
            } else {
                assert((mult as int) * (sd as int) == 0);
                vstd::arithmetic::div_mod::lemma_basic_div(0, SCALE as int);
            }
        }
    }
    let t128 = div_trunc((mult as i128) * (sd as i128), SCALE as i128);
    t128 as i64
}

} // verus!
