//! Kernel factory: second-derivative-of-Gaussian ("Mexican hat") filter
//! kernels in fixed-point arithmetic.
//!
//! For a scale `s` (micro-units, `s > 0`) the kernel has odd length
//! `6 * floor(s) + 1`. Each raw weight is the second derivative of a
//! Gaussian of standard deviation `s`, evaluated at the integer offset `x`
//! from the center index:
//! `g''(x) = (x^2/s^4 - 1/s^2) * (1/sqrt(2*pi)) * exp(-x^2/(2*s^2))`,
//! computed exactly in micro-units with truncating division, with
//! `exp(-y)` realized as the reciprocal of a 30-term Taylor sum. After
//! filling the weights, the (truncated) mean is subtracted from every
//! weight, so the filter has no DC gain.

use vstd::prelude::*;
use crate::fixed::{SCALE, div_t, div_trunc, sum_int, lemma_div_t_bound};
use vstd::arithmetic::div_mod::{
    lemma_div_is_ordered, lemma_div_is_ordered_by_denominator,
    lemma_div_multiples_vanish_quotient, lemma_div_pos_is_pos, lemma_fundamental_div_mod,
    lemma_mod_bound,
};

verus! {

/// Largest admissible scale, in micro-units (2000 whole units): keeps every
/// intermediate product of the weight formula inside `i128`.
pub const MAX_SCALE: i64 = 2_000_000_000;

/// Bound on the magnitude of every centered kernel weight, in micro-units.
pub const WEIGHT_BOUND: i64 = 8_000_000;

/// `1 / sqrt(2 * pi)` in micro-units, truncated.
pub const INV_SQRT_TWO_PI: i64 = 398_942;

/// `SCALE^3`, the scaling factor of `1/s^2` terms.
pub const SCALE_CUBED: i128 = 1_000_000_000_000_000_000;

/// `SCALE^5`, the scaling factor of the `x^2/s^4` term.
pub const SCALE_FIFTH: i128 = 1_000_000_000_000_000_000_000_000_000_000;

/// Number of Taylor terms (beyond the constant one) used for `exp`.
pub const EXP_TERMS: u64 = 30;

/// Failures of the detection pipeline's configuration.
#[derive(Debug, Clone, Copy, PartialEq, Eq, Structural)]
pub enum DetectError {
    /// A scale was not strictly positive.
    InvalidScale,
}

/// Number of whole units in the scale `s` (micro-units): `floor(s)`.
pub open spec fn scale_units(s: int) -> int
    recommends
        s >= 0,
{
    s / (SCALE as int)
}

/// Kernel length for scale `s`: `6 * floor(s) + 1`, always odd.
pub open spec fn kernel_len_spec(s: int) -> int
    recommends
        s >= 0,
{
    6 * scale_units(s) + 1
}

/// `k`-th Taylor term of `exp(y / SCALE)` in micro-units, truncating at
/// every step: term 0 is `SCALE`, term `k` is `term(k-1) * y / (SCALE * k)`.
pub open spec fn exp_term(y: int, k: nat) -> int
    decreases k,
{
    if k == 0 {
        SCALE as int
    } else {
        div_t(exp_term(y, (k - 1) as nat) * y, (SCALE as int) * k)
    }
}

/// Partial Taylor sum of `exp(y / SCALE)` in micro-units, up to term `k`.
pub open spec fn exp_sum(y: int, k: nat) -> int
    decreases k,
{
    if k == 0 {
        SCALE as int
    } else {
        exp_sum(y, (k - 1) as nat) + exp_term(y, k)
    }
}

/// `exp(y / SCALE)` in micro-units for `y >= 0`: the 30-term Taylor sum.
pub open spec fn exp_pos_q(y: int) -> int {
    exp_sum(y, EXP_TERMS as nat)
}

/// `exp(-y / SCALE)` in micro-units for `y >= 0`: the reciprocal of the
/// Taylor sum, `SCALE^2 / exp_pos_q(y)` truncated.
pub open spec fn exp_neg_q(y: int) -> int {
    div_t((SCALE as int) * (SCALE as int), exp_pos_q(y))
}

/// Raw (uncentered) kernel weight at offset `x` from the center, for scale
/// `s`, in micro-units.
pub open spec fn gauss_weight_spec(s: int, x: int) -> int
    recommends
        s >= 1,
{
    let sc = SCALE as int;
    let d1 = div_t(x * x * (SCALE_FIFTH as int), (s * s) * (s * s));
    let d2 = div_t(SCALE_CUBED as int, s * s);
    let y = div_t(x * x * (SCALE_CUBED as int), 2 * (s * s));
    let d = d1 - d2;
    let dc = div_t(d * (INV_SQRT_TWO_PI as int), sc);
    div_t(dc * exp_neg_q(y), sc)
}

/// The raw weight sequence of the kernel for scale `s`.
pub open spec fn raw_kernel_spec(s: int) -> Seq<int>
    recommends
        s >= 1,
{
    Seq::new(kernel_len_spec(s) as nat, |i: int| gauss_weight_spec(s, i - 3 * scale_units(s)))
}

/// The centered kernel for scale `s`: every raw weight minus the truncated
/// mean of the raw weights.
pub open spec fn kernel_spec(s: int) -> Seq<int>
    recommends
        s >= 1,
{
    let raw = raw_kernel_spec(s);
    let mu = div_t(sum_int(raw), raw.len() as int);
    raw.map(|i: int, v: int| v - mu)
}

/// All Taylor terms are non-negative for non-negative arguments.
pub proof fn lemma_exp_term_nonneg(y: int, k: nat)
    requires
        y >= 0,
    ensures
        exp_term(y, k) >= 0,
    decreases k,
{
    if k > 0 {
        lemma_exp_term_nonneg(y, (k - 1) as nat);
        let t = exp_term(y, (k - 1) as nat);
        assert(t * y >= 0) by (nonlinear_arith)
            requires t >= 0 && y >= 0;
        lemma_div_pos_is_pos(t * y, (SCALE as int) * k);
    }
}

/// The Taylor sum is at least its constant term `SCALE`.
pub proof fn lemma_exp_sum_lower(y: int, k: nat)
    requires
        y >= 0,
    ensures
        exp_sum(y, k) >= SCALE as int,
    decreases k,
{
    if k > 0 {
        lemma_exp_sum_lower(y, (k - 1) as nat);
        lemma_exp_term_nonneg(y, k);
    }
}

/// The reciprocal exponential lies in `[0, SCALE]`.
pub proof fn lemma_exp_neg_range(y: int)
    requires
        y >= 0,
    ensures
        0 <= exp_neg_q(y) <= SCALE as int,
{
    let sc = SCALE as int;
    lemma_exp_sum_lower(y, EXP_TERMS as nat);
    let e = exp_pos_q(y);
    assert(sc * sc >= 0) by (nonlinear_arith);
    lemma_div_pos_is_pos(sc * sc, e);
    lemma_div_is_ordered_by_denominator(sc * sc, sc, e);
    lemma_div_multiples_vanish_quotient(sc, sc, 1);
    assert(sc * 1 == sc);
}

/// Bound on each Taylor term, indexed by the term number: the terms grow by
/// a factor of at most `y / (SCALE * k) <= 4.5 / k` per step.
pub open spec fn exp_term_cap(k: nat) -> int {
    if k == 0 {
        1_000_000
    } else if k == 1 {
        4_500_000
    } else if k == 2 {
        10_125_000
    } else if k == 3 {
        15_187_500
    } else {
        17_100_000
    }
}

/// For arguments up to `4.5 * SCALE` (the largest value `x^2/(2 s^2)` can
/// take on a kernel's support), every Taylor term respects its cap.
pub proof fn lemma_exp_term_cap(y: int, k: nat)
    requires
        0 <= y <= 4_500_000,
    ensures
        0 <= exp_term(y, k) <= exp_term_cap(k),
    decreases k,
{
    lemma_exp_term_nonneg(y, k);
    if k > 0 {
        let km = (k - 1) as nat;
        lemma_exp_term_cap(y, km);
        let t = exp_term(y, km);
        let cap = exp_term_cap(km);
        assert(t * y <= cap * 4_500_000) by (nonlinear_arith)
            requires 0 <= t <= cap && 0 <= y <= 4_500_000;
        assert(cap * 4_500_000 <= exp_term_cap(k) * ((SCALE as int) * k)) by (nonlinear_arith)
            requires
                k >= 1 && cap == exp_term_cap((k - 1) as nat) && exp_term_cap(k) == (
                if k == 1 {
                    4_500_000int
                } else if k == 2 {
                    10_125_000int
                } else if k == 3 {
                    15_187_500int
                } else {
                    17_100_000int
                }),
        ;
        assert(t * y >= 0) by (nonlinear_arith)
            requires t >= 0 && y >= 0;
        lemma_div_t_bound(t * y, (SCALE as int) * k, exp_term_cap(k));
    }
}

/// The partial sums stay within an affine envelope of the term count.
pub proof fn lemma_exp_sum_upper(y: int, k: nat)
    requires
        0 <= y <= 4_500_000,
    ensures
        (SCALE as int) <= exp_sum(y, k) <= (SCALE as int) + k * 17_100_000,
    decreases k,
{
    lemma_exp_sum_lower(y, k);
    if k > 0 {
        let km = (k - 1) as nat;
        lemma_exp_sum_upper(y, km);
        lemma_exp_term_cap(y, k);
        assert(exp_term_cap(k) <= 17_100_000);
        assert(km * 17_100_000 + 17_100_000 == k * 17_100_000) by (nonlinear_arith)
            requires km == k - 1;
    }
}

/// Executable Taylor evaluation: `exp_pos_q` exactly.
fn exp_pos(y: i64) -> (r: i64)
    requires
        0 <= y <= 4_500_000,
    ensures
        r == exp_pos_q(y as int),
        SCALE as int <= r as int <= 600_000_000,
{
    let mut term: i64 = SCALE;
    let mut sum: i64 = SCALE;
    let mut k: u64 = 0;
    while k < EXP_TERMS
        invariant
            0 <= y <= 4_500_000,
            0 <= k <= EXP_TERMS,
            term as int == exp_term(y as int, k as nat),
            sum as int == exp_sum(y as int, k as nat),
            0 <= term as int <= exp_term_cap(k as nat),
            SCALE as int <= sum as int <= (SCALE as int) + (k as int) * 17_100_000,
        decreases EXP_TERMS - k,
    {
        proof {
            lemma_exp_term_cap(y as int, (k + 1) as nat);
            lemma_exp_sum_upper(y as int, (k + 1) as nat);
            assert(0 <= (term as int) * (y as int) <= 17_100_000 * 4_500_000)
                by (nonlinear_arith)
                requires 0 <= term as int <= 17_100_000 && 0 <= y as int <= 4_500_000;
            assert(exp_term_cap(k as nat) <= 17_100_000);
        }
        let next = div_trunc((term as i128) * (y as i128), (SCALE as i128) * ((k as i128) + 1));
        term = next as i64;
        k = k + 1;
        sum = sum + term;
    }
    sum
}

/// Executable reciprocal exponential: `exp_neg_q` exactly.
fn exp_neg(y: i64) -> (r: i64)
    requires
        0 <= y <= 4_500_000,
    ensures
        r as int == exp_neg_q(y as int),
        0 <= r as int <= SCALE as int,
{
    let e = exp_pos(y);
    proof {
        lemma_exp_neg_range(y as int);
    }
    let r = div_trunc((SCALE as i128) * (SCALE as i128), e as i128);
    r as i64
}

/// The scale, divided into whole units, bounds the kernel's support:
/// `|x| <= 3 * floor(s)` gives `x^2 * SCALE^2 <= 9 * s^2` and `|x| <= 6000`.
proof fn lemma_support_bound(s: int, x: int)
    requires
        1 <= s <= MAX_SCALE as int,
        -3 * scale_units(s) <= x <= 3 * scale_units(s),
    ensures
        x * x * ((SCALE as int) * (SCALE as int)) <= 9 * (s * s),
        x * x >= 0,
        -6000 <= x <= 6000,
{
    let sc = SCALE as int;
    let f = scale_units(s);
    lemma_fundamental_div_mod(s, sc);
    lemma_mod_bound(s, sc);
    assert(f * sc <= s) by (nonlinear_arith)
        requires s == sc * f + s % sc && s % sc >= 0;
    lemma_div_pos_is_pos(s, sc);
    assert(x * x * (sc * sc) <= 9 * (s * s)) by (nonlinear_arith)
        requires -3 * f <= x <= 3 * f && 0 <= f && sc >= 1 && f * sc <= s && 1 <= s;
    assert(x * x >= 0) by (nonlinear_arith);
    assert(-6000 <= x <= 6000) by (nonlinear_arith)
        requires -3 * f <= x <= 3 * f && f * sc <= s && s <= 2_000_000_000 && sc == 1_000_000
            && f >= 0;
}

/// Bounds for every intermediate quantity of the weight formula, for
/// scales of at least one whole unit.
proof fn lemma_weight_parts(s: int, x: int)
    requires
        SCALE as int <= s <= MAX_SCALE as int,
        -3 * scale_units(s) <= x <= 3 * scale_units(s),
    ensures
        0 <= div_t(x * x * (SCALE_FIFTH as int), (s * s) * (s * s)) <= 9_000_000,
        0 <= div_t(SCALE_CUBED as int, s * s) <= 1_000_000,
        0 <= div_t(x * x * (SCALE_CUBED as int), 2 * (s * s)) <= 4_500_000,
        -3_600_000 <= gauss_weight_spec(s, x) <= 3_600_000,
{
    let sc = SCALE as int;
    lemma_support_bound(s, x);
    // d1: x^2 * sc^5 <= 9 s^2 sc^3 <= (9 sc) * (s^2 * s^2)
    assert(x * x * (SCALE_FIFTH as int) >= 0) by (nonlinear_arith)
        requires x * x >= 0;
    assert((s * s) * (s * s) > 0) by (nonlinear_arith)
        requires s >= 1;
    assert(x * x * (SCALE_FIFTH as int) <= 9_000_000 * ((s * s) * (s * s))) by (nonlinear_arith)
        requires
            x * x * (sc * sc) <= 9 * (s * s) && s >= sc && sc == 1_000_000 && x * x >= 0
                && SCALE_FIFTH == 1_000_000_000_000_000_000_000_000_000_000;
    lemma_div_t_bound(x * x * (SCALE_FIFTH as int), (s * s) * (s * s), 9_000_000);
    lemma_div_pos_is_pos(x * x * (SCALE_FIFTH as int), (s * s) * (s * s));
    // d2: sc^3 <= sc * s^2
    assert(s * s > 0) by (nonlinear_arith)
        requires s >= 1;
    assert(SCALE_CUBED as int <= 1_000_000 * (s * s)) by (nonlinear_arith)
        requires s >= sc && sc == 1_000_000 && SCALE_CUBED == 1_000_000_000_000_000_000;
    lemma_div_t_bound(SCALE_CUBED as int, s * s, 1_000_000);
    lemma_div_pos_is_pos(SCALE_CUBED as int, s * s);
    // y: x^2 sc^3 <= 4.5 sc * (2 s^2)
    assert(x * x * (SCALE_CUBED as int) >= 0) by (nonlinear_arith)
        requires x * x >= 0;
    assert(2 * (s * s) > 0) by (nonlinear_arith)
        requires s >= 1;
    assert(x * x * (SCALE_CUBED as int) <= 4_500_000 * (2 * (s * s))) by (nonlinear_arith)
        requires
            x * x * (sc * sc) <= 9 * (s * s) && sc == 1_000_000
                && SCALE_CUBED == 1_000_000_000_000_000_000;
    lemma_div_t_bound(x * x * (SCALE_CUBED as int), 2 * (s * s), 4_500_000);
    lemma_div_pos_is_pos(x * x * (SCALE_CUBED as int), 2 * (s * s));
    // dc and the final weight
    let d1 = div_t(x * x * (SCALE_FIFTH as int), (s * s) * (s * s));
    let d2 = div_t(SCALE_CUBED as int, s * s);
    let y = div_t(x * x * (SCALE_CUBED as int), 2 * (s * s));
    let d = d1 - d2;
    assert(-(3_590_478 * sc) <= d * (INV_SQRT_TWO_PI as int) <= 3_590_478 * sc)
        by (nonlinear_arith)
        requires -1_000_000 <= d <= 9_000_000 && sc == 1_000_000 && INV_SQRT_TWO_PI == 398_942;
    assert(3_590_478 * sc == sc * 3_590_478) by (nonlinear_arith);
    lemma_div_t_bound(d * (INV_SQRT_TWO_PI as int), sc, 3_590_478);
    let dc = div_t(d * (INV_SQRT_TWO_PI as int), sc);
    lemma_exp_neg_range(y);
    assert(-(3_600_000 * sc) <= dc * exp_neg_q(y) <= 3_600_000 * sc) by (nonlinear_arith)
        requires -3_590_478 <= dc <= 3_590_478 && 0 <= exp_neg_q(y) <= sc && sc == 1_000_000;
    lemma_div_t_bound(dc * exp_neg_q(y), sc, 3_600_000);
}

/// For scales of at least one whole unit, every raw weight's magnitude
/// stays below `3_600_000` micro-units.
pub proof fn lemma_gauss_weight_bound(s: int, x: int)
    requires
        SCALE as int <= s <= MAX_SCALE as int,
        -3 * scale_units(s) <= x <= 3 * scale_units(s),
    ensures
        -3_600_000 <= gauss_weight_spec(s, x) <= 3_600_000,
{
    lemma_weight_parts(s, x);
}

/// One raw kernel weight, exactly `gauss_weight_spec`.
fn gauss_weight(s: i64, x: i64) -> (w: i64)
    requires
        SCALE <= s <= MAX_SCALE,
        -3 * scale_units(s as int) <= x as int <= 3 * scale_units(s as int),
    ensures
        w as int == gauss_weight_spec(s as int, x as int),
        -3_600_000 <= w <= 3_600_000,
{
    proof {
        lemma_support_bound(s as int, x as int);
        lemma_weight_parts(s as int, x as int);
        assert(0 <= (x as int) * (x as int) <= 36_000_000) by (nonlinear_arith)
            requires -6000 <= x as int <= 6000;
        assert(0 < (s as int) * (s as int) <= 4_000_000_000_000_000_000) by (nonlinear_arith)
            requires 1 <= s as int <= 2_000_000_000;
    }
    let xi = x as i128;
    let si = s as i128;
    let x2: i128 = xi * xi;
    let s2: i128 = si * si;
    proof {
        assert(x2 * SCALE_FIFTH <= 36_000_000 * SCALE_FIFTH && x2 * SCALE_FIFTH >= 0)
            by (nonlinear_arith)
            requires 0 <= x2 <= 36_000_000;
        assert(0 < s2 * s2 <= 16_000_000_000_000_000_000_000_000_000_000_000_000i128)
            by (nonlinear_arith)
            requires 0 < s2 <= 4_000_000_000_000_000_000i128;
        assert(0 <= x2 * SCALE_CUBED <= 36_000_000 * SCALE_CUBED) by (nonlinear_arith)
            requires 0 <= x2 <= 36_000_000;
    }
    let s4: i128 = s2 * s2;
    let d1 = div_trunc(x2 * SCALE_FIFTH, s4);
    let d2 = div_trunc(SCALE_CUBED, s2);
    let y128 = div_trunc(x2 * SCALE_CUBED, 2 * s2);
    let y = y128 as i64;
    let d = d1 - d2;
    proof {
        let xn = x as int;
        let sn = s as int;
        assert(x2 as int == xn * xn);
        assert(s2 as int == sn * sn);
        assert(s4 as int == (sn * sn) * (sn * sn));
        assert(d1 as int == div_t(xn * xn * (SCALE_FIFTH as int), (sn * sn) * (sn * sn)));
        assert(d2 as int == div_t(SCALE_CUBED as int, sn * sn));
        assert(y as int == div_t(xn * xn * (SCALE_CUBED as int), 2 * (sn * sn)));
        assert(0 <= d1 <= 9_000_000 && 0 <= d2 <= 1_000_000);
        assert(-(3_590_478 * 1_000_000) <= d * (INV_SQRT_TWO_PI as i128)
            <= 3_590_478 * 1_000_000) by (nonlinear_arith)
            requires -1_000_000 <= d <= 9_000_000 && INV_SQRT_TWO_PI == 398_942;
    }
    let dc = div_trunc(d * (INV_SQRT_TWO_PI as i128), SCALE as i128);
    proof {
        lemma_div_t_bound((d * (INV_SQRT_TWO_PI as i128)) as int, SCALE as int, 3_590_478);
    }
    let e = exp_neg(y);
    proof {
        assert(-(3_600_000 * 1_000_000) <= dc * (e as i128) <= 3_600_000 * 1_000_000i128)
            by (nonlinear_arith)
            requires -3_590_478 <= dc <= 3_590_478 && 0 <= e as i128 <= 1_000_000;
    }
    let w = div_trunc(dc * (e as i128), SCALE as i128);
    proof {
        lemma_div_t_bound((dc * (e as i128)) as int, SCALE as int, 3_600_000);
    }
    w as i64
}

/// `div_t(a, 1) == a`.
proof fn lemma_div_t_by_one(a: int)
    ensures
        div_t(a, 1) == a,
{
    lemma_fundamental_div_mod(a, 1);
    lemma_mod_bound(a, 1);
    if a < 0 {
        lemma_fundamental_div_mod(-a, 1);
        lemma_mod_bound(-a, 1);
    }
}

/// Builds the centered kernel for scale `s` (micro-units).
///
/// A non-positive scale is invalid configuration and is rejected
/// immediately, as an error rather than a malformed kernel. For a valid
/// scale the result is exactly `kernel_spec(s)`: odd length
/// `6 * floor(s) + 1`, zero-centered, every weight within `WEIGHT_BOUND`.
/// The kernel is a pure function of the scale, so identical scales always
/// produce identical kernels.
pub fn generate_2dog_kernel(s: i64) -> (r: Result<Vec<i64>, DetectError>)
    requires
        s <= MAX_SCALE,
    ensures
        s <= 0 <==> r is Err,
        r is Err ==> r == Result::<Vec<i64>, DetectError>::Err(DetectError::InvalidScale),
        r matches Ok(k) ==> {
            &&& k@.map_values(|v: i64| v as int) == kernel_spec(s as int)
            &&& k@.len() == kernel_len_spec(s as int)
            &&& k@.len() % 2 == 1
            &&& forall|i: int| 0 <= i < k@.len() ==> -WEIGHT_BOUND <= #[trigger] k@[i] <= WEIGHT_BOUND
        },
{
    if s <= 0 {
        return Err(DetectError::InvalidScale);
    }
    let f: i64 = s / SCALE;
    proof {
        assert(f as int == scale_units(s as int));
        lemma_div_pos_is_pos(s as int, SCALE as int);
        lemma_div_is_ordered(s as int, MAX_SCALE as int, SCALE as int);
        assert(scale_units(MAX_SCALE as int) == 2000);
    }
    if f == 0 {
        // A scale below one unit truncates to a single-entry kernel, and
        // centering cancels that entry exactly.
        let mut out: Vec<i64> = Vec::new();
        out.push(0);
        proof {
            let raw = raw_kernel_spec(s as int);
            assert(raw.len() == 1);
            assert(raw.drop_last() =~= Seq::<int>::empty());
            assert(sum_int(raw.drop_last()) == 0);
            assert(raw.last() == raw[0]);
            assert(sum_int(raw) == raw[0]);
            lemma_div_t_by_one(raw[0]);
            assert(kernel_spec(s as int) =~= seq![0int]);
            assert(out@.map_values(|v: i64| v as int) =~= seq![0int]);
        }
        return Ok(out);
    }
    let n: usize = (6 * f + 1) as usize;
    let center: i64 = 3 * f;
    proof {
        lemma_fundamental_div_mod(s as int, SCALE as int);
        lemma_mod_bound(s as int, SCALE as int);
        assert(s as int >= SCALE as int) by (nonlinear_arith)
            requires
                s as int == (SCALE as int) * (f as int) + (s as int) % (SCALE as int)
                    && (s as int) % (SCALE as int) >= 0 && f as int >= 1 && SCALE == 1_000_000;
    }
    let mut raw: Vec<i64> = Vec::new();
    let mut sum: i128 = 0;
    while raw.len() < n
        invariant
            SCALE <= s <= MAX_SCALE,
            f as int == scale_units(s as int),
            1 <= f <= 2000,
            n as int == kernel_len_spec(s as int),
            n <= 12001,
            center == 3 * f,
            raw.len() <= n,
            forall|i: int| 0 <= i < raw.len() ==> raw@[i] as int == raw_kernel_spec(s as int)[i],
            forall|i: int| 0 <= i < raw.len() ==> -3_600_000 <= #[trigger] raw@[i] <= 3_600_000,
            -(raw.len() as int) * 3_600_000 <= sum as int <= (raw.len() as int) * 3_600_000,
            sum as int == sum_int(raw@.map_values(|v: i64| v as int)),
        decreases n - raw.len(),
    {
        let i = raw.len();
        let x: i64 = (i as i64) - center;
        proof {
            assert(-3 * scale_units(s as int) <= x as int <= 3 * scale_units(s as int));
        }
        let w = gauss_weight(s, x);
        proof {
            let m0 = raw@.map_values(|v: i64| v as int);
            let m1 = raw@.push(w).map_values(|v: i64| v as int);
            assert(m1.drop_last() =~= m0);
            assert(m1.last() == w as int);
            assert(((raw.len() + 1) as int) * 3_600_000
                == (raw.len() as int) * 3_600_000 + 3_600_000) by (nonlinear_arith);
            assert(raw_kernel_spec(s as int)[i as int]
                == gauss_weight_spec(s as int, i - 3 * scale_units(s as int)));
        }
        raw.push(w);
        sum = sum + (w as i128);
    }
    let mu128 = div_trunc(sum, n as i128);
    proof {
        assert((n as int) * 3_600_000 == 3_600_000 * (n as int)) by (nonlinear_arith);
        lemma_div_t_bound(sum as int, n as int, 3_600_000);
    }
    let mu = mu128 as i64;
    let mut out: Vec<i64> = Vec::new();
    while out.len() < n
        invariant
            raw.len() == n,
            out.len() <= n,
            -3_600_000 <= mu as int <= 3_600_000,
            forall|i: int| 0 <= i < raw.len() ==> -3_600_000 <= #[trigger] raw@[i] <= 3_600_000,
            forall|i: int| 0 <= i < out.len() ==> out@[i] as int == raw@[i] - mu,
            forall|i: int| 0 <= i < out.len() ==> -WEIGHT_BOUND
                <= #[trigger] out@[i] <= WEIGHT_BOUND,
        decreases n - out.len(),
    {
        let i = out.len();
        let v: i64 = raw[i] - mu;
        out.push(v);
    }
    proof {
        let ker = kernel_spec(s as int);
        let raws = raw_kernel_spec(s as int);
        assert(raw@.map_values(|v: i64| v as int) =~= raws);
        assert(mu as int == div_t(sum_int(raws), raws.len() as int));
        assert(out@.map_values(|v: i64| v as int) =~= ker);
    }
    Ok(out)
}

/// Subtracting a constant from every entry takes `len * c` out of the sum.
proof fn lemma_sum_map_sub(s: Seq<int>, c: int)
    ensures
        sum_int(s.map(|i: int, v: int| v - c)) == sum_int(s) - s.len() * c,
    decreases s.len(),
{
    let m = s.map(|i: int, v: int| v - c);
    if s.len() == 0 {
        assert(m.len() == 0);
    } else {
        lemma_sum_map_sub(s.drop_last(), c);
        assert(m.drop_last() =~= s.drop_last().map(|i: int, v: int| v - c));
        assert(m.last() == s.last() - c);
        assert((s.len() - 1) * c + c == s.len() * c) by (nonlinear_arith);
    }
}

/// Truncated division leaves a remainder smaller than the divisor:
/// `|a - b * div_t(a, b)| < b`.
proof fn lemma_div_t_remainder(a: int, b: int)
    requires
        b > 0,
    ensures
        -b < a - b * div_t(a, b) < b,
{
    if a >= 0 {
        lemma_fundamental_div_mod(a, b);
        lemma_mod_bound(a, b);
    } else {
        lemma_fundamental_div_mod(-a, b);
        lemma_mod_bound(-a, b);
        assert(b * div_t(a, b) == -(b * ((-a) / b))) by (nonlinear_arith)
            requires div_t(a, b) == -((-a) / b);
    }
}

/// The kernel's shape and balance: for any positive scale the kernel has
/// odd length `6 * floor(s) + 1`, and its weights sum to within one
/// micro-unit per entry of zero — the residue that truncating the mean
/// leaves behind. A single-entry kernel is exactly zero.
pub proof fn lemma_kernel_shape(s: int)
    requires
        1 <= s <= MAX_SCALE as int,
    ensures
        kernel_spec(s).len() == kernel_len_spec(s),
        kernel_len_spec(s) % 2 == 1,
        -(kernel_len_spec(s)) < sum_int(kernel_spec(s)) < kernel_len_spec(s),
{
    let raw = raw_kernel_spec(s);
    let n = kernel_len_spec(s);
    let mu = div_t(sum_int(raw), n);
    lemma_div_pos_is_pos(s, SCALE as int);
    assert(n == 6 * scale_units(s) + 1);
    assert(n % 2 == 1) by {
        vstd::arithmetic::div_mod::lemma_mod_multiples_vanish(3 * scale_units(s), 1, 2);
        assert(2 * (3 * scale_units(s)) + 1 == n) by (nonlinear_arith)
            requires n == 6 * scale_units(s) + 1;
    }
    lemma_sum_map_sub(raw, mu);
    assert(kernel_spec(s) =~= raw.map(|i: int, v: int| v - mu));
    lemma_div_t_remainder(sum_int(raw), n);
    assert(sum_int(kernel_spec(s)) == sum_int(raw) - n * mu);
}

/// At argument zero every Taylor term beyond the constant one vanishes,
/// so the sum is exactly `SCALE` — and so is the reciprocal exponential:
/// `exp(0) == 1` without any rounding.
proof fn lemma_exp_at_zero()
    ensures
        exp_neg_q(0) == SCALE as int,
{
    lemma_exp_at_zero_sum(EXP_TERMS as nat);
    crate::fixed::lemma_div_t_exact(SCALE as int, SCALE as int);
}

proof fn lemma_exp_at_zero_sum(k: nat)
    ensures
        exp_sum(0, k) == SCALE as int,
    decreases k,
{
    if k > 0 {
        lemma_exp_at_zero_sum((k - 1) as nat);
        let t = exp_term(0, (k - 1) as nat);
        assert(t * 0 == 0) by (nonlinear_arith);
        vstd::arithmetic::div_mod::lemma_basic_div(0, (SCALE as int) * k);
    }
}

/// The raw weight at the center is a (non-positive) lower bound for every
/// raw weight on the support: away from the center the difference term
/// can only grow and the exponential factor can only shrink a negative
/// product toward zero.
proof fn lemma_gauss_weight_min(s: int, x: int)
    requires
        1 <= s <= MAX_SCALE as int,
        -3 * scale_units(s) <= x <= 3 * scale_units(s),
    ensures
        gauss_weight_spec(s, 0) <= gauss_weight_spec(s, x),
{
    let sc = SCALE as int;
    let s2 = s * s;
    assert(s2 > 0 && s2 * s2 > 0 && 2 * s2 > 0) by (nonlinear_arith)
        requires s >= 1 && s2 == s * s;
    let d2 = div_t(SCALE_CUBED as int, s2);
    lemma_div_pos_is_pos(SCALE_CUBED as int, s2);
    // the center: d1 and y are exactly zero, the exponential exactly one
    assert(0 * 0 * (SCALE_FIFTH as int) == 0) by (nonlinear_arith);
    assert(0 * 0 * (SCALE_CUBED as int) == 0) by (nonlinear_arith);
    vstd::arithmetic::div_mod::lemma_basic_div(0, s2 * s2);
    vstd::arithmetic::div_mod::lemma_basic_div(0, 2 * s2);
    lemma_exp_at_zero();
    let dc0 = div_t((0 - d2) * (INV_SQRT_TWO_PI as int), sc);
    crate::fixed::lemma_div_t_exact(dc0, sc);
    assert(gauss_weight_spec(s, 0) == dc0) by {
        assert(dc0 * exp_neg_q(0) == dc0 * sc) by (nonlinear_arith)
            requires exp_neg_q(0) == sc;
    }
    // away from the center
    let d1 = div_t(x * x * (SCALE_FIFTH as int), s2 * s2);
    assert(x * x * (SCALE_FIFTH as int) >= 0) by (nonlinear_arith);
    lemma_div_pos_is_pos(x * x * (SCALE_FIFTH as int), s2 * s2);
    let dx = d1 - d2;
    let y = div_t(x * x * (SCALE_CUBED as int), 2 * s2);
    assert(x * x * (SCALE_CUBED as int) >= 0) by (nonlinear_arith);
    lemma_div_pos_is_pos(x * x * (SCALE_CUBED as int), 2 * s2);
    lemma_exp_neg_range(y);
    let e = exp_neg_q(y);
    let dcx = div_t(dx * (INV_SQRT_TWO_PI as int), sc);
    assert((0 - d2) * (INV_SQRT_TWO_PI as int) <= dx * (INV_SQRT_TWO_PI as int))
        by (nonlinear_arith)
        requires 0 - d2 <= dx && INV_SQRT_TWO_PI == 398_942;
    crate::fixed::lemma_div_t_monotone((0 - d2) * (INV_SQRT_TWO_PI as int),
        dx * (INV_SQRT_TWO_PI as int), sc);
    assert(dc0 <= dcx);
    assert(dc0 <= 0) by {
        assert((0 - d2) * (INV_SQRT_TWO_PI as int) <= 0) by (nonlinear_arith)
            requires d2 >= 0 && INV_SQRT_TWO_PI == 398_942;
        crate::fixed::lemma_div_t_monotone((0 - d2) * (INV_SQRT_TWO_PI as int), 0, sc);
        vstd::arithmetic::div_mod::lemma_basic_div(0, sc);
    }
    if dcx >= 0 {
        assert(dcx * e >= 0) by (nonlinear_arith)
            requires dcx >= 0 && e >= 0;
        vstd::arithmetic::div_mod::lemma_basic_div(0, sc);
        crate::fixed::lemma_div_t_monotone(0, dcx * e, sc);
        assert(gauss_weight_spec(s, x) >= 0);
    } else {
        assert(dcx * e >= dc0 * sc) by (nonlinear_arith)
            requires dcx < 0 && 0 <= e <= sc && dc0 <= dcx && sc > 0;
        crate::fixed::lemma_div_t_monotone(dc0 * sc, dcx * e, sc);
        crate::fixed::lemma_div_t_exact(dc0, sc);
    }
}

/// The kernel's global minimum is attained at the center index: the
/// trough of the inverted Gaussian bump survives centering unchanged.
pub proof fn lemma_kernel_min_at_center(s: int)
    requires
        1 <= s <= MAX_SCALE as int,
    ensures
        forall|i: int| 0 <= i < kernel_spec(s).len() ==> kernel_spec(s)[3 * scale_units(s)]
            <= #[trigger] kernel_spec(s)[i],
{
    let raw = raw_kernel_spec(s);
    let ker = kernel_spec(s);
    let f = scale_units(s);
    lemma_div_pos_is_pos(s, SCALE as int);
    assert(ker.len() == 6 * f + 1);
    assert(0 <= 3 * f < raw.len());
    assert(raw[3 * f] == gauss_weight_spec(s, 0));
    assert forall|i: int| 0 <= i < ker.len() implies ker[3 * f] <= #[trigger] ker[i] by {
        assert(raw[i] == gauss_weight_spec(s, i - 3 * f));
        lemma_gauss_weight_min(s, i - 3 * f);
    }
}

/// Kernel generation is deterministic: the kernel is a pure function of
/// the scale alone, so two kernels built for the same scale are identical
/// entry for entry.
pub proof fn lemma_kernel_deterministic(s: int, k1: Seq<int>, k2: Seq<int>)
    requires
        k1 == kernel_spec(s),
        k2 == kernel_spec(s),
    ensures
        k1 == k2,
{
}

} // verus!
