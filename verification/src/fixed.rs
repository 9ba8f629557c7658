//! Fixed-point arithmetic helpers.
//!
//! A real quantity is represented by a signed integer count of micro-units:
//! `SCALE` counts stand for 1.0. All divisions in the pipeline truncate
//! toward zero (the semantics of `checked_div` on signed integers), and
//! `div_t` is the specification-level image of that operation.

use vstd::prelude::*;

verus! {

/// Number of fixed-point counts per whole unit.
pub const SCALE: i64 = 1_000_000;

/// Truncated (round-toward-zero) division, defined for positive divisors.
pub open spec fn div_t(a: int, b: int) -> int
    recommends
        b > 0,
{
    if a >= 0 {
        a / b
    } else {
        -((-a) / b)
    }
}

/// Truncated division of `i128` values, the executable form of `div_t`.
pub fn div_trunc(a: i128, b: i128) -> (r: i128)
    requires
        b > 0,
    ensures
        r == div_t(a as int, b as int),
{
    proof {
        lemma_div_t_in_range(a as int, b as int);
    }
    a.checked_div(b).unwrap()
}

/// The magnitude of a truncated quotient never exceeds the magnitude of the
/// dividend divided by the divisor; in particular a bound `|a| <= m * b`
/// carries over to `|div_t(a, b)| <= m`.
pub proof fn lemma_div_t_bound(a: int, b: int, m: int)
    requires
        b > 0,
        m >= 0,
        -(m * b) <= a <= m * b,
    ensures
        -m <= div_t(a, b) <= m,
{
    assert(m * b == b * m) by (nonlinear_arith);
    vstd::arithmetic::div_mod::lemma_div_multiples_vanish(m, b);
    if a >= 0 {
        vstd::arithmetic::div_mod::lemma_div_is_ordered(a, b * m, b);
        vstd::arithmetic::div_mod::lemma_div_pos_is_pos(a, b);
    } else {
        vstd::arithmetic::div_mod::lemma_div_is_ordered(-a, b * m, b);
        vstd::arithmetic::div_mod::lemma_div_pos_is_pos(-a, b);
    }
}

/// A truncated quotient stays within `i128` whenever the dividend does.
proof fn lemma_div_t_in_range(a: int, b: int)
    requires
        b > 0,
        i128::MIN <= a <= i128::MAX,
    ensures
        i128::MIN <= div_t(a, b) <= i128::MAX,
{
    if a >= 0 {
        vstd::arithmetic::div_mod::lemma_div_is_ordered(a, i128::MAX as int, b);
        vstd::arithmetic::div_mod::lemma_div_nonincreasing(i128::MAX as int, b);
        vstd::arithmetic::div_mod::lemma_div_pos_is_pos(a, b);
    } else {
        vstd::arithmetic::div_mod::lemma_div_is_ordered(-a, -(i128::MIN as int), b);
        vstd::arithmetic::div_mod::lemma_div_nonincreasing(-(i128::MIN as int), b);
        vstd::arithmetic::div_mod::lemma_div_pos_is_pos(-a, b);
    }
}

/// Dividing an exact multiple is exact: `div_t(x * b, b) == x`.
pub proof fn lemma_div_t_exact(x: int, b: int)
    requires
        b > 0,
    ensures
        div_t(x * b, b) == x,
{
    if x >= 0 {
        assert(x * b == b * x) by (nonlinear_arith);
        vstd::arithmetic::div_mod::lemma_div_multiples_vanish(x, b);
    } else {
        assert(-(x * b) == b * (-x)) by (nonlinear_arith);
        vstd::arithmetic::div_mod::lemma_div_multiples_vanish(-x, b);
    }
}

/// Truncated division is monotone in the dividend.
pub proof fn lemma_div_t_monotone(a1: int, a2: int, b: int)
    requires
        b > 0,
        a1 <= a2,
    ensures
        div_t(a1, b) <= div_t(a2, b),
{
    if a1 >= 0 {
        vstd::arithmetic::div_mod::lemma_div_is_ordered(a1, a2, b);
    } else if a2 < 0 {
        vstd::arithmetic::div_mod::lemma_div_is_ordered(-a2, -a1, b);
    } else {
        vstd::arithmetic::div_mod::lemma_div_pos_is_pos(-a1, b);
        vstd::arithmetic::div_mod::lemma_div_pos_is_pos(a2, b);
    }
}

/// Integer square root: the greatest `r` with `r * r <= x`.
pub fn isqrt(x: i128) -> (r: i128)
    requires
        0 <= x,
        x <= 0x4000_0000_0000_0000_0000_0000_0000_0000,
    ensures
        0 <= r,
        r * r <= x,
        (r + 1) * (r + 1) > x,
{
    let mut lo: i128 = 0;
    let mut hi: i128 = 0x8000_0000_0000_0000;
    proof {
        assert((0x8000_0000_0000_0000i128 + 1) * (0x8000_0000_0000_0000i128 + 1) > x)
            by (nonlinear_arith)
            requires x <= 0x4000_0000_0000_0000_0000_0000_0000_0000i128;
    }
    while lo < hi
        invariant
            0 <= lo <= hi <= 0x8000_0000_0000_0000,
            lo * lo <= x,
            (hi + 1) * (hi + 1) > x,
        decreases hi - lo,
    {
        let mid: i128 = lo + (hi - lo + 1).checked_div(2).unwrap();
        proof {
            assert(lo < mid <= hi);
            assert(mid * mid <= 0x8000_0000_0000_0000i128 * 0x8000_0000_0000_0000i128)
                by (nonlinear_arith)
                requires 0 <= mid <= 0x8000_0000_0000_0000i128;
        }
        if mid * mid <= x {
            lo = mid;
        } else {
            proof {
                assert((mid - 1 + 1) * (mid - 1 + 1) > x);
            }
            hi = mid - 1;
        }
    }
    lo
}

/// Sum of a sequence of integers.
pub open spec fn sum_int(s: Seq<int>) -> int
    decreases s.len(),
{
    if s.len() == 0 {
        0
    } else {
        sum_int(s.drop_last()) + s.last()
    }
}

/// Removing one element takes exactly its value out of the sum.
pub proof fn lemma_sum_int_remove(s: Seq<int>, i: int)
    requires
        0 <= i < s.len(),
    ensures
        sum_int(s) == sum_int(s.remove(i)) + s[i],
    decreases s.len(),
{
    if i == s.len() - 1 {
        assert(s.remove(i) =~= s.drop_last());
    } else {
        lemma_sum_int_remove(s.drop_last(), i);
        assert(s.remove(i).drop_last() =~= s.drop_last().remove(i));
        assert(s.remove(i).last() == s.last());
    }
}

} // verus!
