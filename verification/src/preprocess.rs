//! Trace smoothing ahead of detection: either no smoothing at all, or an
//! in-place moving average.
//!
//! The moving average walks the trace once; at position `i` it replaces
//! the sample with the truncated mean of the current window
//! `[i - k/2, min(i + k/2, len - 1)]`, reading values already smoothed to
//! its left. The window is clipped to the trace at both ends.

use vstd::prelude::*;
use crate::fixed::{div_t, div_trunc, lemma_div_t_bound};
use crate::convolve::{MAX_SIGNAL_LEN, SAMPLE_LIMIT};

verus! {

/// Sum of `s` over the index range `[lo, hi)`.
pub open spec fn sum_range(s: Seq<int>, lo: int, hi: int) -> int
    decreases hi - lo,
{
    if hi <= lo {
        0
    } else {
        sum_range(s, lo, hi - 1) + s[hi - 1]
    }
}

/// Lower window edge at position `i` for window parameter `k`.
pub open spec fn window_lo(i: int, k: int) -> int {
    if i >= k / 2 {
        i - k / 2
    } else {
        0
    }
}

/// Upper (exclusive) window edge at position `i` for window parameter `k`
/// on a trace of length `len`.
pub open spec fn window_hi(i: int, k: int, len: int) -> int {
    if i + k / 2 + 1 <= len {
        i + k / 2 + 1
    } else {
        len
    }
}

/// One smoothing step: position `i` becomes the truncated mean of the
/// current window around it.
pub open spec fn smooth_step(s: Seq<int>, i: int, k: int) -> Seq<int>
    recommends
        0 <= i < s.len(),
{
    let lo = window_lo(i, k);
    let hi = window_hi(i, k, s.len() as int);
    s.update(i, div_t(sum_range(s, lo, hi), hi - lo))
}

/// The trace after smoothing the first `n` positions in place,
/// left to right.
pub open spec fn smooth_upto(s: Seq<int>, k: int, n: int) -> Seq<int>
    decreases n,
{
    if n <= 0 {
        s
    } else {
        smooth_step(smooth_upto(s, k, n - 1), n - 1, k)
    }
}

/// The fully smoothed trace.
pub open spec fn smooth_spec(s: Seq<int>, k: int) -> Seq<int> {
    smooth_upto(s, k, s.len() as int)
}

/// A trace smoothing strategy.
pub trait Smoother {
    /// The traces the smoother accepts.
    spec fn accepts(&self, s: Seq<i64>) -> bool;

    /// What the smoother turns an accepted trace into.
    spec fn smoothed(&self, s: Seq<i64>) -> Seq<int>;

    /// Smooths the trace in place.
    fn smooth(&self, signal: &mut Vec<i64>)
        requires
            self.accepts(old(signal)@),
        ensures
            final(signal)@.map_values(|v: i64| v as int) == self.smoothed(old(signal)@),
    ;
}

/// The identity smoother.
pub struct NoSmoothing;

impl Smoother for NoSmoothing {
    open spec fn accepts(&self, s: Seq<i64>) -> bool {
        true
    }

    open spec fn smoothed(&self, s: Seq<i64>) -> Seq<int> {
        s.map_values(|v: i64| v as int)
    }

    fn smooth(&self, signal: &mut Vec<i64>) {
    }
}

/// An in-place moving average of window parameter `k > 0`.
pub struct MovingAverage {
    pub k: usize,
}

impl MovingAverage {
    /// A moving average of window parameter `k`; `k` must be positive.
    pub fn new(k: usize) -> (r: Option<MovingAverage>)
        ensures
            r is Some <==> k > 0,
            r matches Some(m) ==> m.k == k,
    {
        if k > 0 {
            Some(MovingAverage { k })
        } else {
            None
        }
    }
}

/// Smoothed values stay within the sample bounds: a truncated mean of
/// bounded values is bounded.
proof fn lemma_sum_range_bound(s: Seq<int>, lo: int, hi: int)
    requires
        0 <= lo <= hi,
        hi <= s.len(),
        forall|j: int| 0 <= j < s.len() ==> -(SAMPLE_LIMIT as int) <= #[trigger] s[j]
            <= SAMPLE_LIMIT as int,
    ensures
        -((hi - lo) * (SAMPLE_LIMIT as int)) <= sum_range(s, lo, hi) <= (hi - lo) * (
        SAMPLE_LIMIT as int),
    decreases hi - lo,
{
    if hi > lo {
        lemma_sum_range_bound(s, lo, hi - 1);
        assert((hi - 1 - lo) * (SAMPLE_LIMIT as int) + SAMPLE_LIMIT as int == (hi - lo) * (
        SAMPLE_LIMIT as int)) by (nonlinear_arith);
    } else {
        assert((hi - lo) * (SAMPLE_LIMIT as int) == 0) by (nonlinear_arith)
            requires hi == lo;
    }
}

impl Smoother for MovingAverage {
    open spec fn accepts(&self, s: Seq<i64>) -> bool {
        &&& s.len() <= MAX_SIGNAL_LEN
        &&& forall|j: int| 0 <= j < s.len() ==> -SAMPLE_LIMIT <= #[trigger] s[j] <= SAMPLE_LIMIT
    }

    open spec fn smoothed(&self, s: Seq<i64>) -> Seq<int> {
        smooth_spec(s.map_values(|v: i64| v as int), self.k as int)
    }

    fn smooth(&self, signal: &mut Vec<i64>) {
        let ghost orig = old(signal)@.map_values(|v: i64| v as int);
        let len = signal.len();
        let half = self.k / 2;
        let mut i: usize = 0;
        while i < len
            invariant
                len == signal.len(),
                len <= MAX_SIGNAL_LEN,
                half == self.k / 2,
                i <= len,
                signal@.map_values(|v: i64| v as int) == smooth_upto(orig, self.k as int, i as int),
                forall|j: int| 0 <= j < signal.len() ==> -SAMPLE_LIMIT <= #[trigger] signal@[j]
                    <= SAMPLE_LIMIT,
            decreases len - i,
        {
            let ghost cur = signal@.map_values(|v: i64| v as int);
            let lo: usize = if i >= half {
                i - half
            } else {
                0
            };
            let hi: usize = if half < len - i {
                i + half + 1
            } else {
                len
            };
            proof {
                assert(lo as int == window_lo(i as int, self.k as int));
                assert(hi as int == window_hi(i as int, self.k as int, len as int));
                assert(lo <= i < hi);
            }
            let mut sum: i128 = 0;
            let mut j: usize = lo;
            while j < hi
                invariant
                    cur == signal@.map_values(|v: i64| v as int),
                    len == signal.len(),
                    len <= MAX_SIGNAL_LEN,
                    lo <= j <= hi,
                    hi <= len,
                    forall|q: int| 0 <= q < signal.len() ==> -SAMPLE_LIMIT
                        <= #[trigger] signal@[q] <= SAMPLE_LIMIT,
                    sum as int == sum_range(cur, lo as int, j as int),
                    -((j - lo) as int) * (SAMPLE_LIMIT as int) <= sum as int <= ((j - lo) as int)
                        * (SAMPLE_LIMIT as int),
                decreases hi - j,
            {
                proof {
                    assert(((j - lo) as int) * (SAMPLE_LIMIT as int) + SAMPLE_LIMIT as int == ((
                    j + 1 - lo) as int) * (SAMPLE_LIMIT as int)) by (nonlinear_arith);
                }
                sum = sum + (signal[j] as i128);
                j = j + 1;
            }
            proof {
                assert(((hi - lo) as int) * (SAMPLE_LIMIT as int) == (SAMPLE_LIMIT as int) * ((
                hi - lo) as int)) by (nonlinear_arith);
                lemma_div_t_bound(sum as int, (hi - lo) as int, SAMPLE_LIMIT as int);
            }
            let mean128 = div_trunc(sum, (hi - lo) as i128);
            let mean = mean128 as i64;
            signal[i] = mean;
            proof {
                assert(signal@.map_values(|v: i64| v as int) =~= smooth_step(cur, i as int,
                    self.k as int));
            }
            i = i + 1;
        }
    }
}

} // verus!
