//! Scale convolver: same-length convolution of a trace with a kernel.
//!
//! The output has the same length as the input signal; the kernel is
//! centered at each output position and samples beyond the signal's edges
//! count as zero. Each output value is the micro-unit dot product,
//! truncated back to micro-units. A signal shorter than the kernel is not
//! an error: the padding simply covers more of the window.

use vstd::prelude::*;
use crate::fixed::{SCALE, div_t, div_trunc, lemma_div_t_bound};
use crate::kernel::WEIGHT_BOUND;

verus! {

/// Largest admissible sample magnitude, in micro-units (one million whole
/// units): keeps convolution sums inside `i128` and responses inside `i64`.
pub const SAMPLE_LIMIT: i64 = 1_000_000_000_000;

/// Largest admissible signal length.
pub const MAX_SIGNAL_LEN: usize = 100_000_000;

/// Largest kernel length the convolver accepts (the kernel factory's
/// maximum scale yields this length).
pub const MAX_KERNEL_LEN: usize = 12_001;

/// Bound on the magnitude of every convolution response value:
/// `MAX_KERNEL_LEN * WEIGHT_BOUND * SAMPLE_LIMIT / SCALE`.
pub const RESPONSE_BOUND: i64 = 96_008_000_000_000_000;

/// The signal value at `i`, with zero padding outside the signal.
pub open spec fn padded(s: Seq<int>, i: int) -> int {
    if 0 <= i < s.len() {
        s[i]
    } else {
        0
    }
}

/// Partial dot product of the kernel's first `j` weights against the
/// window of `s` centered at `ci` (kernel center index `h`).
pub open spec fn conv_sum(s: Seq<int>, k: Seq<int>, h: int, ci: int, j: nat) -> int
    decreases j,
{
    if j == 0 {
        0
    } else {
        conv_sum(s, k, h, ci, (j - 1) as nat) + k[j - 1] * padded(s, ci + (j - 1) - h)
    }
}

/// The response value at output index `ci`: the full dot product scaled
/// back to micro-units by truncated division.
pub open spec fn conv_at(s: Seq<int>, k: Seq<int>, ci: int) -> int {
    div_t(conv_sum(s, k, (k.len() - 1) as int / 2, ci, k.len()), SCALE as int)
}

/// The whole same-length response.
pub open spec fn conv_spec(s: Seq<int>, k: Seq<int>) -> Seq<int> {
    Seq::new(s.len(), |ci: int| conv_at(s, k, ci))
}

/// Same-length convolution of `signal` with `kernel`, exactly `conv_spec`.
pub fn convolve_same(signal: &Vec<i64>, kernel: &Vec<i64>) -> (r: Vec<i64>)
    requires
        signal.len() <= MAX_SIGNAL_LEN,
        1 <= kernel.len() <= MAX_KERNEL_LEN,
        kernel.len() % 2 == 1,
        forall|i: int| 0 <= i < signal.len() ==> -SAMPLE_LIMIT <= #[trigger] signal@[i]
            <= SAMPLE_LIMIT,
        forall|i: int| 0 <= i < kernel.len() ==> -WEIGHT_BOUND <= #[trigger] kernel@[i]
            <= WEIGHT_BOUND,
    ensures
        r.len() == signal.len(),
        r@.map_values(|v: i64| v as int) == conv_spec(
            signal@.map_values(|v: i64| v as int),
            kernel@.map_values(|v: i64| v as int),
        ),
        forall|i: int| 0 <= i < r.len() ==> -RESPONSE_BOUND <= #[trigger] r@[i] <= RESPONSE_BOUND,
{
    let ghost sv = signal@.map_values(|v: i64| v as int);
    let ghost kv = kernel@.map_values(|v: i64| v as int);
    let n = signal.len();
    let klen = kernel.len();
    let h = (klen - 1) / 2;
    let mut out: Vec<i64> = Vec::new();
    while out.len() < n
        invariant
            sv == signal@.map_values(|v: i64| v as int),
            kv == kernel@.map_values(|v: i64| v as int),
            n == signal.len(),
            n <= MAX_SIGNAL_LEN,
            klen == kernel.len(),
            1 <= klen <= MAX_KERNEL_LEN,
            h == (klen - 1) / 2,
            forall|i: int| 0 <= i < signal.len() ==> -SAMPLE_LIMIT <= #[trigger] signal@[i]
                <= SAMPLE_LIMIT,
            forall|i: int| 0 <= i < kernel.len() ==> -WEIGHT_BOUND <= #[trigger] kernel@[i]
                <= WEIGHT_BOUND,
            out.len() <= n,
            forall|ci: int| 0 <= ci < out.len() ==> out@[ci] as int == conv_at(sv, kv, ci),
            forall|ci: int| 0 <= ci < out.len() ==> -RESPONSE_BOUND <= #[trigger] out@[ci]
                <= RESPONSE_BOUND,
        decreases n - out.len(),
    {
        let ci = out.len();
        let mut acc: i128 = 0;
        let mut j: usize = 0;
        while j < klen
            invariant
                sv == signal@.map_values(|v: i64| v as int),
                kv == kernel@.map_values(|v: i64| v as int),
                n == signal.len(),
                n <= MAX_SIGNAL_LEN,
                klen == kernel.len(),
                1 <= klen <= MAX_KERNEL_LEN,
                h == (klen - 1) / 2,
                ci < n,
                j <= klen,
                forall|i: int| 0 <= i < signal.len() ==> -SAMPLE_LIMIT <= #[trigger] signal@[i]
                    <= SAMPLE_LIMIT,
                forall|i: int| 0 <= i < kernel.len() ==> -WEIGHT_BOUND <= #[trigger] kernel@[i]
                    <= WEIGHT_BOUND,
                acc as int == conv_sum(sv, kv, h as int, ci as int, j as nat),
                -((j as int) * 8_000_000_000_000_000_000) <= acc as int
                    <= (j as int) * 8_000_000_000_000_000_000,
            decreases klen - j,
        {
            let idx: i64 = (ci as i64) + (j as i64) - (h as i64);
            let v: i64 = if idx >= 0 && (idx as usize) < n {
                signal[idx as usize]
            } else {
                0
            };
            proof {
                assert(v as int == padded(sv, ci + j - h));
                assert(-8_000_000_000_000_000_000
                    <= (kernel@[j as int] as int) * (v as int)
                    <= 8_000_000_000_000_000_000) by (nonlinear_arith)
                    requires
                        -8_000_000 <= kernel@[j as int] as int <= 8_000_000
                            && -1_000_000_000_000 <= v as int <= 1_000_000_000_000;
                assert((j as int) * 8_000_000_000_000_000_000 + 8_000_000_000_000_000_000
                    == ((j + 1) as int) * 8_000_000_000_000_000_000) by (nonlinear_arith);
                assert((j as int) * 8_000_000_000_000_000_000
                    <= 12_000 * 8_000_000_000_000_000_000i128) by (nonlinear_arith)
                    requires 0 <= j as int <= 12_000;
            }
            acc = acc + (kernel[j] as i128) * (v as i128);
            j = j + 1;
        }
        proof {
            assert((klen as int) * 8_000_000_000_000_000_000
                <= 12_001 * 8_000_000_000_000_000_000i128) by (nonlinear_arith)
                requires 0 <= klen as int <= 12_001;
            lemma_div_t_bound(acc as int, SCALE as int, RESPONSE_BOUND as int);
        }
        let r128 = div_trunc(acc, SCALE as i128);
        out.push(r128 as i64);
    }
    proof {
        assert(out@.map_values(|v: i64| v as int) =~= conv_spec(sv, kv));
    }
    out
}

} // verus!
