//! The multiscale peak detector: for each configured scale, build the
//! kernel, convolve the trace, extract the significant local minima of the
//! response, and tag them as candidates; then merge the pooled candidates
//! across scales into consolidated peaks.
//!
//! Everything is exact fixed-point arithmetic, so the whole pipeline is a
//! pure function of the trace, the scale list and the configuration.

use vstd::prelude::*;
use crate::fixed::SCALE;
use crate::kernel::{
    DetectError, MAX_SCALE, generate_2dog_kernel, kernel_len_spec, kernel_spec, scale_units,
};
use crate::convolve::{MAX_SIGNAL_LEN, RESPONSE_BOUND, SAMPLE_LIMIT, conv_spec, convolve_same};
use crate::threshold::{estimate_threshold, threshold_spec};
use crate::extrema::{find_minima, lemma_minima_chars, minima_spec, minima_upto};
use crate::cluster::{
    DetectorConfig, MAX_CANDIDATES, Peak, all_wf, candidate_wf, cluster_candidates, cluster_spec,
    config_wf,
};
use vstd::arithmetic::div_mod::{lemma_div_is_ordered, lemma_div_pos_is_pos};

verus! {

/// Configuration of the signal analysis stage; reserved for future
/// settings.
#[derive(Debug, PartialEq, Eq, Structural)]
pub struct SignalConfig {}

/// The per-scale candidates of a trace: each reported minimum of the
/// convolution response becomes a candidate of that scale, carrying the
/// original trace value at its position and the sign-flipped response
/// value as its prominence.
pub open spec fn candidates_for_scale(sig: Seq<int>, s: int, t: int) -> Seq<Peak> {
    minima_spec(conv_spec(sig, kernel_spec(s)), t).map_values(
        |p: (int, int)|
            Peak {
                width: s as i128,
                height: sig[p.0] as i128,
                prominence: (-p.1) as i128,
                pos: (p.0 * (SCALE as int)) as i128,
            },
    )
}

/// The pooled candidates of the first `n` scales, in scale order.
pub open spec fn pool_spec(sig: Seq<int>, scales: Seq<i64>, t: int, n: int) -> Seq<Peak>
    decreases n,
{
    if n <= 0 {
        Seq::empty()
    } else {
        pool_spec(sig, scales, t, n - 1) + candidates_for_scale(sig, scales[n - 1] as int, t)
    }
}

/// The complete detection result of a trace: threshold from the baseline,
/// candidates from every scale, clusters merged into final peaks.
pub open spec fn detect_spec(sig: Seq<int>, scales: Seq<i64>, c: DetectorConfig) -> Seq<Peak> {
    let t = threshold_spec(sig, c.sigma_threshold_mult as int);
    cluster_spec(c, pool_spec(sig, scales, t, scales.len() as int))
}

/// Admissible inputs of the detector: bounded samples, bounded scales,
/// and room for every possible candidate.
pub open spec fn detect_input_ok(scales: Seq<i64>, c: DetectorConfig, signal: &Vec<i64>) -> bool {
    &&& signal.len() <= MAX_SIGNAL_LEN
    &&& forall|i: int| 0 <= i < signal.len() ==> -SAMPLE_LIMIT <= #[trigger] signal@[i]
        <= SAMPLE_LIMIT
    &&& forall|i: int| 0 <= i < scales.len() ==> #[trigger] scales[i] <= MAX_SCALE
    &&& signal.len() * scales.len() <= MAX_CANDIDATES
    &&& config_wf(c)
}

/// A peak detection strategy: anything that turns a trace into a list of
/// consolidated peaks, or rejects its configuration.
pub trait PeakDetector {
    /// The inputs the detector accepts.
    spec fn input_ok(&self, signal: &Vec<i64>) -> bool;

    /// What the detector returns on accepted input.
    spec fn expected(&self, signal: &Vec<i64>) -> Result<Seq<Peak>, DetectError>;

    /// Detects peaks in the trace.
    fn detect_peaks(&self, signal: &Vec<i64>) -> (r: Result<Vec<Peak>, DetectError>)
        requires
            self.input_ok(signal),
        ensures
            match (r, self.expected(signal)) {
                (Ok(v), Ok(s)) => v@ == s,
                (Err(a), Err(b)) => a == b,
                _ => false,
            },
    ;
}

/// Double-derivative-of-Gaussian peak detector ("Mexican hat").
pub struct DDOGPeakDetector {
    pub scales: Vec<i64>,
    pub config: DetectorConfig,
}

impl DDOGPeakDetector {
    /// A detector probing the given scales (micro-units) with the default
    /// configuration.
    pub fn new(scales: Vec<i64>) -> (d: DDOGPeakDetector)
        ensures
            d.scales@ == scales@,
            d.config == crate::cluster::default_config(),
    {
        DDOGPeakDetector { scales, config: DetectorConfig::default() }
    }

    /// A detector probing the given scales with an explicit configuration.
    pub fn with_config(scales: Vec<i64>, config: DetectorConfig) -> (d: DDOGPeakDetector)
        ensures
            d.scales@ == scales@,
            d.config == config,
    {
        DDOGPeakDetector { scales, config }
    }

    /// The configured scales.
    pub fn scales(&self) -> (s: &Vec<i64>)
        ensures
            s@ == self.scales@,
    {
        &self.scales
    }

    /// The configuration in force.
    pub fn config(&self) -> (c: &DetectorConfig)
        ensures
            c == self.config,
    {
        &self.config
    }
}

impl PeakDetector for DDOGPeakDetector {
    open spec fn input_ok(&self, signal: &Vec<i64>) -> bool {
        detect_input_ok(self.scales@, self.config, signal)
    }

    open spec fn expected(&self, signal: &Vec<i64>) -> Result<Seq<Peak>, DetectError> {
        if exists|i: int| 0 <= i < self.scales@.len() && #[trigger] self.scales@[i] <= 0 {
            Err(DetectError::InvalidScale)
        } else {
            Ok(detect_spec(signal@.map_values(|v: i64| v as int), self.scales@, self.config))
        }
    }

    /// Runs the full pipeline: one threshold from the raw trace, then per
    /// scale a kernel, a response and its minima, pooled into candidates
    /// and clustered. A non-positive scale fails fast.
    fn detect_peaks(&self, signal: &Vec<i64>) -> (r: Result<Vec<Peak>, DetectError>) {
        let ghost sig = signal@.map_values(|v: i64| v as int);
        let threshold = estimate_threshold(signal, self.config.sigma_threshold_mult);
        let ghost t = threshold as int;
        let mut pool: Vec<Peak> = Vec::new();
        let mut si: usize = 0;
        let nscales = self.scales.len();
        while si < nscales
            invariant
                sig == signal@.map_values(|v: i64| v as int),
                t == threshold as int,
                threshold <= 0,
                t == threshold_spec(sig, self.config.sigma_threshold_mult as int),
                detect_input_ok(self.scales@, self.config, signal),
                nscales == self.scales.len(),
                si <= nscales,
                forall|j: int| 0 <= j < si ==> #[trigger] self.scales@[j] > 0,
                pool@ == pool_spec(sig, self.scales@, t, si as int),
                all_wf(pool@),
                pool.len() <= signal.len() * si,
            decreases nscales - si,
        {
            let scale = self.scales[si];
            let kernel = match generate_2dog_kernel(scale) {
                Ok(k) => k,
                Err(e) => {
                    return Err(e);
                },
            };
            proof {
                assert(kernel_len_spec(scale as int) <= 12_001) by {
                    lemma_div_pos_is_pos(scale as int, SCALE as int);
                    lemma_div_is_ordered(scale as int, MAX_SCALE as int, SCALE as int);
                    assert(scale_units(MAX_SCALE as int) == 2000);
                }
            }
            let conv = convolve_same(signal, &kernel);
            let minima = find_minima(&conv, threshold);
            let ghost cands = candidates_for_scale(sig, scale as int, t);
            proof {
                assert(conv@.map_values(|v: i64| v as int) == conv_spec(sig, kernel_spec(
                    scale as int)));
                assert(minima@.map_values(|p: (usize, i64)| (p.0 as int, p.1 as int))
                    == minima_spec(conv_spec(sig, kernel_spec(scale as int)), t));
                assert(cands.len() == minima@.len());
                lemma_minima_count(conv_spec(sig, kernel_spec(scale as int)), t,
                    conv_spec(sig, kernel_spec(scale as int)).len() as int);
            }
            let ghost pool_before = pool@;
            let mut mi: usize = 0;
            while mi < minima.len()
                invariant
                    sig == signal@.map_values(|v: i64| v as int),
                    t == threshold as int,
                    threshold <= 0,
                    signal.len() <= MAX_SIGNAL_LEN,
                    forall|i: int| 0 <= i < signal.len() ==> -SAMPLE_LIMIT <= #[trigger] signal@[i]
                        <= SAMPLE_LIMIT,
                    0 < scale <= MAX_SCALE,
                    cands == candidates_for_scale(sig, scale as int, t),
                    minima@.map_values(|p: (usize, i64)| (p.0 as int, p.1 as int)) == minima_spec(
                        conv_spec(sig, kernel_spec(scale as int)),
                        t,
                    ),
                    forall|j: int| 0 <= j < minima@.len() ==> {
                        let p = #[trigger] minima@[j];
                        &&& 0 < p.0
                        &&& p.0 + 1 < signal.len()
                        &&& p.1 <= threshold
                        &&& -RESPONSE_BOUND <= p.1 <= RESPONSE_BOUND
                    },
                    mi <= minima.len(),
                    cands.len() == minima@.len(),
                    pool@ == pool_before + cands.take(mi as int),
                    all_wf(pool@),
                    pool.len() == pool_before.len() + mi,
                decreases minima.len() - mi,
            {
                let (idx, v) = minima[mi];
                let sample = signal[idx];
                let cand = Peak {
                    width: scale as i128,
                    height: sample as i128,
                    prominence: -(v as i128),
                    pos: (idx as i128) * (SCALE as i128),
                };
                proof {
                    let mp = minima@.map_values(|p: (usize, i64)| (p.0 as int, p.1 as int));
                    assert(mp[mi as int] == (idx as int, v as int));
                    assert(cands[mi as int] == Peak {
                        width: (scale as int) as i128,
                        height: (sig[idx as int]) as i128,
                        prominence: (-(v as int)) as i128,
                        pos: ((idx as int) * (SCALE as int)) as i128,
                    });
                    assert(0 <= (idx as int) * (SCALE as int) <= 100_000_000_000_000)
                        by (nonlinear_arith)
                        requires 0 <= idx as int <= 100_000_000 && SCALE == 1_000_000;
                    assert(candidate_wf(cand));
                    assert(pool@.push(cand) =~= pool_before + cands.take(mi + 1));
                }
                pool.push(cand);
                mi = mi + 1;
            }
            proof {
                assert(cands.take(cands.len() as int) =~= cands);
                assert(pool@ == pool_spec(sig, self.scales@, t, si + 1));
                assert(pool.len() <= signal.len() * (si + 1)) by (nonlinear_arith)
                    requires
                        pool.len() == pool_before.len() + cands.len() && pool_before.len()
                            <= signal.len() * (si as int) && cands.len() <= signal.len();
            }
            si = si + 1;
        }
        proof {
            assert(pool.len() <= MAX_CANDIDATES) by (nonlinear_arith)
                requires
                    pool.len() <= signal.len() * (nscales as int) && signal.len() * (
                    nscales as int) <= MAX_CANDIDATES;
        }
        let peaks = cluster_candidates(pool, &self.config);
        Ok(peaks)
    }
}

/// A response of length `n` reports at most `n` minima.
proof fn lemma_minima_count(s: Seq<int>, t: int, n: int)
    requires
        0 <= n <= s.len(),
    ensures
        minima_upto(s, t, n).len() <= n,
    decreases n,
{
    if n > 1 {
        lemma_minima_count(s, t, n - 1);
    }
}

/// A perfectly flat, all-zero trace yields no peaks at all, whatever the
/// scale list: the baseline deviation is zero, so the threshold is zero,
/// every convolution response value is zero, and a reported minimum would
/// have to be strictly below its neighbours.
pub proof fn lemma_flat_trace_no_peaks(sig: Seq<int>, scales: Seq<i64>, c: DetectorConfig)
    requires
        forall|i: int| 0 <= i < sig.len() ==> #[trigger] sig[i] == 0,
    ensures
        detect_spec(sig, scales, c).len() == 0,
{
    let t = threshold_spec(sig, c.sigma_threshold_mult as int);
    lemma_flat_pool_empty(sig, scales, t, scales.len() as int);
    assert(pool_spec(sig, scales, t, scales.len() as int) =~= Seq::<Peak>::empty());
}

/// On an all-zero trace no scale produces a candidate: every minimum
/// would need a response value strictly below a neighbour, but all
/// response values are zero.
proof fn lemma_flat_pool_empty(sig: Seq<int>, scales: Seq<i64>, t: int, n: int)
    requires
        forall|i: int| 0 <= i < sig.len() ==> #[trigger] sig[i] == 0,
        n <= scales.len(),
    ensures
        pool_spec(sig, scales, t, n).len() == 0,
    decreases n,
{
    if n > 0 {
        lemma_flat_pool_empty(sig, scales, t, n - 1);
        let s = scales[n - 1] as int;
        let resp = conv_spec(sig, kernel_spec(s));
        assert(forall|ci: int| 0 <= ci < resp.len() ==> #[trigger] resp[ci]
            == crate::convolve::conv_at(sig, kernel_spec(s), ci));
        lemma_flat_conv_zero(sig, kernel_spec(s));
        lemma_no_minima_when_flat(resp, t);
        assert(candidates_for_scale(sig, s, t).len() == 0);
    }
}

/// Convolving an all-zero trace gives an all-zero response.
proof fn lemma_flat_conv_zero(sig: Seq<int>, k: Seq<int>)
    requires
        forall|i: int| 0 <= i < sig.len() ==> #[trigger] sig[i] == 0,
    ensures
        forall|ci: int| 0 <= ci < sig.len() ==> #[trigger] crate::convolve::conv_at(sig, k, ci)
            == 0,
{
    assert forall|ci: int| 0 <= ci < sig.len() implies #[trigger] crate::convolve::conv_at(
        sig,
        k,
        ci,
    ) == 0 by {
        lemma_flat_conv_sum_zero(sig, k, (k.len() - 1) as int / 2, ci, k.len());
        vstd::arithmetic::div_mod::lemma_basic_div(0, SCALE as int);
    }
}

proof fn lemma_flat_conv_sum_zero(sig: Seq<int>, k: Seq<int>, h: int, ci: int, j: nat)
    requires
        forall|i: int| 0 <= i < sig.len() ==> #[trigger] sig[i] == 0,
    ensures
        crate::convolve::conv_sum(sig, k, h, ci, j) == 0,
    decreases j,
{
    if j > 0 {
        lemma_flat_conv_sum_zero(sig, k, h, ci, (j - 1) as nat);
        assert(crate::convolve::padded(sig, ci + (j - 1) - h) == 0);
        assert(k[j - 1] * 0 == 0) by (nonlinear_arith);
    }
}

/// A constant response has no reported minima: no value is strictly below
/// its left neighbour.
proof fn lemma_no_minima_when_flat(resp: Seq<int>, t: int)
    requires
        forall|i: int| 0 <= i < resp.len() ==> #[trigger] resp[i] == 0,
    ensures
        minima_spec(resp, t).len() == 0,
{
    lemma_minima_chars(resp, t, resp.len() as int);
    if minima_spec(resp, t).len() > 0 {
        let p = minima_spec(resp, t)[0];
        assert(crate::extrema::is_minimum(resp, t, p.0));
    }
}

} // verus!
