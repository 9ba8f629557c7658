//! Peak clusterer: merges pooled per-scale candidates into consolidated
//! peaks by a single-linkage flood fill.
//!
//! Two candidates are adjacent when their positions differ by strictly
//! less than `max(grouping_constant * 0.5 * (width_a + width_b),
//! min_group_radius)`; the radius depends on the pair's own widths, so the
//! relation is not transitive, so the grouping follows a fixed
//! seed-and-absorb order: repeatedly seed a
//! cluster with the first remaining candidate, then absorb, in pool order
//! and through a last-in-first-out frontier, every remaining candidate
//! adjacent to some member. Each finished cluster is merged into one peak,
//! weighting width and height by prominence, summing the prominences, and
//! taking the position of the most prominent member (deliberately not a
//! prominence-weighted average).

use vstd::prelude::*;
use vstd::multiset::Multiset;
use crate::fixed::{SCALE, div_t, div_trunc, sum_int, lemma_div_t_exact};
use crate::kernel::MAX_SCALE;
use crate::convolve::{SAMPLE_LIMIT, RESPONSE_BOUND};

verus! {

/// Largest admissible candidate pool.
pub const MAX_CANDIDATES: usize = 100_000_000;

/// Largest admissible candidate position, in micro-units: the largest
/// signal index times `SCALE`.
pub const MAX_POSITION: i128 = 100_000_000_000_000;

/// A detected peak, in micro-units throughout: per-scale candidates and
/// merged results share this shape, as `width` doubles as the candidate's
/// scale and `pos` as its sample position.
#[derive(Debug, Clone, Copy, PartialEq, Eq, Structural)]
pub struct Peak {
    pub width: i128,
    pub height: i128,
    pub prominence: i128,
    pub pos: i128,
}

/// Configuration of the detector: the noise multiplier applied to the
/// baseline deviation, and the two constants of the merge radius, all in
/// micro-units.
#[derive(Debug, Clone, Copy, PartialEq, Eq, Structural)]
pub struct DetectorConfig {
    /// Multiplier of the baseline standard deviation; never positive.
    pub sigma_threshold_mult: i64,
    /// Factor applied to the mean width of a candidate pair.
    pub grouping_constant: i64,
    /// Smallest merge radius, in micro-units of position.
    pub min_group_radius: i64,
}

/// The documented default configuration: `-2.0`, `1.5` and `20.0` in
/// micro-units.
pub open spec fn default_config() -> DetectorConfig {
    DetectorConfig {
        sigma_threshold_mult: -2_000_000i64,
        grouping_constant: 1_500_000i64,
        min_group_radius: 20_000_000i64,
    }
}

impl Default for DetectorConfig {
    /// The documented defaults: `-2.0`, `1.5` and `20.0` in micro-units.
    fn default() -> (c: DetectorConfig)
        ensures
            c == default_config(),
    {
        DetectorConfig {
            sigma_threshold_mult: -2_000_000,
            grouping_constant: 1_500_000,
            min_group_radius: 20_000_000,
        }
    }
}

/// Well-formed configuration: the deviation multiplier is non-positive and
/// every constant is small enough for exact arithmetic.
pub open spec fn config_wf(c: DetectorConfig) -> bool {
    &&& crate::threshold::MIN_SIGMA_MULT <= c.sigma_threshold_mult <= 0
    &&& 0 <= c.grouping_constant <= 100_000_000
    &&& 0 <= c.min_group_radius <= 1_000_000_000_000
}

/// Well-formed candidate: non-negative width within the kernel factory's
/// limit, bounded height, non-negative prominence within the convolver's
/// response bound, and a position on the admissible signal range.
pub open spec fn candidate_wf(p: Peak) -> bool {
    &&& 0 <= p.width <= MAX_SCALE as int
    &&& -(SAMPLE_LIMIT as int) <= p.height <= SAMPLE_LIMIT as int
    &&& 0 <= p.prominence <= RESPONSE_BOUND as int
    &&& 0 <= p.pos <= MAX_POSITION as int
}

pub open spec fn all_wf(s: Seq<Peak>) -> bool {
    forall|i: int| 0 <= i < s.len() ==> candidate_wf(#[trigger] s[i])
}

pub open spec fn abs_i(a: int) -> int {
    if a >= 0 {
        a
    } else {
        -a
    }
}

pub open spec fn max_i(a: int, b: int) -> int {
    if a >= b {
        a
    } else {
        b
    }
}

/// The merge radius of a pair, scaled by `2 * SCALE` so the comparison is
/// exact in integers: `max(gc * (wa + wb), 2 * SCALE * mgr)` against
/// `2 * SCALE * |pos_a - pos_b|`.
pub open spec fn scaled_radius(c: DetectorConfig, a: Peak, b: Peak) -> int {
    max_i((c.grouping_constant as int) * (a.width + b.width),
        2 * (SCALE as int) * (c.min_group_radius as int))
}

/// Whether two candidates lie within each other's merge radius.
pub open spec fn adjacent(c: DetectorConfig, a: Peak, b: Peak) -> bool {
    2 * (SCALE as int) * abs_i(a.pos - b.pos) < scaled_radius(c, a, b)
}

/// The merge radius is symmetric in its two candidates.
pub proof fn lemma_adjacent_symmetric(c: DetectorConfig, a: Peak, b: Peak)
    ensures
        adjacent(c, a, b) == adjacent(c, b, a),
        scaled_radius(c, a, b) == scaled_radius(c, b, a),
{
}

/// The merge radius grows monotonically with the pair's average width.
pub proof fn lemma_radius_monotone(c: DetectorConfig, a: Peak, b: Peak, a2: Peak, b2: Peak)
    requires
        config_wf(c),
        a.width + b.width <= a2.width + b2.width,
    ensures
        scaled_radius(c, a, b) <= scaled_radius(c, a2, b2),
{
    assert((c.grouping_constant as int) * (a.width + b.width) <= (c.grouping_constant as int) * (
    a2.width + b2.width)) by (nonlinear_arith)
        requires c.grouping_constant >= 0 && a.width + b.width <= a2.width + b2.width;
}

/// Splits `pool` around a reference member `m`: the members adjacent to
/// `m` in pool order, and the rest in pool order.
pub open spec fn extract_adjacent(c: DetectorConfig, m: Peak, pool: Seq<Peak>) -> (Seq<Peak>, Seq<
    Peak,
>)
    decreases pool.len(),
{
    if pool.len() == 0 {
        (Seq::empty(), Seq::empty())
    } else {
        let e = extract_adjacent(c, m, pool.drop_last());
        if adjacent(c, m, pool.last()) {
            (e.0.push(pool.last()), e.1)
        } else {
            (e.0, e.1.push(pool.last()))
        }
    }
}

/// Extraction only redistributes the pool.
pub proof fn lemma_extract_lens(c: DetectorConfig, m: Peak, pool: Seq<Peak>)
    ensures
        extract_adjacent(c, m, pool).0.len() + extract_adjacent(c, m, pool).1.len() == pool.len(),
        extract_adjacent(c, m, pool).0.to_multiset().add(
            extract_adjacent(c, m, pool).1.to_multiset(),
        ) == pool.to_multiset(),
        all_wf(pool) ==> all_wf(extract_adjacent(c, m, pool).0) && all_wf(
            extract_adjacent(c, m, pool).1,
        ),
    decreases pool.len(),
{
    pool.to_multiset_ensures();
    if pool.len() == 0 {
        let e = extract_adjacent(c, m, pool);
        e.0.to_multiset_ensures();
        e.1.to_multiset_ensures();
        assert(pool.to_multiset() =~= Multiset::<Peak>::empty());
        assert(e.0.to_multiset().len() == 0);
        assert(e.0.to_multiset() =~= Multiset::<Peak>::empty());
        assert(e.1.to_multiset() =~= Multiset::<Peak>::empty());
    } else {
        let pp = pool.drop_last();
        lemma_extract_lens(c, m, pp);
        pp.to_multiset_ensures();
        let e = extract_adjacent(c, m, pp);
        e.0.to_multiset_ensures();
        e.1.to_multiset_ensures();
        assert(pool =~= pp.push(pool.last()));
        assert(pool.to_multiset() =~= pp.to_multiset().insert(pool.last()));
        if adjacent(c, m, pool.last()) {
            assert(e.0.push(pool.last()).to_multiset() =~= e.0.to_multiset().insert(pool.last()));
            assert(e.0.to_multiset().insert(pool.last()).add(e.1.to_multiset())
                =~= pp.to_multiset().insert(pool.last()));
        } else {
            assert(e.1.push(pool.last()).to_multiset() =~= e.1.to_multiset().insert(pool.last()));
            assert(e.0.to_multiset().add(e.1.to_multiset().insert(pool.last()))
                =~= pp.to_multiset().insert(pool.last()));
        }
        if all_wf(pool) {
            assert(all_wf(pp)) by {
                assert(forall|i: int| 0 <= i < pp.len() ==> pp[i] == pool[i]);
            }
            assert(candidate_wf(pool.last()));
        }
    }
}

/// One flood-fill round: repeatedly pop the frontier's last member, move
/// every remaining pool member adjacent to it into the frontier, and add
/// the popped member to the cluster. Returns the finished cluster and the
/// remaining pool.
pub open spec fn flood(c: DetectorConfig, queue: Seq<Peak>, pool: Seq<Peak>, group: Seq<Peak>) -> (
    Seq<Peak>,
    Seq<Peak>,
)
    decreases queue.len() + pool.len(),
    when queue.len() + pool.len() >= 0
    via flood_decreases
{
    if queue.len() == 0 {
        (group, pool)
    } else {
        let m = queue.last();
        let e = extract_adjacent(c, m, pool);
        flood(c, queue.drop_last() + e.0, e.1, group.push(m))
    }
}

#[via_fn]
proof fn flood_decreases(c: DetectorConfig, queue: Seq<Peak>, pool: Seq<Peak>, group: Seq<Peak>) {
    if queue.len() > 0 {
        lemma_extract_lens(c, queue.last(), pool);
    }
}

/// Flooding conserves the members: cluster plus remainder is frontier
/// plus pool plus the cluster so far, and well-formedness carries over.
pub proof fn lemma_flood_lens(c: DetectorConfig, queue: Seq<Peak>, pool: Seq<Peak>, group: Seq<
    Peak,
>)
    ensures
        flood(c, queue, pool, group).0.len() + flood(c, queue, pool, group).1.len() == queue.len()
            + pool.len() + group.len(),
        flood(c, queue, pool, group).1.len() <= pool.len(),
        all_wf(queue) && all_wf(pool) && all_wf(group) ==> all_wf(flood(c, queue, pool, group).0)
            && all_wf(flood(c, queue, pool, group).1),
    decreases queue.len() + pool.len(),
{
    if queue.len() > 0 {
        let m = queue.last();
        lemma_extract_lens(c, m, pool);
        let e = extract_adjacent(c, m, pool);
        lemma_flood_lens(c, queue.drop_last() + e.0, e.1, group.push(m));
        if all_wf(queue) && all_wf(pool) && all_wf(group) {
            assert(all_wf(queue.drop_last())) by {
                assert(forall|i: int| 0 <= i < queue.len() - 1 ==> queue.drop_last()[i]
                    == queue[i]);
            }
            assert(all_wf(queue.drop_last() + e.0)) by {
                let q2 = queue.drop_last() + e.0;
                assert(forall|i: int| 0 <= i < q2.len() ==> candidate_wf(#[trigger] q2[i])) by {
                    assert forall|i: int| 0 <= i < q2.len() implies candidate_wf(
                        #[trigger] q2[i],
                    ) by {
                        if i < queue.len() - 1 {
                            assert(q2[i] == queue.drop_last()[i]);
                        } else {
                            assert(q2[i] == e.0[i - (queue.len() - 1)]);
                        }
                    }
                }
            }
            assert(all_wf(group.push(m))) by {
                assert(forall|i: int| 0 <= i < group.len() ==> group.push(m)[i] == group[i]);
                assert(group.push(m).last() == m);
            }
        }
    }
}

/// Sum of the prominences of a cluster.
pub open spec fn sum_prom(g: Seq<Peak>) -> int {
    sum_int(g.map_values(|p: Peak| p.prominence as int))
}

/// Prominence-weighted sum of widths of a cluster.
pub open spec fn sum_wprom(g: Seq<Peak>) -> int {
    sum_int(g.map_values(|p: Peak| (p.width as int) * (p.prominence as int)))
}

/// Prominence-weighted sum of heights of a cluster.
pub open spec fn sum_hprom(g: Seq<Peak>) -> int {
    sum_int(g.map_values(|p: Peak| (p.height as int) * (p.prominence as int)))
}

/// The running (max prominence, position) pair over the first `n` members
/// of a cluster: the strict comparison keeps the earliest maximum, and an
/// all-zero-prominence cluster keeps position 0.
pub open spec fn best_state(g: Seq<Peak>, n: int) -> (int, int)
    decreases n,
{
    if n <= 0 {
        (0, 0)
    } else {
        let r = best_state(g, n - 1);
        if g[n - 1].prominence > r.0 {
            (g[n - 1].prominence as int, g[n - 1].pos as int)
        } else {
            r
        }
    }
}

/// The position of the most prominent member of a cluster.
pub open spec fn best_pos(g: Seq<Peak>) -> int {
    best_state(g, g.len() as int).1
}

/// The merged peak of a cluster: width and height are prominence-weighted
/// means (truncated), prominence is the exact sum, and the position is the
/// most prominent member's. A cluster with zero total prominence has no
/// meaningful mean and merges to zero width and height.
pub open spec fn merge_spec(g: Seq<Peak>) -> Peak {
    let t = sum_prom(g);
    if t > 0 {
        Peak {
            width: div_t(sum_wprom(g), t) as i128,
            height: div_t(sum_hprom(g), t) as i128,
            prominence: t as i128,
            pos: best_pos(g) as i128,
        }
    } else {
        Peak { width: 0, height: 0, prominence: 0, pos: best_pos(g) as i128 }
    }
}

/// The full clustering: while candidates remain, seed a cluster with the
/// first one, flood it, and merge it.
pub open spec fn cluster_spec(c: DetectorConfig, pool: Seq<Peak>) -> Seq<Peak>
    decreases pool.len(),
    when pool.len() >= 0
    via cluster_spec_decreases
{
    if pool.len() == 0 {
        Seq::empty()
    } else {
        let fr = flood(c, seq![pool.first()], pool.drop_first(), Seq::empty());
        seq![merge_spec(fr.0)] + cluster_spec(c, fr.1)
    }
}

#[via_fn]
proof fn cluster_spec_decreases(c: DetectorConfig, pool: Seq<Peak>) {
    if pool.len() > 0 {
        lemma_flood_lens(c, seq![pool.first()], pool.drop_first(), Seq::empty());
    }
}

/// Bounds of the partial weighted sums, for the executable merge.
proof fn lemma_merge_sums_bounds(g: Seq<Peak>, n: int)
    requires
        all_wf(g),
        0 <= n <= g.len(),
        g.len() <= MAX_CANDIDATES as int,
    ensures
        0 <= sum_int(g.map_values(|p: Peak| p.prominence as int).take(n)) <= n * (
        RESPONSE_BOUND as int),
        -(n * 200_000_000_000_000_000_000_000_000int) <= sum_int(
            g.map_values(|p: Peak| (p.width as int) * (p.prominence as int)).take(n),
        ) <= n * 200_000_000_000_000_000_000_000_000int,
        -(n * 100_000_000_000_000_000_000_000_000_000int) <= sum_int(
            g.map_values(|p: Peak| (p.height as int) * (p.prominence as int)).take(n),
        ) <= n * 100_000_000_000_000_000_000_000_000_000int,
    decreases n,
{
    let pm = g.map_values(|p: Peak| p.prominence as int);
    let wm = g.map_values(|p: Peak| (p.width as int) * (p.prominence as int));
    let hm = g.map_values(|p: Peak| (p.height as int) * (p.prominence as int));
    if n == 0 {
        assert(pm.take(0) =~= Seq::<int>::empty());
        assert(wm.take(0) =~= Seq::<int>::empty());
        assert(hm.take(0) =~= Seq::<int>::empty());
    } else {
        lemma_merge_sums_bounds(g, n - 1);
        assert(pm.take(n).drop_last() =~= pm.take(n - 1));
        assert(wm.take(n).drop_last() =~= wm.take(n - 1));
        assert(hm.take(n).drop_last() =~= hm.take(n - 1));
        let p = g[n - 1];
        assert(candidate_wf(p));
        assert(0 <= (p.width as int) * (p.prominence as int)
            <= 200_000_000_000_000_000_000_000_000int) by (nonlinear_arith)
            requires
                0 <= p.width <= 2_000_000_000int && 0 <= p.prominence
                    <= 96_008_000_000_000_000int;
        assert(-100_000_000_000_000_000_000_000_000_000int <= (p.height as int) * (
        p.prominence as int) <= 100_000_000_000_000_000_000_000_000_000int) by (nonlinear_arith)
            requires
                -1_000_000_000_000 <= p.height <= 1_000_000_000_000int && 0 <= p.prominence
                    <= 96_008_000_000_000_000int;
        assert((n - 1) * (RESPONSE_BOUND as int) + RESPONSE_BOUND as int == n * (
        RESPONSE_BOUND as int)) by (nonlinear_arith);
        assert((n - 1) * 200_000_000_000_000_000_000_000_000int
            + 200_000_000_000_000_000_000_000_000int
            == n * 200_000_000_000_000_000_000_000_000int) by (nonlinear_arith);
        assert((n - 1) * 100_000_000_000_000_000_000_000_000_000int
            + 100_000_000_000_000_000_000_000_000_000int
            == n * 100_000_000_000_000_000_000_000_000_000int) by (nonlinear_arith);
    }
}

/// A non-negative truncated weighted mean never exceeds the largest weight
/// seen; used to keep merged widths and heights in range.
proof fn lemma_weighted_mean_bound(num: int, t: int, m: int)
    requires
        t > 0,
        m >= 0,
        -(m * t) <= num <= m * t,
    ensures
        -m <= div_t(num, t) <= m,
{
    crate::fixed::lemma_div_t_bound(num, t, m);
}

/// Merges one cluster into a single peak, exactly `merge_spec`.
///
/// The merged prominence is the exact sum of the members' prominences;
/// width and height are prominence-weighted means; the position is the
/// position of the earliest member of maximum prominence — deliberately
/// not a prominence-weighted average.
pub fn combine_peaks(group: &Vec<Peak>) -> (r: Peak)
    requires
        all_wf(group@),
        group.len() <= MAX_CANDIDATES,
    ensures
        r == merge_spec(group@),
        r.prominence == sum_prom(group@),
{
    let ghost gv = group@;
    let ghost pm = gv.map_values(|p: Peak| p.prominence as int);
    let ghost wm = gv.map_values(|p: Peak| (p.width as int) * (p.prominence as int));
    let ghost hm = gv.map_values(|p: Peak| (p.height as int) * (p.prominence as int));
    let mut weighted_width: i128 = 0;
    let mut weighted_height: i128 = 0;
    let mut total_prominence: i128 = 0;
    let mut mp: i128 = 0;
    let mut best: i128 = 0;
    let mut i: usize = 0;
    while i < group.len()
        invariant
            gv == group@,
            pm == gv.map_values(|p: Peak| p.prominence as int),
            wm == gv.map_values(|p: Peak| (p.width as int) * (p.prominence as int)),
            hm == gv.map_values(|p: Peak| (p.height as int) * (p.prominence as int)),
            all_wf(gv),
            group.len() <= MAX_CANDIDATES,
            i <= group.len(),
            total_prominence as int == sum_int(pm.take(i as int)),
            weighted_width as int == sum_int(wm.take(i as int)),
            weighted_height as int == sum_int(hm.take(i as int)),
            0 <= total_prominence as int <= (i as int) * (RESPONSE_BOUND as int),
            -((i as int) * 200_000_000_000_000_000_000_000_000int) <= weighted_width as int
                <= (i as int) * 200_000_000_000_000_000_000_000_000int,
            -((i as int) * 100_000_000_000_000_000_000_000_000_000int) <= weighted_height as int
                <= (i as int) * 100_000_000_000_000_000_000_000_000_000int,
            (mp as int, best as int) == best_state(gv, i as int),
            0 <= mp <= RESPONSE_BOUND as int,
            0 <= best <= MAX_POSITION,
        decreases group.len() - i,
    {
        let p = group[i];
        proof {
            lemma_merge_sums_bounds(gv, i as int);
            lemma_merge_sums_bounds(gv, i + 1);
            assert(pm.take(i + 1).drop_last() =~= pm.take(i as int));
            assert(wm.take(i + 1).drop_last() =~= wm.take(i as int));
            assert(hm.take(i + 1).drop_last() =~= hm.take(i as int));
            assert(candidate_wf(gv[i as int]));
            assert(0 <= (p.width as int) * (p.prominence as int)
                <= 200_000_000_000_000_000_000_000_000int) by (nonlinear_arith)
                requires
                    0 <= p.width <= 2_000_000_000int && 0 <= p.prominence
                        <= 96_008_000_000_000_000int;
            assert(-100_000_000_000_000_000_000_000_000_000int <= (p.height as int) * (
            p.prominence as int) <= 100_000_000_000_000_000_000_000_000_000int)
                by (nonlinear_arith)
                requires
                    -1_000_000_000_000 <= p.height <= 1_000_000_000_000int && 0 <= p.prominence
                        <= 96_008_000_000_000_000int;
        }
        weighted_width = weighted_width + p.width * p.prominence;
        weighted_height = weighted_height + p.height * p.prominence;
        total_prominence = total_prominence + p.prominence;
        if p.prominence > mp {
            mp = p.prominence;
            best = p.pos;
        }
        i = i + 1;
    }
    proof {
        assert(pm.take(gv.len() as int) =~= pm);
        assert(wm.take(gv.len() as int) =~= wm);
        assert(hm.take(gv.len() as int) =~= hm);
    }
    if total_prominence > 0 {
        proof {
            assert(-(2_000_000_000i128 * total_prominence) <= weighted_width
                <= 2_000_000_000i128 * total_prominence) by {
                lemma_weighted_sum_member_bound_w(gv, gv.len() as int);
            }
            assert(-(1_000_000_000_000i128 * total_prominence) <= weighted_height
                <= 1_000_000_000_000i128 * total_prominence) by {
                lemma_weighted_sum_member_bound_h(gv, gv.len() as int);
            }
            lemma_weighted_mean_bound(weighted_width as int, total_prominence as int,
                2_000_000_000int);
            lemma_weighted_mean_bound(weighted_height as int, total_prominence as int,
                1_000_000_000_000int);
        }
        let w = div_trunc(weighted_width, total_prominence);
        let h = div_trunc(weighted_height, total_prominence);
        Peak { width: w, height: h, prominence: total_prominence, pos: best }
    } else {
        Peak { width: 0, height: 0, prominence: 0, pos: best }
    }
}

/// The weighted width sum of a well-formed cluster is bounded by the
/// widest admissible width times the prominence sum.
proof fn lemma_weighted_sum_member_bound_w(g: Seq<Peak>, n: int)
    requires
        all_wf(g),
        0 <= n <= g.len(),
    ensures
        -(2_000_000_000 * sum_int(g.map_values(|p: Peak| p.prominence as int).take(n))) <= sum_int(
            g.map_values(|p: Peak| (p.width as int) * (p.prominence as int)).take(n),
        ) <= 2_000_000_000 * sum_int(g.map_values(|p: Peak| p.prominence as int).take(n)),
    decreases n,
{
    let pm = g.map_values(|p: Peak| p.prominence as int);
    let wm = g.map_values(|p: Peak| (p.width as int) * (p.prominence as int));
    if n == 0 {
        assert(pm.take(0) =~= Seq::<int>::empty());
        assert(wm.take(0) =~= Seq::<int>::empty());
    } else {
        lemma_weighted_sum_member_bound_w(g, n - 1);
        assert(pm.take(n).drop_last() =~= pm.take(n - 1));
        assert(wm.take(n).drop_last() =~= wm.take(n - 1));
        let p = g[n - 1];
        assert(candidate_wf(p));
        assert(0 <= (p.width as int) * (p.prominence as int) <= 2_000_000_000 * (
        p.prominence as int)) by (nonlinear_arith)
            requires 0 <= p.width <= 2_000_000_000int && 0 <= p.prominence;
    }
}

/// The weighted height sum of a well-formed cluster is bounded by the
/// largest admissible magnitude times the prominence sum.
proof fn lemma_weighted_sum_member_bound_h(g: Seq<Peak>, n: int)
    requires
        all_wf(g),
        0 <= n <= g.len(),
    ensures
        -(1_000_000_000_000 * sum_int(g.map_values(|p: Peak| p.prominence as int).take(n)))
            <= sum_int(g.map_values(|p: Peak| (p.height as int) * (p.prominence as int)).take(n))
            <= 1_000_000_000_000 * sum_int(g.map_values(|p: Peak| p.prominence as int).take(n)),
    decreases n,
{
    let pm = g.map_values(|p: Peak| p.prominence as int);
    let hm = g.map_values(|p: Peak| (p.height as int) * (p.prominence as int));
    if n == 0 {
        assert(pm.take(0) =~= Seq::<int>::empty());
        assert(hm.take(0) =~= Seq::<int>::empty());
    } else {
        lemma_weighted_sum_member_bound_h(g, n - 1);
        assert(pm.take(n).drop_last() =~= pm.take(n - 1));
        assert(hm.take(n).drop_last() =~= hm.take(n - 1));
        let p = g[n - 1];
        assert(candidate_wf(p));
        assert(-(1_000_000_000_000 * (p.prominence as int)) <= (p.height as int) * (
        p.prominence as int) <= 1_000_000_000_000 * (p.prominence as int)) by (nonlinear_arith)
            requires -1_000_000_000_000 <= p.height <= 1_000_000_000_000int && 0 <= p.prominence;
    }
}

/// Clusters the pooled candidates and merges each cluster, exactly
/// `cluster_spec` over the pool in its given order.
pub fn cluster_candidates(pool: Vec<Peak>, config: &DetectorConfig) -> (r: Vec<Peak>)
    requires
        config_wf(*config),
        all_wf(pool@),
        pool.len() <= MAX_CANDIDATES,
    ensures
        r@ == cluster_spec(*config, pool@),
{
    let ghost pool0 = pool@;
    let mut pool = pool;
    let mut out: Vec<Peak> = Vec::new();
    proof {
        assert(out@ + cluster_spec(*config, pool@) =~= cluster_spec(*config, pool0));
    }
    while pool.len() > 0
        invariant
            config_wf(*config),
            all_wf(pool@),
            pool.len() <= MAX_CANDIDATES,
            cluster_spec(*config, pool0) == out@ + cluster_spec(*config, pool@),
        decreases pool.len(),
    {
        let ghost pool_entry = pool@;
        let seed = pool.remove(0);
        proof {
            assert(pool@ =~= pool_entry.drop_first());
            assert(all_wf(pool@)) by {
                assert(forall|i: int| 0 <= i < pool@.len() ==> pool@[i] == pool_entry[i + 1]);
            }
            assert(candidate_wf(seed));
        }
        let mut queue: Vec<Peak> = Vec::new();
        queue.push(seed);
        let mut group: Vec<Peak> = Vec::new();
        let ghost target = flood(*config, queue@, pool@, group@);
        proof {
            assert(queue@ =~= seq![pool_entry.first()]);
            assert(group@ =~= Seq::<Peak>::empty());
            lemma_flood_lens(*config, queue@, pool@, group@);
        }
        while queue.len() > 0
            invariant
                config_wf(*config),
                all_wf(queue@),
                all_wf(pool@),
                all_wf(group@),
                queue.len() + pool.len() + group.len() <= MAX_CANDIDATES,
                flood(*config, queue@, pool@, group@) == target,
            decreases queue.len() + pool.len(),
        {
            let ghost q_entry = queue@;
            let ghost p_entry = pool@;
            let ghost g_entry = group@;
            let m = queue.pop().unwrap();
            proof {
                assert(queue@ =~= q_entry.drop_last());
                assert(m == q_entry.last());
                assert(candidate_wf(m));
            }
            let mut kept: Vec<Peak> = Vec::new();
            let mut found: Vec<Peak> = Vec::new();
            let mut i: usize = 0;
            while i < pool.len()
                invariant
                    config_wf(*config),
                    all_wf(pool@),
                    candidate_wf(m),
                    i <= pool.len(),
                    (found@, kept@) == extract_adjacent(*config, m, pool@.take(i as int)),
                    found.len() + kept.len() == i,
                decreases pool.len() - i,
            {
                let p = pool[i];
                proof {
                    assert(candidate_wf(pool@[i as int]));
                    assert(pool@.take(i + 1).drop_last() =~= pool@.take(i as int));
                    assert(pool@.take(i + 1).last() == pool@[i as int]);
                }
                let dist: i128 = if p.pos >= m.pos {
                    p.pos - m.pos
                } else {
                    m.pos - p.pos
                };
                let wsum: i128 = m.width + p.width;
                proof {
                    assert(0 <= dist <= 200_000_000_000_000i128);
                    assert(0 <= (config.grouping_constant as int) * (wsum as int)
                        <= 100_000_000 * 4_000_000_000i128) by (nonlinear_arith)
                        requires
                            0 <= config.grouping_constant as int <= 100_000_000 && 0 <= wsum as int
                                <= 4_000_000_000;
                }
                let lhs: i128 = 2 * (SCALE as i128) * dist;
                let gc_term: i128 = (config.grouping_constant as i128) * wsum;
                let mgr_term: i128 = 2 * (SCALE as i128) * (config.min_group_radius as i128);
                let radius: i128 = if gc_term >= mgr_term {
                    gc_term
                } else {
                    mgr_term
                };
                proof {
                    assert(lhs as int == 2 * (SCALE as int) * abs_i(m.pos - p.pos))
                        by (nonlinear_arith)
                        requires
                            lhs as int == 2 * (SCALE as int) * (dist as int) && dist as int
                                == abs_i(m.pos as int - p.pos as int) && 0 <= dist as int;
                    assert(radius as int == scaled_radius(*config, m, pool@[i as int]));
                }
                if lhs < radius {
                    proof {
                        assert(adjacent(*config, m, pool@[i as int]));
                    }
                    found.push(p);
                } else {
                    proof {
                        assert(!adjacent(*config, m, pool@[i as int]));
                    }
                    kept.push(p);
                }
                i = i + 1;
            }
            proof {
                assert(pool@.take(pool@.len() as int) =~= pool@);
                lemma_extract_lens(*config, m, pool@);
                assert(all_wf(found@) && all_wf(kept@));
            }
            queue.append(&mut found);
            pool = kept;
            group.push(m);
            proof {
                assert(queue@ == q_entry.drop_last() + extract_adjacent(*config, m,
                    p_entry).0);
                assert(pool@ == extract_adjacent(*config, m, p_entry).1);
                assert(group@ == g_entry.push(m));
                assert(all_wf(queue@)) by {
                    let q2 = q_entry.drop_last() + extract_adjacent(*config, m, p_entry).0;
                    assert forall|j: int| 0 <= j < q2.len() implies candidate_wf(
                        #[trigger] q2[j],
                    ) by {
                        if j < q_entry.len() - 1 {
                            assert(q2[j] == q_entry[j]);
                        } else {
                            assert(q2[j] == extract_adjacent(*config, m, p_entry).0[j - (
                            q_entry.len() - 1)]);
                        }
                    }
                }
                assert(all_wf(group@)) by {
                    assert(forall|j: int| 0 <= j < g_entry.len() ==> group@[j] == g_entry[j]);
                    assert(group@.last() == m);
                }
                lemma_extract_lens(*config, m, p_entry);
                assert(flood(*config, queue@, pool@, group@) == flood(*config, q_entry, p_entry,
                    g_entry));
            }
        }
        proof {
            assert(flood(*config, queue@, pool@, group@) == (group@, pool@));
            assert(group@ == target.0 && pool@ == target.1);
            lemma_flood_lens(*config, seq![pool_entry.first()], pool_entry.drop_first(),
                Seq::<Peak>::empty());
            assert(all_wf(group@) && all_wf(pool@));
        }
        let merged = combine_peaks(&group);
        out.push(merged);
        proof {
            assert(cluster_spec(*config, pool_entry) == seq![merge_spec(target.0)]
                + cluster_spec(*config, target.1));
            assert(out@ =~= (out@.drop_last()).push(merged));
            assert(cluster_spec(*config, pool0) == out@ + cluster_spec(*config, pool@)) by {
                assert(out@.drop_last() + (seq![merge_spec(target.0)] + cluster_spec(*config,
                    target.1)) =~= out@ + cluster_spec(*config, pool@));
            }
        }
    }
    proof {
        assert(cluster_spec(*config, pool@) =~= Seq::<Peak>::empty());
        assert(out@ + cluster_spec(*config, pool@) =~= out@);
    }
    out
}

/// The prominences of a well-formed cluster sum to a non-negative total.
pub proof fn lemma_sum_prom_nonneg(g: Seq<Peak>)
    requires
        all_wf(g),
    ensures
        sum_prom(g) >= 0,
    decreases g.len(),
{
    let pm = g.map_values(|p: Peak| p.prominence as int);
    if g.len() > 0 {
        assert(all_wf(g.drop_last())) by {
            assert(forall|i: int| 0 <= i < g.len() - 1 ==> g.drop_last()[i] == g[i]);
        }
        lemma_sum_prom_nonneg(g.drop_last());
        assert(pm.drop_last() =~= g.drop_last().map_values(|p: Peak| p.prominence as int));
        assert(candidate_wf(g.last()));
        assert(pm.last() == g.last().prominence as int);
    }
}

/// Merged-peak prominence equals the exact sum of its constituent
/// candidates' prominences.
pub proof fn lemma_merge_prominence_sum(g: Seq<Peak>)
    requires
        all_wf(g),
        g.len() <= MAX_CANDIDATES as int,
    ensures
        merge_spec(g).prominence == sum_prom(g),
{
    lemma_sum_prom_nonneg(g);
    lemma_merge_sums_bounds(g, g.len() as int);
    assert(g.map_values(|p: Peak| p.prominence as int).take(g.len() as int) =~= g.map_values(
        |p: Peak| p.prominence as int,
    ));
    assert((g.len() as int) * (RESPONSE_BOUND as int) <= 100_000_000 * (RESPONSE_BOUND as int))
        by (nonlinear_arith)
        requires g.len() <= 100_000_000;
}

/// Removing one member takes exactly its prominence out of the sum.
proof fn lemma_sum_prom_remove(g: Seq<Peak>, i: int)
    requires
        0 <= i < g.len(),
    ensures
        sum_prom(g) == sum_prom(g.remove(i)) + g[i].prominence,
{
    let pm = g.map_values(|p: Peak| p.prominence as int);
    assert(g.remove(i).map_values(|p: Peak| p.prominence as int) =~= pm.remove(i));
    crate::fixed::lemma_sum_int_remove(pm, i);
}

/// The prominence sum of a cluster depends only on which candidates it
/// holds, not on their order: summation is associative and commutative in
/// exact integer arithmetic.
pub proof fn lemma_sum_prom_permutation(g1: Seq<Peak>, g2: Seq<Peak>)
    requires
        g1.to_multiset() == g2.to_multiset(),
    ensures
        sum_prom(g1) == sum_prom(g2),
    decreases g1.len(),
{
    g1.to_multiset_ensures();
    g2.to_multiset_ensures();
    if g1.len() == 0 {
        assert(g2.len() == 0);
        assert(g2.map_values(|p: Peak| p.prominence as int) =~= Seq::<int>::empty());
        assert(g1.map_values(|p: Peak| p.prominence as int) =~= Seq::<int>::empty());
    } else {
        let x = g1.last();
        assert(g1.to_multiset().contains(x));
        assert(g2.to_multiset().contains(x));
        let j = choose|j: int| 0 <= j < g2.len() && g2[j] == x;
        let g1r = g1.drop_last();
        let g2r = g2.remove(j);
        assert(g1.remove(g1.len() - 1) =~= g1r);
        assert(g1r.to_multiset() =~= g1.to_multiset().remove(x));
        assert(g2r.to_multiset() =~= g2.to_multiset().remove(x));
        lemma_sum_prom_permutation(g1r, g2r);
        lemma_sum_prom_remove(g2, j);
        lemma_sum_prom_remove(g1, g1.len() - 1);
    }
}

/// Two candidates whose scaled distance equals the scaled merge radius
/// exactly are not adjacent: the merge test is a strict inequality.
pub proof fn lemma_boundary_not_adjacent(c: DetectorConfig, a: Peak, b: Peak)
    requires
        2 * (SCALE as int) * abs_i(a.pos - b.pos) == scaled_radius(c, a, b),
    ensures
        !adjacent(c, a, b),
{
}

/// Clustering a pool of exactly two candidates: they merge into a single
/// peak exactly when they are adjacent, and stay two peaks otherwise.
pub proof fn lemma_pair_clusters(c: DetectorConfig, a: Peak, b: Peak)
    ensures
        adjacent(c, a, b) ==> cluster_spec(c, seq![a, b]) == seq![merge_spec(seq![a, b])],
        !adjacent(c, a, b) ==> cluster_spec(c, seq![a, b]) == seq![
            merge_spec(seq![a]),
            merge_spec(seq![b]),
        ],
{
    reveal_with_fuel(extract_adjacent, 4);
    reveal_with_fuel(flood, 4);
    reveal_with_fuel(cluster_spec, 4);
    let pool = seq![a, b];
    assert(pool.first() == a);
    assert(pool.drop_first() =~= seq![b]);
    let e1 = extract_adjacent(c, a, seq![b]);
    assert(seq![b].drop_last() =~= Seq::<Peak>::empty());
    assert(seq![b].last() == b);
    if adjacent(c, a, b) {
        assert(e1 == (Seq::<Peak>::empty().push(b), Seq::<Peak>::empty()));
        assert(Seq::<Peak>::empty().push(b) =~= seq![b]);
        let q1 = seq![a].drop_last() + seq![b];
        assert(q1 =~= seq![b]);
        let fr = flood(c, seq![a], seq![b], Seq::<Peak>::empty());
        assert(fr == flood(c, seq![b], Seq::<Peak>::empty(), seq![a])) by {
            assert(Seq::<Peak>::empty().push(a) =~= seq![a]);
            assert(seq![a].last() == a);
            assert(extract_adjacent(c, a, seq![b]).1 =~= Seq::<Peak>::empty());
        }
        let e2 = extract_adjacent(c, b, Seq::<Peak>::empty());
        assert(e2 == (Seq::<Peak>::empty(), Seq::<Peak>::empty()));
        assert(flood(c, seq![b], Seq::<Peak>::empty(), seq![a]) == flood(
            c,
            seq![b].drop_last() + Seq::<Peak>::empty(),
            Seq::<Peak>::empty(),
            seq![a].push(b),
        )) by {
            assert(seq![b].last() == b);
        }
        assert(seq![b].drop_last() + Seq::<Peak>::empty() =~= Seq::<Peak>::empty());
        assert(seq![a].push(b) =~= seq![a, b]);
        assert(flood(c, Seq::<Peak>::empty(), Seq::<Peak>::empty(), seq![a, b]) == (
            seq![a, b],
            Seq::<Peak>::empty(),
        ));
        assert(fr == (seq![a, b], Seq::<Peak>::empty()));
        assert(cluster_spec(c, Seq::<Peak>::empty()) =~= Seq::<Peak>::empty());
        assert(cluster_spec(c, pool) =~= seq![merge_spec(seq![a, b])]);
    } else {
        assert(e1 == (Seq::<Peak>::empty(), Seq::<Peak>::empty().push(b)));
        assert(Seq::<Peak>::empty().push(b) =~= seq![b]);
        let fr = flood(c, seq![a], seq![b], Seq::<Peak>::empty());
        assert(fr == flood(c, seq![a].drop_last() + Seq::<Peak>::empty(), seq![b],
            Seq::<Peak>::empty().push(a))) by {
            assert(seq![a].last() == a);
        }
        assert(seq![a].drop_last() + Seq::<Peak>::empty() =~= Seq::<Peak>::empty());
        assert(Seq::<Peak>::empty().push(a) =~= seq![a]);
        assert(flood(c, Seq::<Peak>::empty(), seq![b], seq![a]) == (seq![a], seq![b]));
        assert(fr == (seq![a], seq![b]));
        // second cluster: the pool is now the singleton `b`
        let e3 = extract_adjacent(c, b, Seq::<Peak>::empty());
        assert(seq![b].first() == b);
        assert(seq![b].drop_first() =~= Seq::<Peak>::empty());
        let fr2 = flood(c, seq![b], Seq::<Peak>::empty(), Seq::<Peak>::empty());
        assert(fr2 == flood(c, seq![b].drop_last() + Seq::<Peak>::empty(), Seq::<Peak>::empty(),
            Seq::<Peak>::empty().push(b))) by {
            assert(seq![b].last() == b);
        }
        assert(seq![b].drop_last() + Seq::<Peak>::empty() =~= Seq::<Peak>::empty());
        assert(Seq::<Peak>::empty().push(b) =~= seq![b]);
        assert(fr2 == (seq![b], Seq::<Peak>::empty()));
        assert(cluster_spec(c, Seq::<Peak>::empty()) =~= Seq::<Peak>::empty());
        assert(cluster_spec(c, seq![b]) =~= seq![merge_spec(seq![b])]);
        assert(cluster_spec(c, pool) =~= seq![merge_spec(seq![a])] + seq![merge_spec(seq![b])]);
        assert(seq![merge_spec(seq![a])] + seq![merge_spec(seq![b])] =~= seq![
            merge_spec(seq![a]),
            merge_spec(seq![b]),
        ]);
    }
}

/// Merging a singleton cluster returns its member unchanged: the weighted
/// means of one member divide out exactly, the prominence sum is the
/// member's own, and the position is the member's.
pub proof fn lemma_merge_singleton(p: Peak)
    requires
        candidate_wf(p),
        p.prominence > 0,
    ensures
        merge_spec(seq![p]) == p,
{
    reveal_with_fuel(crate::fixed::sum_int, 3);
    reveal_with_fuel(best_state, 3);
    let g = seq![p];
    let pm = g.map_values(|q: Peak| q.prominence as int);
    let wm = g.map_values(|q: Peak| (q.width as int) * (q.prominence as int));
    let hm = g.map_values(|q: Peak| (q.height as int) * (q.prominence as int));
    assert(pm =~= seq![p.prominence as int]);
    assert(wm =~= seq![(p.width as int) * (p.prominence as int)]);
    assert(hm =~= seq![(p.height as int) * (p.prominence as int)]);
    assert(pm.drop_last() =~= Seq::<int>::empty());
    assert(wm.drop_last() =~= Seq::<int>::empty());
    assert(hm.drop_last() =~= Seq::<int>::empty());
    assert(sum_prom(g) == p.prominence as int);
    assert(sum_wprom(g) == (p.width as int) * (p.prominence as int));
    assert(sum_hprom(g) == (p.height as int) * (p.prominence as int));
    lemma_div_t_exact(p.width as int, p.prominence as int);
    lemma_div_t_exact(p.height as int, p.prominence as int);
    assert(best_state(g, 1) == (p.prominence as int, p.pos as int));
}

/// Re-running clustering on a single already-merged peak returns that
/// peak unchanged: a singleton pool floods to a singleton cluster, and
/// merging it is the identity.
pub proof fn lemma_cluster_singleton_idempotent(c: DetectorConfig, p: Peak)
    requires
        candidate_wf(p),
        p.prominence > 0,
    ensures
        cluster_spec(c, seq![p]) == seq![p],
{
    reveal_with_fuel(extract_adjacent, 4);
    reveal_with_fuel(flood, 4);
    reveal_with_fuel(cluster_spec, 4);
    let pool = seq![p];
    assert(pool.first() == p);
    assert(pool.drop_first() =~= Seq::<Peak>::empty());
    let fr = flood(c, seq![p], Seq::<Peak>::empty(), Seq::<Peak>::empty());
    assert(fr == flood(c, seq![p].drop_last() + Seq::<Peak>::empty(), Seq::<Peak>::empty(),
        Seq::<Peak>::empty().push(p))) by {
        assert(seq![p].last() == p);
    }
    assert(seq![p].drop_last() + Seq::<Peak>::empty() =~= Seq::<Peak>::empty());
    assert(Seq::<Peak>::empty().push(p) =~= seq![p]);
    assert(fr == (seq![p], Seq::<Peak>::empty()));
    assert(cluster_spec(c, Seq::<Peak>::empty()) =~= Seq::<Peak>::empty());
    lemma_merge_singleton(p);
    assert(cluster_spec(c, pool) =~= seq![p]);
}

} // verus!
