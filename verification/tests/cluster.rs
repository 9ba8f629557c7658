use signal_pipeline::SCALE;
use signal_pipeline::cluster::{DetectorConfig, Peak, cluster_candidates, combine_peaks};

fn candidate(width_units: i128, height_units: i128, prominence: i128, pos_units: i128) -> Peak {
    Peak {
        width: width_units * SCALE as i128,
        height: height_units * SCALE as i128,
        prominence,
        pos: pos_units * SCALE as i128,
    }
}

#[test]
fn merged_prominence_is_exact_sum() {
    let pool = vec![
        candidate(10, 5, 3_000_000, 100),
        candidate(10, 6, 4_000_000, 110),
        candidate(12, 7, 5_000_000, 118),
    ];
    let peaks = cluster_candidates(pool, &DetectorConfig::default());
    assert_eq!(peaks.len(), 1);
    assert_eq!(peaks[0].prominence, 3_000_000 + 4_000_000 + 5_000_000);
    // prominence-weighted means, truncated
    assert_eq!(peaks[0].width, 10_833_333);
    assert_eq!(peaks[0].height, 6_166_666);
    // position of the most prominent member, not a weighted average
    assert_eq!(peaks[0].pos, 118 * SCALE as i128);
}

#[test]
fn merged_prominence_sum_is_order_independent() {
    let a = candidate(10, 5, 3_000_000, 100);
    let b = candidate(10, 6, 4_000_000, 110);
    let c = candidate(12, 7, 5_000_000, 118);
    let p1 = cluster_candidates(vec![a, b, c], &DetectorConfig::default());
    let p2 = cluster_candidates(vec![c, a, b], &DetectorConfig::default());
    assert_eq!(p1.len(), 1);
    assert_eq!(p2.len(), 1);
    assert_eq!(p1[0].prominence, p2[0].prominence);
}

#[test]
fn boundary_pair_is_not_merged() {
    // widths 10 and 10: radius = max(1.5 * 0.5 * 20, 20) = 20 units exactly
    let a = candidate(10, 5, 3_000_000, 100);
    let b = candidate(10, 6, 4_000_000, 120);
    let peaks = cluster_candidates(vec![a, b], &DetectorConfig::default());
    assert_eq!(peaks.len(), 2);
    assert_eq!(peaks[0], a);
    assert_eq!(peaks[1], b);
}

#[test]
fn pair_one_unit_closer_is_merged() {
    let a = candidate(10, 5, 3_000_000, 100);
    let b = candidate(10, 6, 4_000_000, 119);
    let peaks = cluster_candidates(vec![a, b], &DetectorConfig::default());
    assert_eq!(peaks.len(), 1);
    assert_eq!(peaks[0].prominence, 7_000_000);
    assert_eq!(peaks[0].pos, 119 * SCALE as i128);
    assert_eq!(peaks[0].width, 10 * SCALE as i128);
    assert_eq!(peaks[0].height, 5_571_428);
}

#[test]
fn wide_pair_uses_width_radius() {
    // widths 20 and 20: radius = 1.5 * 0.5 * 40 = 30 units > 20
    let a = candidate(20, 5, 3_000_000, 100);
    let b = candidate(20, 6, 4_000_000, 129);
    let peaks = cluster_candidates(vec![a, b], &DetectorConfig::default());
    assert_eq!(peaks.len(), 1);
}

#[test]
fn singleton_clustering_is_idempotent() {
    let merged = cluster_candidates(
        vec![candidate(10, 5, 3_000_000, 100)],
        &DetectorConfig::default(),
    );
    assert_eq!(merged.len(), 1);
    let again = cluster_candidates(merged.clone(), &DetectorConfig::default());
    assert_eq!(again, merged);
}

#[test]
fn empty_pool_yields_no_peaks() {
    let peaks = cluster_candidates(Vec::new(), &DetectorConfig::default());
    assert_eq!(peaks.len(), 0);
}

#[test]
fn combine_peaks_exact() {
    let group = vec![
        candidate(10, 5, 3_000_000, 100),
        candidate(10, 6, 4_000_000, 110),
        candidate(12, 7, 5_000_000, 118),
    ];
    let merged = combine_peaks(&group);
    assert_eq!(merged.prominence, 12_000_000);
    assert_eq!(merged.width, 10_833_333);
    assert_eq!(merged.height, 6_166_666);
    assert_eq!(merged.pos, 118 * SCALE as i128);
}
