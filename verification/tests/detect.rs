use signal_pipeline::SCALE;
use signal_pipeline::convolve::convolve_same;
use signal_pipeline::detect::{DDOGPeakDetector, PeakDetector};
use signal_pipeline::extrema::find_minima;
use signal_pipeline::kernel::DetectError;
use signal_pipeline::threshold::estimate_threshold;

#[test]
fn threshold_exact_value() {
    let trace: Vec<i64> = vec![0, 1_000_000, 2_000_000, 3_000_000, 4_000_000];
    assert_eq!(estimate_threshold(&trace, -2_000_000), -3_162_276);
}

#[test]
fn threshold_of_flat_trace_is_zero() {
    let trace: Vec<i64> = vec![0; 400];
    assert_eq!(estimate_threshold(&trace, -2_000_000), 0);
}

#[test]
fn threshold_of_short_trace_is_zero() {
    let trace: Vec<i64> = vec![5_000_000];
    assert_eq!(estimate_threshold(&trace, -2_000_000), 0);
}

#[test]
fn convolve_exact_values() {
    let signal: Vec<i64> = vec![1_000_000, 2_000_000, 3_000_000];
    let kernel: Vec<i64> = vec![1_000_000, 0, -1_000_000];
    let response = convolve_same(&signal, &kernel);
    assert_eq!(response, vec![-2_000_000, -2_000_000, 2_000_000]);
}

#[test]
fn convolve_keeps_length_for_short_signal() {
    let signal: Vec<i64> = vec![4_000_000];
    let kernel: Vec<i64> = vec![1_000_000, 2_000_000, 1_000_000];
    let response = convolve_same(&signal, &kernel);
    assert_eq!(response.len(), 1);
    assert_eq!(response, vec![8_000_000]);
}

#[test]
fn minima_exact() {
    let data: Vec<i64> = vec![5, -10, 3, -8, 2];
    let found = find_minima(&data, 0);
    assert_eq!(found, vec![(1usize, -10i64), (3usize, -8i64)]);
}

#[test]
fn minima_never_at_edges() {
    let data: Vec<i64> = vec![-10, -5, -10];
    let found = find_minima(&data, 0);
    assert_eq!(found.len(), 0);
}

#[test]
fn flat_trace_yields_no_peaks() {
    let trace: Vec<i64> = vec![0; 500];
    for scales in [vec![5 * SCALE], vec![5 * SCALE, 10 * SCALE, 20 * SCALE], vec![SCALE]] {
        let detector = DDOGPeakDetector::new(scales);
        let peaks = detector.detect_peaks(&trace).unwrap();
        assert_eq!(peaks.len(), 0);
    }
}

#[test]
fn gaussian_bump_yields_single_peak() {
    // a clean baseline, then one Gaussian bump of deviation 5 at index 400
    let mut trace: Vec<i64> = Vec::new();
    for i in 0..600 {
        let x = (i - 400) as f64;
        let g = 1_000_000_000.0_f64 * (-(x * x) / 50.0).exp();
        trace.push(g as i64);
    }
    let detector = DDOGPeakDetector::new(vec![5 * SCALE, 10 * SCALE]);
    let peaks = detector.detect_peaks(&trace).unwrap();
    assert_eq!(peaks.len(), 1);
    let peak = &peaks[0];
    assert!((peak.pos - 400 * SCALE as i128).abs() <= 2 * SCALE as i128);
    assert!(peak.prominence > 0);
    assert_eq!(peak.height, 1_000_000_000);
}

#[test]
fn invalid_scale_fails_fast() {
    let trace: Vec<i64> = vec![0; 100];
    let detector = DDOGPeakDetector::new(vec![5 * SCALE, 0]);
    assert_eq!(detector.detect_peaks(&trace), Err(DetectError::InvalidScale));
}
