use signal_pipeline::SCALE;
use signal_pipeline::kernel::{DetectError, generate_2dog_kernel};

fn argmin(k: &Vec<i64>) -> usize {
    let mut best: usize = 0;
    for i in 0..k.len() {
        if k[i] < k[best] {
            best = i;
        }
    }
    best
}

#[test]
fn print_2dog_kernel() {
    let kernel = generate_2dog_kernel(80 * SCALE).unwrap();
    assert_eq!(argmin(&kernel), kernel.len() / 2);
}

#[test]
fn kernel_minimum_at_center() {
    for scale in [SCALE, 2 * SCALE, 5 * SCALE, 10 * SCALE, 40 * SCALE] {
        let kernel = generate_2dog_kernel(scale).unwrap();
        assert_eq!(argmin(&kernel), kernel.len() / 2);
    }
}

#[test]
fn kernel_length_is_odd() {
    for (scale, len) in [
        (SCALE, 7),
        (2 * SCALE, 13),
        (5 * SCALE, 31),
        (10 * SCALE, 61),
        (80 * SCALE, 481),
        (2_500_000, 13),
        (500_000, 1),
    ] {
        let kernel = generate_2dog_kernel(scale).unwrap();
        assert_eq!(kernel.len(), len);
        assert_eq!(kernel.len() % 2, 1);
    }
}

#[test]
fn kernel_zero_mean_within_length() {
    for scale in [SCALE, 2 * SCALE, 5 * SCALE, 80 * SCALE] {
        let kernel = generate_2dog_kernel(scale).unwrap();
        let sum: i64 = kernel.iter().sum();
        assert!(sum.abs() < kernel.len() as i64);
    }
}

#[test]
fn kernel_exact_values_scale_two() {
    let kernel = generate_2dog_kernel(2 * SCALE).unwrap();
    let expected: Vec<i64> = vec![
        9330, 23473, 40961, 40942, 468, -65543, -99267, -65543, 468, 40942, 40961, 23473, 9330,
    ];
    assert_eq!(kernel, expected);
    let sum: i64 = kernel.iter().sum();
    assert_eq!(sum, -5);
}

#[test]
fn kernel_rejects_invalid_scale() {
    assert_eq!(generate_2dog_kernel(0), Err(DetectError::InvalidScale));
    assert_eq!(generate_2dog_kernel(-3 * SCALE), Err(DetectError::InvalidScale));
}

#[test]
fn kernel_is_deterministic() {
    for scale in [700_000, SCALE, 5 * SCALE, 80 * SCALE] {
        let a = generate_2dog_kernel(scale).unwrap();
        let b = generate_2dog_kernel(scale).unwrap();
        assert_eq!(a, b);
    }
}

#[test]
fn kernel_is_symmetric() {
    let kernel = generate_2dog_kernel(7 * SCALE).unwrap();
    let n = kernel.len();
    for i in 0..n {
        assert_eq!(kernel[i], kernel[n - 1 - i]);
    }
}
