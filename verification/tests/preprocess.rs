use signal_pipeline::preprocess::{MovingAverage, NoSmoothing, Smoother};

#[test]
fn k_0() {
    assert!(MovingAverage::new(0).is_none());
}

#[test]
fn k_1() {
    let expected: Vec<i64> = vec![0, 1_000_000, 2_000_000];
    let mut res = expected.clone();
    MovingAverage::new(1).unwrap().smooth(&mut res);
    assert_eq!(expected, res);
}

#[test]
fn k_2() {
    let expected: Vec<i64> = vec![500_000, 1_000_000, 1_500_000];
    let mut res = expected.clone();
    MovingAverage::new(1).unwrap().smooth(&mut res);
    assert_eq!(expected, res);
}

#[test]
fn k_3() {
    let expected: Vec<i64> = vec![1_000_000, 1_000_000, 1_000_000];
    let mut res = expected.clone();
    MovingAverage::new(1).unwrap().smooth(&mut res);
    assert_eq!(expected, res);
}

#[test]
fn moving_average_two_wide() {
    let mut res: Vec<i64> = vec![0, 1_000_000, 2_000_000];
    MovingAverage::new(2).unwrap().smooth(&mut res);
    // in place: each window mean reads already-smoothed values to its left
    assert_eq!(res, vec![500_000, 1_166_666, 1_583_333]);
}

#[test]
fn no_smoothing_is_identity() {
    let expected: Vec<i64> = vec![7, -3, 12, 0];
    let mut res = expected.clone();
    NoSmoothing.smooth(&mut res);
    assert_eq!(expected, res);
}
