use bitrate_optimizer::quality::{normalize, FLOOR_SCORE, RAW_FLOOR};

#[test]
fn below_floor_is_one_point() {
    assert_eq!(normalize(0), 1_000_000);
    assert_eq!(normalize(1_000_000), 1_000_000);
    assert_eq!(normalize(4_099_999), 1_000_000);
    assert_eq!(normalize(RAW_FLOOR - 1), FLOOR_SCORE as u128);
}

#[test]
fn floor_is_zero() {
    assert_eq!(normalize(4_100_000), 0);
}

#[test]
fn raw_width_stretched_onto_five_points() {
    // From the floor at 4.1 up to 4.75 the raw range spans five points.
    assert_eq!(normalize(4_750_000), 5_000_000);
    // 0.6 * 5 / 0.65 = 4.615384...
    assert_eq!(normalize(4_700_000), 4_615_384);
    // 0.9 * 5 / 0.65 = 6.923076...
    assert_eq!(normalize(5_000_000), 6_923_076);
    assert_eq!(normalize(4_230_000), 1_000_000);
}

#[test]
fn monotonic_above_floor() {
    let mut last = normalize(4_100_000);
    let mut raw: u64 = 4_100_000;
    while raw <= 5_000_000 {
        let n = normalize(raw);
        assert!(n >= last);
        last = n;
        raw += 1_237;
    }
}

#[test]
fn largest_raw_score_does_not_overflow() {
    let n = normalize(u64::MAX);
    assert_eq!(n, (u64::MAX as u128 - 4_100_000) * 5_000_000 / 650_000);
}
