use bitrate_optimizer::decimal::{parse_fixed, parse_natural};
use bitrate_optimizer::metric::{parse_score, ScoreError};

#[test]
fn score_is_first_decimal_number() {
    assert_eq!(parse_score("MOS-LQO:\t\t4.123456789\n"), Ok(4_123_456));
    assert_eq!(parse_score("score 3.5 then 4.5"), Ok(3_500_000));
    assert_eq!(parse_score("4.75"), Ok(4_750_000));
    assert_eq!(parse_score("qualit\u{e9} \u{2192} 3.25"), Ok(3_250_000));
}

#[test]
fn score_match_takes_whole_digit_runs() {
    // The match starts at the digits before the first point.
    assert_eq!(parse_score("v12.25x"), Ok(12_250_000));
    assert_eq!(parse_score("1.2.3"), Ok(1_200_000));
    assert_eq!(parse_score("x .5"), Ok(500_000));
    assert_eq!(parse_score("7. done"), Ok(7_000_000));
}

#[test]
fn output_without_score() {
    assert_eq!(parse_score("error: cannot open file"), Err(ScoreError::NoScore));
    assert_eq!(parse_score(""), Err(ScoreError::NoScore));
}

#[test]
fn point_without_digits_is_malformed() {
    assert_eq!(parse_score("done. 4.2"), Err(ScoreError::Malformed));
    assert_eq!(parse_score("99999999999999999999.0"), Err(ScoreError::Malformed));
}

#[test]
fn fixed_point_reading() {
    assert_eq!(parse_fixed(b"12.5", 3), Some(12_500));
    assert_eq!(parse_fixed(b".5", 3), Some(500));
    assert_eq!(parse_fixed(b"12.", 3), Some(12_000));
    assert_eq!(parse_fixed(b"12", 3), Some(12_000));
    assert_eq!(parse_fixed(b"1.23456", 3), Some(1_234));
    assert_eq!(parse_fixed(b"4.0", 6), Some(4_000_000));
    assert_eq!(parse_fixed(b".", 3), None);
    assert_eq!(parse_fixed(b"", 3), None);
    assert_eq!(parse_fixed(b"1.2.3", 3), None);
    assert_eq!(parse_fixed(b"-1.0", 3), None);
    assert_eq!(parse_fixed(b"18446744073709551615", 0), Some(u64::MAX));
    assert_eq!(parse_fixed(b"18446744073709551616", 0), None);
    assert_eq!(parse_fixed(b"18446744073709.551615", 6), Some(u64::MAX));
    assert_eq!(parse_fixed(b"18446744073709.551616", 6), None);
    assert_eq!(parse_fixed(b"1", 19), Some(10_000_000_000_000_000_000));
}

#[test]
fn natural_number_reading() {
    assert_eq!(parse_natural(b"0042"), Some(42));
    assert_eq!(parse_natural(b""), None);
    assert_eq!(parse_natural(b"4.2"), None);
    assert_eq!(parse_natural(b"18446744073709551616"), None);
}
