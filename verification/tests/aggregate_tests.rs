use vcsv::aggregate::{mean_col, parse_i128, sum_col};
use vcsv::csv::parse_csv;
use vcsv::VcsvError;

#[test]
fn sum_concrete_scenario() {
    let csv = b"id,price,qty\n1,120,3\n2,80,1\n3,200,5\n";
    let doc = parse_csv(csv, Some(b"price")).unwrap();
    let (n_rows, value, scale) = sum_col(&doc).unwrap();
    assert_eq!(n_rows, 3);
    assert_eq!(value, 400);
    assert_eq!(scale, 0);
}

#[test]
fn sum_of_zero_rows_is_zero() {
    let csv = b"id,price\n";
    let doc = parse_csv(csv, Some(b"price")).unwrap();
    assert_eq!(sum_col(&doc).unwrap(), (0, 0, 0));
}

#[test]
fn sum_overflow_is_detected() {
    let csv = format!("v\n{}\n1\n", i128::MAX).into_bytes();
    let doc = parse_csv(&csv, Some(b"v")).unwrap();
    assert_eq!(sum_col(&doc).unwrap_err(), VcsvError::IntegerOverflow);
}

#[test]
fn mean_rounds_half_away_from_zero() {
    let csv = b"v\n1\n2\n";
    let doc = parse_csv(csv, Some(b"v")).unwrap();
    let (n_rows, value, scale) = mean_col(&doc).unwrap();
    assert_eq!(n_rows, 2);
    assert_eq!(value, 1500);
    assert_eq!(scale, 3);
}

#[test]
fn mean_rounds_negative_values_away_from_zero() {
    let csv = b"v\n-1\n-2\n";
    let doc = parse_csv(csv, Some(b"v")).unwrap();
    let (n_rows, value, scale) = mean_col(&doc).unwrap();
    assert_eq!(n_rows, 2);
    assert_eq!(value, -1500);
    assert_eq!(scale, 3);
}

#[test]
fn mean_of_zero_rows_is_the_degenerate_record() {
    let csv = b"v\n";
    let doc = parse_csv(csv, Some(b"v")).unwrap();
    assert_eq!(mean_col(&doc).unwrap(), (0, 0, 0));
}

#[test]
fn mean_truncates_a_small_remainder() {
    // sum 400 over 3 rows: 400000 / 3 = 133333.33..., rounds down
    let csv = b"id,price,qty\n1,120,3\n2,80,1\n3,200,5\n";
    let doc = parse_csv(csv, Some(b"price")).unwrap();
    assert_eq!(mean_col(&doc).unwrap(), (3, 133333, 3));
}

#[test]
fn malformed_field_fails_the_sum() {
    let csv = b"id,price\n1,12a\n2,5\n";
    let doc = parse_csv(csv, Some(b"price")).unwrap();
    assert_eq!(sum_col(&doc).unwrap_err(), VcsvError::MalformedInteger);
}

#[test]
fn short_row_fails_the_sum() {
    let csv = b"id,price,qty\n1,2,3\n4\n";
    let doc = parse_csv(csv, Some(b"qty")).unwrap();
    assert_eq!(sum_col(&doc).unwrap_err(), VcsvError::MissingField);
}

#[test]
fn parse_i128_accepts_the_strict_grammar() {
    assert_eq!(parse_i128(b"0").unwrap(), 0);
    assert_eq!(parse_i128(b"42").unwrap(), 42);
    assert_eq!(parse_i128(b"-42").unwrap(), -42);
    assert_eq!(parse_i128(b"007").unwrap(), 7);
    assert_eq!(
        parse_i128(b"170141183460469231731687303715884105727").unwrap(),
        i128::MAX
    );
    assert_eq!(
        parse_i128(b"-170141183460469231731687303715884105727").unwrap(),
        -i128::MAX
    );
}

#[test]
fn parse_i128_rejects_everything_else() {
    assert_eq!(parse_i128(b"").unwrap_err(), VcsvError::MalformedInteger);
    assert_eq!(parse_i128(b"-").unwrap_err(), VcsvError::MalformedInteger);
    assert_eq!(parse_i128(b"+1").unwrap_err(), VcsvError::MalformedInteger);
    assert_eq!(parse_i128(b"12a").unwrap_err(), VcsvError::MalformedInteger);
    assert_eq!(parse_i128(b"1 2").unwrap_err(), VcsvError::MalformedInteger);
    assert_eq!(parse_i128(b"1.5").unwrap_err(), VcsvError::MalformedInteger);
    assert_eq!(parse_i128(b"1e3").unwrap_err(), VcsvError::MalformedInteger);
    assert_eq!(parse_i128(b"--1").unwrap_err(), VcsvError::MalformedInteger);
}

#[test]
fn parse_i128_detects_overflow() {
    // one past the largest magnitude the accumulator takes
    assert_eq!(
        parse_i128(b"170141183460469231731687303715884105728").unwrap_err(),
        VcsvError::IntegerOverflow
    );
    // the most negative value is rejected too: magnitudes accumulate first
    assert_eq!(
        parse_i128(b"-170141183460469231731687303715884105728").unwrap_err(),
        VcsvError::IntegerOverflow
    );
}
