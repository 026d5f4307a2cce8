use benchmark_client::duration::{parse_duration, DurationError};

const MS: u128 = 1_000_000;
const S: u128 = 1_000_000_000;

#[test]
fn parses_the_three_units() {
    assert_eq!(parse_duration("250ms"), Ok(250 * MS));
    assert_eq!(parse_duration("30s"), Ok(30 * S));
    assert_eq!(parse_duration("1m"), Ok(60 * S));
    assert_eq!(parse_duration("2m"), Ok(120 * S));
    assert_eq!(parse_duration("0s"), Ok(0));
    assert_eq!(parse_duration("0ms"), Ok(0));
    assert_eq!(parse_duration("0m"), Ok(0));
}

#[test]
fn ignores_white_space_around_the_text() {
    assert_eq!(parse_duration("  30s"), Ok(30 * S));
    assert_eq!(parse_duration("30s \t\n"), Ok(30 * S));
    assert_eq!(parse_duration("\u{a0}5ms\u{3000}"), Ok(5 * MS));
    assert_eq!(parse_duration("\u{2003}7m\u{85}"), Ok(420 * S));
}

#[test]
fn white_space_inside_the_text_is_an_error() {
    assert_eq!(parse_duration("30 s"), Err(DurationError::InvalidDigit));
    assert_eq!(parse_duration("3 0s"), Err(DurationError::InvalidDigit));
}

#[test]
fn accepts_a_plus_sign_and_leading_zeros() {
    assert_eq!(parse_duration("+5s"), Ok(5 * S));
    assert_eq!(parse_duration("007ms"), Ok(7 * MS));
    assert_eq!(parse_duration("+0010m"), Ok(600 * S));
}

#[test]
fn a_repeated_unit_counts_once() {
    assert_eq!(parse_duration("5ss"), Ok(5 * S));
    assert_eq!(parse_duration("5msms"), Ok(5 * MS));
    assert_eq!(parse_duration("5mm"), Ok(300 * S));
    assert_eq!(parse_duration("5mss"), Err(DurationError::InvalidDigit));
    assert_eq!(parse_duration("5mms"), Err(DurationError::InvalidDigit));
    assert_eq!(parse_duration("5sms"), Err(DurationError::InvalidDigit));
}

#[test]
fn nothing_before_the_unit_is_empty() {
    assert_eq!(parse_duration("s"), Err(DurationError::Empty));
    assert_eq!(parse_duration("ms"), Err(DurationError::Empty));
    assert_eq!(parse_duration("m"), Err(DurationError::Empty));
    assert_eq!(parse_duration("sss"), Err(DurationError::Empty));
    assert_eq!(parse_duration(" msms "), Err(DurationError::Empty));
}

#[test]
fn what_is_no_number_is_an_invalid_digit() {
    assert_eq!(parse_duration("abcs"), Err(DurationError::InvalidDigit));
    assert_eq!(parse_duration("-5s"), Err(DurationError::InvalidDigit));
    assert_eq!(parse_duration("+s"), Err(DurationError::InvalidDigit));
    assert_eq!(parse_duration("-s"), Err(DurationError::InvalidDigit));
    assert_eq!(parse_duration("++5s"), Err(DurationError::InvalidDigit));
    assert_eq!(parse_duration("1.5s"), Err(DurationError::InvalidDigit));
    assert_eq!(parse_duration("1_000ms"), Err(DurationError::InvalidDigit));
    assert_eq!(parse_duration("\u{661}s"), Err(DurationError::InvalidDigit));
    assert_eq!(parse_duration("5+s"), Err(DurationError::InvalidDigit));
}

#[test]
fn numbers_up_to_64_bits_are_taken() {
    assert_eq!(parse_duration("18446744073709551615s"), Ok(u64::MAX as u128 * S));
    assert_eq!(parse_duration("18446744073709551615ms"), Ok(u64::MAX as u128 * MS));
    assert_eq!(parse_duration("307445734561825860m"), Ok(307445734561825860 * 60 * S));
}

#[test]
fn larger_numbers_overflow() {
    assert_eq!(parse_duration("18446744073709551616s"), Err(DurationError::Overflow));
    assert_eq!(parse_duration("99999999999999999999ms"), Err(DurationError::Overflow));
    assert_eq!(parse_duration("307445734561825861m"), Err(DurationError::Overflow));
    assert_eq!(parse_duration("18446744073709551615m"), Err(DurationError::Overflow));
}

#[test]
fn the_first_fault_from_the_left_decides() {
    assert_eq!(parse_duration("99999999999999999999xs"), Err(DurationError::Overflow));
    assert_eq!(parse_duration("9x9999999999999999999s"), Err(DurationError::InvalidDigit));
    assert_eq!(parse_duration("18446744073709551615xs"), Err(DurationError::InvalidDigit));
}

#[test]
fn a_text_without_unit_is_refused_and_quoted() {
    assert_eq!(parse_duration("30"), Err(DurationError::UnknownUnit("30".to_string())));
    assert_eq!(parse_duration("  5h "), Err(DurationError::UnknownUnit("5h".to_string())));
    assert_eq!(parse_duration(""), Err(DurationError::UnknownUnit(String::new())));
    assert_eq!(parse_duration("   "), Err(DurationError::UnknownUnit(String::new())));
    assert_eq!(parse_duration("5S"), Err(DurationError::UnknownUnit("5S".to_string())));
    assert_eq!(
        parse_duration(" zwölf Tage "),
        Err(DurationError::UnknownUnit("zwölf Tage".to_string()))
    );
}

#[test]
fn error_messages() {
    assert_eq!(DurationError::Empty.message(), "cannot parse integer from empty string");
    assert_eq!(DurationError::InvalidDigit.message(), "invalid digit found in string");
    assert_eq!(DurationError::Overflow.message(), "number too large to fit in target type");
    assert_eq!(
        DurationError::UnknownUnit("5h".to_string()).message(),
        "Invalid duration format: 5h"
    );
    assert_eq!(parse_duration(" 1d").unwrap_err().message(), "Invalid duration format: 1d");
}
