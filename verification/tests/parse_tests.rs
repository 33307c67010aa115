use mem_hog::parse::{ParseError, parse_input};

#[test]
fn plain_number() {
    assert_eq!(parse_input(b"123"), Ok(123));
}

#[test]
fn surrounding_whitespace_is_ignored() {
    assert_eq!(parse_input(b" 42\n"), Ok(42));
    assert_eq!(parse_input(b"\t7 \r\n"), Ok(7));
}

#[test]
fn leading_plus_is_allowed() {
    assert_eq!(parse_input(b"+7"), Ok(7));
}

#[test]
fn zero_and_leading_zeros() {
    assert_eq!(parse_input(b"0"), Ok(0));
    assert_eq!(parse_input(b"0000000000000000001"), Ok(1));
}

#[test]
fn largest_value_fits() {
    assert_eq!(parse_input(b"4294967295"), Ok(u32::MAX));
}

#[test]
fn one_past_the_largest_overflows() {
    assert_eq!(parse_input(b"4294967296"), Err(ParseError::Overflow));
}

#[test]
fn very_long_number_overflows() {
    assert_eq!(parse_input(b"99999999999999999999"), Err(ParseError::Overflow));
}

#[test]
fn empty_and_blank_lines() {
    assert_eq!(parse_input(b""), Err(ParseError::Empty));
    assert_eq!(parse_input(b"   \n"), Err(ParseError::Empty));
}

#[test]
fn non_numeric_text_is_invalid() {
    assert_eq!(parse_input(b"abc"), Err(ParseError::InvalidChar));
    assert_eq!(parse_input(b"12x"), Err(ParseError::InvalidChar));
    assert_eq!(parse_input(b"1 2"), Err(ParseError::InvalidChar));
}

#[test]
fn bare_plus_is_invalid() {
    assert_eq!(parse_input(b"+"), Err(ParseError::InvalidChar));
}

#[test]
fn negative_numbers_are_invalid() {
    assert_eq!(parse_input(b"-5"), Err(ParseError::InvalidChar));
}
