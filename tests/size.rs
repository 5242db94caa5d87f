use size_parse::{parse_size, ParseError, Size};
use std::convert::TryFrom;

#[test]
fn validate_size_bytes() {
    assert!(Size::try_from("5").is_ok());
    assert!(Size::try_from("5b").is_ok());
    assert!(Size::try_from("5B").is_ok());
}

#[test]
fn validate_size_kilobytes() {
    assert!(Size::try_from("5k").is_ok());
    assert!(Size::try_from("5K").is_ok());
}

#[test]
fn validate_size_megabytes() {
    assert!(Size::try_from("5m").is_ok());
    assert!(Size::try_from("5M").is_ok());
}

#[test]
fn validate_size_gigabytes() {
    assert!(Size::try_from("5g").is_ok());
    assert!(Size::try_from("5G").is_ok());
}

#[test]
fn validate_size_terabytes() {
    assert!(Size::try_from("5t").is_ok());
    assert!(Size::try_from("5T").is_ok());
}

#[test]
fn validate_size_fail_negative() {
    assert!(Size::try_from("-5b").is_err());
    assert!(Size::try_from("-5").is_err());
}

#[test]
fn validate_size_fail_invalid_unit() {
    assert!(Size::try_from("5j").is_err());
}

#[test]
fn test_repeated_char_is_err_multichar() {
    assert_eq!(Err(ParseError::MultiChar), Size::try_from("5bb"));
}

#[test]
fn number_from_size_triple_digit_kilobytes() {
    let size: u64 = Size::try_from("100k")
        .expect("Expected a number")
        .as_bytes();
    assert_eq!(102400, size);
}

#[test]
fn number_from_size_triple_digit_implicit_byte() {
    let size: u64 = Size::try_from("100").expect("Expected a number").as_bytes();
    assert_eq!(100, size);
}

#[test]
fn number_from_size_single_digit_implicit_byte() {
    let size: u64 = Size::try_from("5").expect("Expected a number").as_bytes();
    assert_eq!(5, size);
}

#[test]
fn empty_literal_is_empty_error() {
    assert_eq!(Err(ParseError::Empty), parse_size(""));
    assert_eq!(Err(ParseError::Empty), Size::try_from(""));
}

#[test]
fn leading_minus_is_invalid_byte() {
    assert_eq!(Err(ParseError::InvalidByte(b'-')), Size::try_from("-5"));
    assert_eq!(Err(ParseError::InvalidByte(b'-')), Size::try_from("-5b"));
}

#[test]
fn other_bytes_are_invalid_wherever_they_stand() {
    assert_eq!(Err(ParseError::InvalidByte(b' ')), parse_size(" 5"));
    assert_eq!(Err(ParseError::InvalidByte(b'.')), parse_size("1.5k"));
    assert_eq!(Err(ParseError::InvalidByte(b'-')), parse_size("5b-"));
    assert_eq!(Err(ParseError::InvalidByte(0xc3)), parse_size("5\u{e9}"));
}

#[test]
fn anything_after_the_unit_is_multichar() {
    assert_eq!(Err(ParseError::MultiChar), parse_size("5bk"));
    assert_eq!(Err(ParseError::MultiChar), parse_size("5b5"));
    assert_eq!(Err(ParseError::MultiChar), parse_size("kk"));
}

#[test]
fn unknown_unit_is_reported_in_lower_case() {
    assert_eq!(Err(ParseError::InvalidUnit('j')), parse_size("5j"));
    assert_eq!(Err(ParseError::InvalidUnit('j')), parse_size("5J"));
    assert_eq!(Err(ParseError::InvalidUnit('x')), parse_size("12x"));
}

#[test]
fn unit_letters_ignore_case() {
    let lower = parse_size("5k").expect("lower case parses");
    let upper = parse_size("5K").expect("upper case parses");
    assert_eq!(lower, upper);
    assert_eq!(5120, lower.as_bytes());
    assert_eq!(5120, upper.as_bytes());
}

#[test]
fn each_unit_selects_its_variant() {
    assert_eq!(Ok(Size::Byte(7)), parse_size("7"));
    assert_eq!(Ok(Size::Byte(7)), parse_size("7b"));
    assert_eq!(Ok(Size::Kilobyte(7)), parse_size("7K"));
    assert_eq!(Ok(Size::Megabyte(7)), parse_size("7m"));
    assert_eq!(Ok(Size::Gigabyte(7)), parse_size("7G"));
    assert_eq!(Ok(Size::Terabyte(7)), parse_size("7t"));
}

#[test]
fn unit_factors_are_powers_of_1024() {
    assert_eq!(3, Size::Byte(3).as_bytes());
    assert_eq!(3 * 1024, Size::Kilobyte(3).as_bytes());
    assert_eq!(3 * 1024 * 1024, Size::Megabyte(3).as_bytes());
    assert_eq!(1_073_741_824, parse_size("1g").unwrap().as_bytes());
    assert_eq!(2_199_023_255_552, parse_size("2T").unwrap().as_bytes());
}

#[test]
fn a_unit_letter_alone_means_zero() {
    assert_eq!(Ok(Size::Kilobyte(0)), parse_size("k"));
    assert_eq!(0, parse_size("k").unwrap().as_bytes());
}

#[test]
fn leading_zeros_are_harmless() {
    assert_eq!(Ok(Size::Megabyte(42)), parse_size("0042m"));
}

#[test]
fn largest_magnitude_is_kept() {
    assert_eq!(Ok(Size::Byte(u64::MAX)), parse_size("18446744073709551615"));
    assert_eq!(u64::MAX, parse_size("18446744073709551615").unwrap().as_bytes());
}

#[test]
fn overflow_wraps_modulo_two_to_the_64() {
    assert_eq!(Ok(Size::Byte(0)), parse_size("18446744073709551616"));
    assert_eq!(Ok(Size::Kilobyte(3)), parse_size("18446744073709551619k"));
    assert_eq!(0, parse_size("16777216t").unwrap().as_bytes());
    assert_eq!(1u64 << 63, parse_size("8388608t").unwrap().as_bytes());
}

#[test]
fn from_str_agrees_with_parse_size() {
    assert_eq!(Ok(Size::Gigabyte(9)), "9g".parse::<Size>());
    assert_eq!(Err(ParseError::InvalidUnit('q')), "9q".parse::<Size>());
}
