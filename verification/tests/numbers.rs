use anidex::numbers::{parse_u64_digits, parse_unit_number, u64_to_decimal, UnitNumber};

#[test]
fn parses_plain_integers() {
    assert_eq!(parse_u64_digits("42"), Some(42));
    assert_eq!(parse_u64_digits("0"), Some(0));
    assert_eq!(parse_u64_digits("18446744073709551615"), Some(u64::MAX));
}

#[test]
fn rejects_non_integers() {
    assert_eq!(parse_u64_digits(""), None);
    assert_eq!(parse_u64_digits("12a"), None);
    assert_eq!(parse_u64_digits("-3"), None);
    assert_eq!(parse_u64_digits(" 7"), None);
    // One past u64::MAX.
    assert_eq!(parse_u64_digits("18446744073709551616"), None);
}

#[test]
fn parses_whole_unit_numbers() {
    let u = parse_unit_number("7").unwrap();
    assert_eq!(u.whole, 7);
    assert_eq!(u.frac, Vec::<u8>::new());
}

#[test]
fn parses_fractional_unit_numbers() {
    let u = parse_unit_number("12.5").unwrap();
    assert_eq!(u.whole, 12);
    assert_eq!(u.frac, vec![5]);

    let u = parse_unit_number("10.25").unwrap();
    assert_eq!(u.whole, 10);
    assert_eq!(u.frac, vec![2, 5]);
}

#[test]
fn rejects_malformed_unit_numbers() {
    assert!(parse_unit_number("").is_none());
    assert!(parse_unit_number("7.").is_none());
    assert!(parse_unit_number(".5").is_none());
    assert!(parse_unit_number("seven").is_none());
    assert!(parse_unit_number("1.2.3").is_none());
    assert!(parse_unit_number("7a").is_none());
}

#[test]
fn compares_progress_exactly() {
    let seven = parse_unit_number("7").unwrap();
    assert!(seven.exceeds_progress(5));
    assert!(!seven.exceeds_progress(7));
    assert!(!seven.exceeds_progress(8));

    let seven_and_a_half = parse_unit_number("7.5").unwrap();
    assert!(seven_and_a_half.exceeds_progress(7));
    assert!(!seven_and_a_half.exceeds_progress(8));

    let seven_point_zero = parse_unit_number("7.0").unwrap();
    assert!(!seven_point_zero.exceeds_progress(7));
    assert!(seven_point_zero.exceeds_progress(6));
}

#[test]
fn single_unit_is_exactly_one() {
    let one = UnitNumber::single_unit();
    assert_eq!(one.whole, 1);
    assert_eq!(one.frac, Vec::<u8>::new());
    assert!(one.exceeds_progress(0));
    assert!(!one.exceeds_progress(1));
}

#[test]
fn writes_decimals_back() {
    assert_eq!(u64_to_decimal(0), "0");
    assert_eq!(u64_to_decimal(7), "7");
    assert_eq!(u64_to_decimal(1234), "1234");
    assert_eq!(parse_unit_number("12.5").unwrap().to_decimal_string(), "12.5");
    assert_eq!(parse_unit_number("7").unwrap().to_decimal_string(), "7");
}
