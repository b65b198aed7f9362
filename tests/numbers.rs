use power::numbers::{parse_decimal, parse_int, Decimal};

#[test]
fn integers_are_read() {
    assert_eq!(parse_int("0"), Some(0));
    assert_eq!(parse_int("42"), Some(42));
    assert_eq!(parse_int("-12"), Some(-12));
    assert_eq!(parse_int("+7"), Some(7));
    assert_eq!(parse_int("007"), Some(7));
}

#[test]
fn integer_limits() {
    assert_eq!(parse_int("9223372036854775807"), Some(i64::MAX));
    assert_eq!(parse_int("9223372036854775808"), None);
    assert_eq!(parse_int("-9223372036854775808"), Some(i64::MIN));
    assert_eq!(parse_int("-9223372036854775809"), None);
    assert_eq!(parse_int("123456789012345678901234567890"), None);
}

#[test]
fn malformed_integers_are_refused() {
    assert_eq!(parse_int(""), None);
    assert_eq!(parse_int("-"), None);
    assert_eq!(parse_int("+"), None);
    assert_eq!(parse_int("1a"), None);
    assert_eq!(parse_int(" 1"), None);
    assert_eq!(parse_int("1.0"), None);
    assert_eq!(parse_int("--1"), None);
}

#[test]
fn decimals_are_read_exactly() {
    assert_eq!(parse_decimal("0.4"), Some(Decimal { mantissa: 4, scale: 1 }));
    assert_eq!(parse_decimal("-1.25"), Some(Decimal { mantissa: -125, scale: 2 }));
    assert_eq!(parse_decimal(".5"), Some(Decimal { mantissa: 5, scale: 1 }));
    assert_eq!(parse_decimal("5."), Some(Decimal { mantissa: 5, scale: 0 }));
    assert_eq!(parse_decimal("12"), Some(Decimal { mantissa: 12, scale: 0 }));
    assert_eq!(parse_decimal("+0.050"), Some(Decimal { mantissa: 50, scale: 3 }));
}

#[test]
fn malformed_decimals_are_refused() {
    assert_eq!(parse_decimal(""), None);
    assert_eq!(parse_decimal("."), None);
    assert_eq!(parse_decimal("-."), None);
    assert_eq!(parse_decimal("1.2.3"), None);
    assert_eq!(parse_decimal("0.x"), None);
    assert_eq!(parse_decimal("1e"), None);
    assert_eq!(parse_decimal("e5"), None);
    assert_eq!(parse_decimal(".e5"), None);
    assert_eq!(parse_decimal("1e3.5"), None);
    assert_eq!(parse_decimal("1e2e3"), None);
    assert_eq!(parse_decimal("1e--3"), None);
}

#[test]
fn decimals_with_exponent_are_read_exactly() {
    assert_eq!(parse_decimal("1e3"), Some(Decimal { mantissa: 1, scale: -3 }));
    assert_eq!(parse_decimal("2.5e-1"), Some(Decimal { mantissa: 25, scale: 2 }));
    assert_eq!(parse_decimal("1E+2"), Some(Decimal { mantissa: 1, scale: -2 }));
    assert_eq!(parse_decimal("-4e-1"), Some(Decimal { mantissa: -4, scale: 1 }));
    assert_eq!(parse_decimal("1e-30"), Some(Decimal { mantissa: 1, scale: 30 }));
    assert_eq!(parse_decimal("1.5e1"), Some(Decimal { mantissa: 15, scale: 0 }));
    assert_eq!(parse_decimal("0e99999"), Some(Decimal { mantissa: 0, scale: -99999 }));
    assert_eq!(parse_decimal("1e300"), Some(Decimal { mantissa: 1, scale: -300 }));
}

#[test]
fn decimal_limits() {
    assert_eq!(
        parse_decimal("0.1234567890123456789"),
        Some(Decimal { mantissa: 1234567890123456789, scale: 19 })
    );
    assert_eq!(parse_decimal("99999999999999999999"), None);
    assert_eq!(parse_decimal("1e19"), Some(Decimal { mantissa: 1, scale: -19 }));
    assert_eq!(parse_decimal("-9223372036854775808"), Some(Decimal { mantissa: i64::MIN, scale: 0 }));
    assert_eq!(parse_decimal("1e99999999999999999999"), None);
}

#[test]
fn decimal_scaled_comparison() {
    let tenth = Decimal { mantissa: 1, scale: 1 };
    let four_tenths = Decimal { mantissa: 4, scale: 1 };
    let half = Decimal { mantissa: 5, scale: 1 };
    let minus_half = Decimal { mantissa: -5, scale: 1 };
    assert_eq!(tenth.compare_scaled(3), -1);
    assert_eq!(four_tenths.compare_scaled(3), 1);
    assert_eq!(half.compare_scaled(2), 0);
    assert_eq!(minus_half.compare_scaled(2), -1);
    assert_eq!(minus_half.compare_scaled(-2), 0);
    assert_eq!(tenth.compare_scaled(10), 0);
    assert_eq!(tenth.compare_scaled(9), -1);
    let big = Decimal { mantissa: i64::MAX, scale: 0 };
    assert_eq!(big.compare_scaled(i64::MAX as i128), 1);
    let tiny = Decimal { mantissa: i64::MAX, scale: 40 };
    assert_eq!(tiny.compare_scaled(i64::MAX as i128), -1);
    let ten = Decimal { mantissa: 1, scale: -1 };
    assert_eq!(ten.compare_scaled(1), 1);
    assert_eq!(ten.compare_scaled(-1), -1);
    assert_eq!(Decimal { mantissa: 0, scale: -5 }.compare_scaled(3), -1);
}
