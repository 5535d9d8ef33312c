use trade_utils::decimal::{
    format_decimal, i64_to_string, parse_decimal, parse_u64_digits, precision_of, u64_to_string,
    Decimal,
};
use trade_utils::errors::ApiError;

fn dec(neg: bool, mantissa: u64, scale: u32) -> Decimal {
    Decimal { neg, mantissa, scale }
}

#[test]
fn parse_plain_decimals() {
    assert_eq!(parse_decimal("1.50"), Some(dec(false, 150, 2)));
    assert_eq!(parse_decimal("0.010"), Some(dec(false, 10, 3)));
    assert_eq!(parse_decimal("-0.5"), Some(dec(true, 5, 1)));
    assert_eq!(parse_decimal("+3"), Some(dec(false, 3, 0)));
    assert_eq!(parse_decimal("1."), Some(dec(false, 1, 0)));
    assert_eq!(parse_decimal(".5"), Some(dec(false, 5, 1)));
    assert_eq!(parse_decimal("0"), Some(dec(false, 0, 0)));
    assert_eq!(parse_decimal("-0.0"), Some(dec(true, 0, 1)));
}

#[test]
fn parse_rejects_non_decimals() {
    assert_eq!(parse_decimal(""), None);
    assert_eq!(parse_decimal("."), None);
    assert_eq!(parse_decimal("-"), None);
    assert_eq!(parse_decimal("abc"), None);
    assert_eq!(parse_decimal("1.2.3"), None);
    assert_eq!(parse_decimal("1e5"), None);
    assert_eq!(parse_decimal("1 2"), None);
    // one digit past what a u64 mantissa can hold
    assert_eq!(parse_decimal("184467440737095516150"), None);
}

#[test]
fn parse_u64_plain_digits() {
    assert_eq!(parse_u64_digits("20"), Some(20));
    assert_eq!(parse_u64_digits("0"), Some(0));
    assert_eq!(parse_u64_digits(""), None);
    assert_eq!(parse_u64_digits("-1"), None);
    assert_eq!(parse_u64_digits("1.0"), None);
    assert_eq!(parse_u64_digits("18446744073709551615"), Some(u64::MAX));
    assert_eq!(parse_u64_digits("18446744073709551616"), None);
}

#[test]
fn precision_from_reference_strings() {
    // "0.010" has three characters right of the dot
    assert_eq!(precision_of("0.010"), Ok(3));
    // no dot: the dot index defaults to zero, so "1" demands no fractional digits
    assert_eq!(precision_of("1"), Ok(0));
    assert_eq!(precision_of("10"), Ok(1));
    assert_eq!(precision_of("0.001"), Ok(3));
    assert_eq!(precision_of("1."), Ok(0));
    assert_eq!(precision_of(""), Err(ApiError::PrecisionError));
}

#[test]
fn format_exact_fraction_digits() {
    // tick size "0.010" => precision 3; 1.2345 rounds half away from zero
    let p = parse_decimal("1.2345").unwrap();
    assert_eq!(format_decimal(&p, 3), Ok("1.235".to_string()));
    // lot size "1" => precision 0; 2.7 rounds to 3
    let q = parse_decimal("2.7").unwrap();
    assert_eq!(format_decimal(&q, 0), Ok("3".to_string()));
    // trailing zeros are appended exactly
    let r = parse_decimal("1.5").unwrap();
    assert_eq!(format_decimal(&r, 4), Ok("1.5000".to_string()));
    // ties round away from zero, also for negative values
    let n = parse_decimal("-1.25").unwrap();
    assert_eq!(format_decimal(&n, 1), Ok("-1.3".to_string()));
    // a negative value rounded to zero loses its sign
    let z = parse_decimal("-0.4").unwrap();
    assert_eq!(format_decimal(&z, 0), Ok("0".to_string()));
}

#[test]
fn format_overflow_is_an_error() {
    let huge = dec(false, u64::MAX, 0);
    assert_eq!(format_decimal(&huge, 4), Err(ApiError::NumberOverflow));
}

#[test]
fn parse_format_round_trip() {
    for s in ["1.50", "0.010", "123", "-2.25", "0.000", "-0.010"] {
        let d = parse_decimal(s).unwrap();
        let out = format_decimal(&d, d.scale as usize).unwrap();
        let back = parse_decimal(&out).unwrap();
        assert_eq!(back.mantissa, d.mantissa);
        assert_eq!(back.scale, d.scale);
        // values agree; only a negative zero may drop its sign
        assert!(back.neg == d.neg || d.mantissa == 0);
    }
    // canonical spellings come back letter for letter
    assert_eq!(
        format_decimal(&parse_decimal("1.50").unwrap(), 2),
        Ok("1.50".to_string())
    );
}

#[test]
fn integer_rendering() {
    assert_eq!(u64_to_string(0), "0".to_string());
    assert_eq!(u64_to_string(1234567890123), "1234567890123".to_string());
    assert_eq!(u64_to_string(u64::MAX), "18446744073709551615".to_string());
    assert_eq!(i64_to_string(-5), "-5".to_string());
    assert_eq!(i64_to_string(0), "0".to_string());
    assert_eq!(i64_to_string(i64::MIN), "-9223372036854775808".to_string());
}

#[test]
fn zero_test_matches_mantissa() {
    assert!(dec(false, 0, 3).is_zero());
    assert!(!dec(false, 1, 3).is_zero());
    assert!(Decimal::zero().is_zero());
}
