use blackbox::decimal::{Decimal, format_fixed, parse_decimal, dec_lt};
use blackbox::misc::{normalize_depth, parse_duration, format_duration, random};

fn dec(s: &str) -> Decimal {
    parse_decimal(s).expect(s)
}

#[test]
fn test_format_fixed() {
    // Test with 2 decimal places
    assert_eq!(format_fixed(&dec("123.45"), 2), "12345");
    assert_eq!(format_fixed(&dec("0.01"), 2), "1");
    assert_eq!(format_fixed(&dec("0.10"), 2), "10");
    assert_eq!(format_fixed(&dec("100.00"), 2), "10000");
    assert_eq!(format_fixed(&dec("0.00"), 2), "0");

    // Test with 8 decimal places (common for crypto)
    assert_eq!(format_fixed(&dec("50000.12345678"), 8), "5000012345678");
    assert_eq!(format_fixed(&dec("0.00000001"), 8), "1");
}

#[test]
fn test_format_fixed_rounding_half_even() {
    // Rounding to fewer places than stored, half-to-even.
    assert_eq!(format_fixed(&dec("1.25"), 1), "12");
    assert_eq!(format_fixed(&dec("1.35"), 1), "14");
    assert_eq!(format_fixed(&dec("1.26"), 1), "13");
}

#[test]
fn test_parse_decimal_plain() {
    assert_eq!(dec("123.45"), Decimal { mantissa: 12345, scale: 2 });
    assert_eq!(dec("0.10"), Decimal { mantissa: 1, scale: 1 });
    assert_eq!(dec("100.00"), Decimal { mantissa: 100, scale: 0 });
}

#[test]
fn test_parse_decimal_scientific() {
    assert_eq!(dec("1e-8"), Decimal { mantissa: 1, scale: 8 });
    assert_eq!(dec("2.5e2"), Decimal { mantissa: 250, scale: 0 });
    assert_eq!(dec("1E3"), Decimal { mantissa: 1000, scale: 0 });
}

#[test]
fn test_parse_decimal_rejects() {
    assert_eq!(parse_decimal(""), None);
    assert_eq!(parse_decimal("abc"), None);
    assert_eq!(parse_decimal("-1"), None);
    assert_eq!(parse_decimal("1."), None);
    assert_eq!(parse_decimal(".5"), None);
    assert_eq!(parse_decimal("1e"), None);
    assert_eq!(parse_decimal("1e40"), None);
    // The canonical mantissa must fit 64 bits.
    assert_eq!(parse_decimal("18446744073709551616"), None);
    assert!(parse_decimal("18446744073709551615").is_some());
    // More than 19 fractional digits cannot be represented.
    assert_eq!(parse_decimal("0.00000000000000000001"), None);
}

#[test]
fn test_decimal_ordering() {
    // Comparison is by numeric value, independent of representation.
    assert!(dec_lt(&dec("1.5"), &dec("2")));
    assert!(!dec_lt(&dec("2"), &dec("1.5")));
    assert!(!dec_lt(&dec("0.10"), &dec("0.1")));
    assert!(dec_lt(&dec("49999.9"), &dec("50000.1")));
}

#[test]
fn test_normalize_depth() {
    assert_eq!(normalize_depth(10), 10);
    assert_eq!(normalize_depth(7), 10);
    assert_eq!(normalize_depth(11), 25);
    assert_eq!(normalize_depth(100), 100);
    assert_eq!(normalize_depth(501), 1000);
    assert_eq!(normalize_depth(5000), 1000);
}

#[test]
fn test_parse_duration() {
    assert_eq!(parse_duration("30s"), Some(30));
    assert_eq!(parse_duration("2m"), Some(120));
    assert_eq!(parse_duration("45"), Some(45));
    assert_eq!(parse_duration(" 30s "), Some(30));
    assert_eq!(parse_duration("x"), None);
    assert_eq!(parse_duration(""), None);
}

#[test]
fn test_format_duration() {
    assert_eq!(format_duration(45), "45s");
    assert_eq!(format_duration(125), "2m 5s");
    assert_eq!(format_duration(3700), "1h 1m");
}

#[test]
fn test_random_deterministic() {
    let a = random(12345);
    let b = random(12345);
    assert_eq!(a, b);
    assert_eq!(a, 12345u64.wrapping_mul(1103515245).wrapping_add(12345));
}
