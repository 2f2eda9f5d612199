use market_insights::decimal::{i64_to_decimal, parse_i64, parse_u64, u64_to_decimal};
use market_insights::float_text::is_float_text_exec;

#[test]
fn renders_unsigned_like_display() {
    for n in [0u64, 7, 10, 99, 100, 1234567890, u64::MAX] {
        assert_eq!(u64_to_decimal(n), n.to_string());
    }
}

#[test]
fn renders_signed_like_display() {
    for n in [0i64, -1, 5, -42, 1705276800, i64::MIN, i64::MAX] {
        assert_eq!(i64_to_decimal(n), n.to_string());
    }
}

#[test]
fn parses_unsigned_like_std() {
    let cases = [
        "0", "42", "+42", "-1", "", "+", "-", "0042", "18446744073709551615", "18446744073709551616",
        "99999999999999999999999", "12a", " 1", "1 ", "++1", "1_000", "١٢",
    ];
    for s in cases {
        assert_eq!(parse_u64(s), s.parse::<u64>().ok(), "input {:?}", s);
    }
    assert_eq!(parse_u64("+42"), Some(42));
    assert_eq!(parse_u64("18446744073709551616"), None);
}

#[test]
fn parses_signed_like_std() {
    let cases = [
        "0", "-0", "+7", "-7", "", "-", "+", "9223372036854775807", "9223372036854775808",
        "-9223372036854775808", "-9223372036854775809", "1e3", "--1", "12.5",
    ];
    for s in cases {
        assert_eq!(parse_i64(s), s.parse::<i64>().ok(), "input {:?}", s);
    }
    assert_eq!(parse_i64("-9223372036854775808"), Some(i64::MIN));
}

#[test]
fn decimal_text_reads_back() {
    for n in [0u64, 1, 30, 1705276800, u64::MAX] {
        assert_eq!(parse_u64(&u64_to_decimal(n)), Some(n));
    }
    for n in [0i64, -1, i64::MIN, i64::MAX, 42] {
        assert_eq!(parse_i64(&i64_to_decimal(n)), Some(n));
    }
}

#[test]
fn float_text_matches_std() {
    let cases = [
        "0", "1", "450.1200", "1.", ".5", ".", "", "+", "-", "e5", "1e5", "1E5", "1e", "1e+", "1e-7",
        "-2.5E+10", "inf", "-inf", "+Infinity", "INFINITY", "infinit", "nan", "NaN", "-nan", "1.2.3",
        "1..2", "1e5.0", "1 ", " 1", "0x10", "1_0", "12abc", "+.5", "-.e1", "5.e3", "١",
    ];
    for s in cases {
        assert_eq!(is_float_text_exec(s), s.parse::<f64>().is_ok(), "input {:?}", s);
    }
}
