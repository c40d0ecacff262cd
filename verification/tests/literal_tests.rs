use regula::literal::{is_float, parse_int};

#[test]
fn parse_int_reads_digits() {
    assert_eq!(parse_int(b"0"), Some(0));
    assert_eq!(parse_int(b"42"), Some(42));
    assert_eq!(parse_int(b"000123"), Some(123));
}

#[test]
fn parse_int_takes_a_sign() {
    assert_eq!(parse_int(b"+7"), Some(7));
    assert_eq!(parse_int(b"-7"), Some(-7));
    assert_eq!(parse_int(b"-0"), Some(0));
}

#[test]
fn parse_int_covers_the_whole_range() {
    assert_eq!(parse_int(b"9223372036854775807"), Some(i64::MAX));
    assert_eq!(parse_int(b"-9223372036854775808"), Some(i64::MIN));
    assert_eq!(parse_int(b"-9223372036854775807"), Some(i64::MIN + 1));
    assert_eq!(parse_int(b"+0009223372036854775807"), Some(i64::MAX));
}

#[test]
fn parse_int_refuses_what_does_not_fit() {
    assert_eq!(parse_int(b"9223372036854775808"), None);
    assert_eq!(parse_int(b"-9223372036854775809"), None);
    assert_eq!(parse_int(b"18446744073709551616"), None);
    assert_eq!(parse_int(b"100000000000000000000000000000000000000000"), None);
}

#[test]
fn parse_int_refuses_other_shapes() {
    for text in [
        &b""[..], b"+", b"-", b"12a", b"a12", b"1 2", b" 1", b"1.0", b"0x10", b"--1", b"1e3",
        b"\xFF",
    ] {
        assert_eq!(parse_int(text), None);
    }
}

#[test]
fn parse_int_agrees_with_the_standard_parser() {
    for text in [
        "0", "-1", "+1", "1234567890123", "9223372036854775807", "9223372036854775808",
        "-9223372036854775808", "-9223372036854775809", "", "+", "12x", "00",
    ] {
        assert_eq!(parse_int(text.as_bytes()), text.parse::<i64>().ok());
    }
}

#[test]
fn is_float_takes_decimal_numbers() {
    for text in [
        "1", "1.5", "1.", ".5", "0.0", "12e3", "12E3", "1.5e-3", "1.e+3", ".5e0", "+1.5", "-1.5",
        "-.5", "007.250",
    ] {
        assert!(is_float(text.as_bytes()), "{}", text);
    }
}

#[test]
fn is_float_takes_the_special_names() {
    for text in ["inf", "INF", "Infinity", "nan", "NaN", "+inf", "-infinity", "-nan"] {
        assert!(is_float(text.as_bytes()), "{}", text);
    }
}

#[test]
fn is_float_refuses_other_shapes() {
    for text in [
        "", ".", "+", "-", "e", "e5", "1e", "1e+", "1.5e-", ".e1", "1.5.2", "1 ", " 1", "1f",
        "0x10", "1e5.2", "infin", "na", "++1", "1_000", "1e1e1",
    ] {
        assert!(!is_float(text.as_bytes()), "{}", text);
    }
}

#[test]
fn is_float_agrees_with_the_standard_parser() {
    for text in [
        "1", "1.5", "1.", ".5", "", ".", "+", "1e", "1e+", "1e5", "1E-5", "inf", "+inf", "-NaN",
        "infinity", "infinit", "1.5.2", "0x1p3", "1e5.2", "+.e1", "-.5e-0", "١", "1 ",
    ] {
        assert_eq!(is_float(text.as_bytes()), text.parse::<f64>().is_ok(), "{}", text);
    }
}
