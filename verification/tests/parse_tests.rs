use message_repeater::parse::{parse_i32, is_float_text, IntParseError};

#[test]
fn parses_plain_integers() {
    assert_eq!(parse_i32("0"), Ok(0));
    assert_eq!(parse_i32("123"), Ok(123));
    assert_eq!(parse_i32("-42"), Ok(-42));
    assert_eq!(parse_i32("+7"), Ok(7));
    assert_eq!(parse_i32("007"), Ok(7));
}

#[test]
fn parses_extreme_integers() {
    assert_eq!(parse_i32("2147483647"), Ok(i32::MAX));
    assert_eq!(parse_i32("-2147483648"), Ok(i32::MIN));
    assert_eq!(parse_i32("+2147483647"), Ok(i32::MAX));
}

#[test]
fn rejects_out_of_range_integers() {
    assert_eq!(parse_i32("2147483648"), Err(IntParseError::OutOfRange));
    assert_eq!(parse_i32("-2147483649"), Err(IntParseError::OutOfRange));
    assert_eq!(parse_i32("99999999999999999999"), Err(IntParseError::OutOfRange));
    assert_eq!(parse_i32("-99999999999999999999"), Err(IntParseError::OutOfRange));
}

#[test]
fn rejects_non_integers() {
    assert_eq!(parse_i32(""), Err(IntParseError::BadSyntax));
    assert_eq!(parse_i32("+"), Err(IntParseError::BadSyntax));
    assert_eq!(parse_i32("-"), Err(IntParseError::BadSyntax));
    assert_eq!(parse_i32("abc"), Err(IntParseError::BadSyntax));
    assert_eq!(parse_i32("12x"), Err(IntParseError::BadSyntax));
    assert_eq!(parse_i32("1 2"), Err(IntParseError::BadSyntax));
    assert_eq!(parse_i32("12.5"), Err(IntParseError::BadSyntax));
    assert_eq!(parse_i32("--1"), Err(IntParseError::BadSyntax));
    assert_eq!(parse_i32("+-1"), Err(IntParseError::BadSyntax));
}

#[test]
fn integer_parser_agrees_with_std() {
    let samples = [
        "0", "1", "-1", "+1", "42", "007", "2147483647", "-2147483648", "2147483648",
        "-2147483649", "", "+", "-", "abc", "1.0", "0x10", "1_000", " 1", "1 ",
    ];
    for s in samples {
        assert_eq!(parse_i32(s).is_ok(), s.parse::<i32>().is_ok(), "input {:?}", s);
        if let Ok(v) = parse_i32(s) {
            assert_eq!(v, s.parse::<i32>().unwrap(), "input {:?}", s);
        }
    }
}

#[test]
fn float_syntax_agrees_with_std() {
    let samples = [
        "1", "-2.5", "+0.25", ".5", "5.", "1e3", "1E-3", "+.25e+2", "1.e5", ".e5", "e3", "1e",
        "1e+", "1.2.3", "--1", "1 2", "", ".", "+", "-", "abc", "0x10", "1_000", "inf", "INF",
        "Inf", "-inf", "+inf", "infinity", "INFINITY", "Infinity", "-Infinity", "nan", "NaN",
        "NAN", "+nan", "-nan", "infinit", "nana", "infx", "1e99999", "0.0000001", "3.14159",
        "-0", "-0.0", "1e-0", "12e05",
    ];
    for s in samples {
        assert_eq!(is_float_text(s), s.parse::<f64>().is_ok(), "input {:?}", s);
    }
}

#[test]
fn accepted_float_text_keeps_its_value() {
    assert!(is_float_text("2.5e1"));
    assert_eq!("2.5e1".parse::<f64>().unwrap(), 25.0);
    assert!(is_float_text("0.5"));
    assert_eq!("0.5".parse::<f64>().unwrap(), 0.5);
    assert!(is_float_text("-3"));
    assert_eq!("-3".parse::<f64>().unwrap(), -3.0);
}
