use c4l_front::number::{integer_from, parse_number, reads_as_float};
use c4l_front::{Expected, Found, Number, ParseError, TokenKind};

fn chars(text: &str) -> Vec<char> {
    text.chars().collect()
}

#[test]
fn digits_read_as_integer() {
    assert_eq!(parse_number("0"), Ok(Number::Integer(0)));
    assert_eq!(parse_number("5"), Ok(Number::Integer(5)));
    assert_eq!(parse_number("007"), Ok(Number::Integer(7)));
    assert_eq!(parse_number("1234567890"), Ok(Number::Integer(1234567890)));
}

#[test]
fn signed_digits_read_as_integer() {
    assert_eq!(parse_number("+17"), Ok(Number::Integer(17)));
    assert_eq!(parse_number("-17"), Ok(Number::Integer(-17)));
    assert_eq!(parse_number("-0"), Ok(Number::Integer(0)));
}

#[test]
fn integer_limits() {
    assert_eq!(parse_number("9223372036854775807"), Ok(Number::Integer(i64::MAX)));
    assert_eq!(parse_number("-9223372036854775808"), Ok(Number::Integer(i64::MIN)));
    assert_eq!(parse_number("9223372036854775808"), Ok(Number::Float));
    assert_eq!(parse_number("-9223372036854775809"), Ok(Number::Float));
    assert_eq!(parse_number("99999999999999999999"), Ok(Number::Float));
}

#[test]
fn decimal_fraction_reads_as_float() {
    assert_eq!(parse_number("1.5"), Ok(Number::Float));
    assert_eq!(parse_number("0.0"), Ok(Number::Float));
    assert_eq!(parse_number("123.456"), Ok(Number::Float));
}

#[test]
fn other_float_spellings() {
    for text in ["5.", ".5", "1e5", "1E5", "1.5e-3", "+1.5", "-.5e+2", "inf", "-inf", "Infinity", "NaN", "+nan"] {
        assert_eq!(parse_number(text), Ok(Number::Float), "{}", text);
    }
}

#[test]
fn text_that_is_no_number() {
    let error = ParseError {
        expected: Expected::Numeral,
        found: Found::Token(TokenKind::Number),
    };
    for text in ["", "abc", ".", "+", "-", "1e", "1e+", "e5", "1.2.3", "1_000", " 1", "1 ", "0x10", "infinit", "na", "1f", "--1"] {
        assert_eq!(parse_number(text), Err(error), "{:?}", text);
    }
}

#[test]
fn integer_reading_agrees_with_the_standard_library() {
    let samples = [
        "", "0", "1", "-1", "+1", "+", "-", "00", "-00", "12345", "9223372036854775807",
        "9223372036854775808", "-9223372036854775808", "-9223372036854775809",
        "18446744073709551616", "1a", "a1", "1.0", " 1", "1 ", "+-1", "1+", "٣",
        "000000000000000000000000000001", "-000000000000000000009223372036854775808",
    ];
    for text in samples {
        assert_eq!(integer_from(&chars(text)), text.parse::<i64>().ok(), "{:?}", text);
    }
}

#[test]
fn float_reading_agrees_with_the_standard_library() {
    let samples = [
        "", "0", "1", "-1", "+1", "+", "-", ".", "1.", ".1", "1.1", "-1.1", "+.1", "-.", "1e1",
        "1e", "1e+", "1e-", "1e+1", "1e-1", "1E1", "e1", ".e1", "1.e1", ".1e1", "1.1e1.1",
        "inf", "INF", "Inf", "-inf", "+inf", "infinity", "INFINITY", "-Infinity", "infinit",
        "infinityx", "in", "nan", "NaN", "NAN", "-nan", "+nan", "nanx", "na", "1_0", " 1", "1 ",
        "1f", "0x1", "1..1", "1.1.1", "--1", "+-1", "1e1e1", "٣", "1٣",
        "99999999999999999999999999999999999999999999", "1e999", "1e-999",
        "0.000000000000000000000000000000000000000001",
    ];
    for text in samples {
        assert_eq!(reads_as_float(&chars(text)), text.parse::<f64>().is_ok(), "{:?}", text);
    }
}
