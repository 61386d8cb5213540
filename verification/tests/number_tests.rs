//! Tests for number classification: integer parse first, float syntax as the
//! fallback, rejection otherwise.

use cosparsers::bridge::ConvError;
use cosparsers::json::{classify_number, is_float_text, parse_int64};
use cosparsers::value::HostValue;

fn classify(t: &str) -> Result<HostValue, ConvError> {
    classify_number(&t.to_string())
}

#[test]
fn integers_in_range_become_integers() {
    assert_eq!(classify("0"), Ok(HostValue::Int(0)));
    assert_eq!(classify("1"), Ok(HostValue::Int(1)));
    assert_eq!(classify("-42"), Ok(HostValue::Int(-42)));
    assert_eq!(classify("+42"), Ok(HostValue::Int(42)));
    assert_eq!(classify("00123"), Ok(HostValue::Int(123)));
    assert_eq!(
        classify("9223372036854775807"),
        Ok(HostValue::Int(i64::MAX))
    );
    assert_eq!(
        classify("-9223372036854775808"),
        Ok(HostValue::Int(i64::MIN))
    );
}

#[test]
fn integers_out_of_range_fall_back_to_float() {
    assert_eq!(
        classify("9223372036854775808"),
        Ok(HostValue::Float("9223372036854775808".to_string()))
    );
    assert_eq!(
        classify("-9223372036854775809"),
        Ok(HostValue::Float("-9223372036854775809".to_string()))
    );
}

#[test]
fn fractions_and_exponents_become_floats() {
    assert_eq!(classify("1.5"), Ok(HostValue::Float("1.5".to_string())));
    assert_eq!(classify("-0.25"), Ok(HostValue::Float("-0.25".to_string())));
    assert_eq!(classify(".5"), Ok(HostValue::Float(".5".to_string())));
    assert_eq!(classify("5."), Ok(HostValue::Float("5.".to_string())));
    assert_eq!(classify("1e5"), Ok(HostValue::Float("1e5".to_string())));
    assert_eq!(classify("1E5"), Ok(HostValue::Float("1E5".to_string())));
    assert_eq!(classify("1e+5"), Ok(HostValue::Float("1e+5".to_string())));
    assert_eq!(
        classify("2.5e-3"),
        Ok(HostValue::Float("2.5e-3".to_string()))
    );
}

#[test]
fn malformed_numbers_are_rejected_carrying_the_literal() {
    for bad in ["", "abc", "1.2.3", ".", "1e", "1e+", "--1", "1 ", "0x10"] {
        assert_eq!(
            classify(bad),
            Err(ConvError::BadNumber(bad.to_string())),
            "expected rejection for {:?}",
            bad
        );
    }
}

#[test]
fn parse_int64_matches_the_signed_decimal_grammar() {
    assert_eq!(parse_int64("123"), Some(123));
    assert_eq!(parse_int64("-0"), Some(0));
    assert_eq!(parse_int64("+007"), Some(7));
    assert_eq!(parse_int64("9223372036854775807"), Some(i64::MAX));
    assert_eq!(parse_int64("9223372036854775808"), None);
    assert_eq!(parse_int64("-9223372036854775808"), Some(i64::MIN));
    assert_eq!(parse_int64("-9223372036854775809"), None);
    assert_eq!(parse_int64("12x"), None);
    assert_eq!(parse_int64(""), None);
    assert_eq!(parse_int64("+"), None);
    assert_eq!(parse_int64("-"), None);
    assert_eq!(parse_int64("1.0"), None);
}

#[test]
fn float_syntax_checker_accepts_and_rejects() {
    for good in ["1", "1.5", ".5", "5.", "-1.5", "+.25", "1e9", "1.e3", "-2E-4"] {
        assert!(is_float_text(good), "expected float syntax for {:?}", good);
    }
    for good in ["inf", "Inf", "INF", "-inf", "infinity", "Infinity", "-Infinity", "nan", "NaN", "-NaN", "+nan"] {
        assert!(is_float_text(good), "expected float syntax for {:?}", good);
    }
    for bad in ["", "-", ".", "e5", "1e", "1..2", "1.2.3", "1e5e5", "in", "infinit", "infinityy", "nanx", "na", "x-inf"] {
        assert!(!is_float_text(bad), "expected rejection for {:?}", bad);
    }
}

#[test]
fn non_finite_numbers_become_floats() {
    for t in ["Infinity", "-Infinity", "NaN", "nan", "INF", "+infinity"] {
        assert_eq!(
            classify(t),
            Ok(HostValue::Float(t.to_string())),
            "expected a float for {:?}",
            t
        );
    }
}
