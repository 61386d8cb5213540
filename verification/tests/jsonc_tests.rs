//! Tests for the structured-data entry, running the real comment-tolerant
//! parser underneath.

use cosparsers::errors::OpError;
use cosparsers::jsonc::{loads, parse_source};
use cosparsers::value::HostValue;

#[test]
fn parses_scalars_arrays_and_objects() {
    let text = "{\"a\": 1, \"b\": 1.5, \"c\": [true, null, \"x\"]}";
    assert_eq!(
        loads(text),
        Ok(HostValue::Dict(vec![
            ("a".to_string(), HostValue::Int(1)),
            ("b".to_string(), HostValue::Float("1.5".to_string())),
            (
                "c".to_string(),
                HostValue::List(vec![
                    HostValue::Bool(true),
                    HostValue::Null,
                    HostValue::Str("x".to_string()),
                ])
            ),
        ]))
    );
}

#[test]
fn any_top_level_shape_is_accepted() {
    assert_eq!(loads("1"), Ok(HostValue::Int(1)));
    assert_eq!(loads("\"s\""), Ok(HostValue::Str("s".to_string())));
    assert_eq!(
        loads("[1, 2]"),
        Ok(HostValue::List(vec![HostValue::Int(1), HostValue::Int(2)]))
    );
}

#[test]
fn comments_and_trailing_commas_are_tolerated() {
    let text = "// a comment\n{\"a\": 1, /* inline */ \"b\": 2,}";
    assert_eq!(
        loads(text),
        Ok(HostValue::Dict(vec![
            ("a".to_string(), HostValue::Int(1)),
            ("b".to_string(), HostValue::Int(2)),
        ]))
    );
}

#[test]
fn numbers_without_fraction_become_integers_all_others_floats() {
    let text = "[1, -2, 1.0, 3e0, 9223372036854775808]";
    assert_eq!(
        loads(text),
        Ok(HostValue::List(vec![
            HostValue::Int(1),
            HostValue::Int(-2),
            HostValue::Float("1.0".to_string()),
            HostValue::Float("3e0".to_string()),
            HostValue::Float("9223372036854775808".to_string()),
        ]))
    );
}

#[test]
fn non_finite_numbers_pass_through_as_floats() {
    let text = "[Infinity, -Infinity, NaN]";
    assert_eq!(
        loads(text),
        Ok(HostValue::List(vec![
            HostValue::Float("Infinity".to_string()),
            HostValue::Float("-Infinity".to_string()),
            HostValue::Float("NaN".to_string()),
        ]))
    );
}

#[test]
fn empty_content_is_a_parse_error() {
    let r = loads("");
    assert_eq!(
        r,
        Err(OpError::Parse(
            "Parsed JSONC content is empty or invalid".to_string()
        ))
    );
}

#[test]
fn malformed_content_renders_a_diagnostic() {
    let r = loads("{\"a\":}");
    match r {
        Err(OpError::Parse(text)) => {
            assert!(!text.is_empty());
        }
        other => panic!("expected a parse failure, got {:?}", other),
    }
}

#[test]
fn identical_malformed_input_renders_byte_identical_text() {
    let a = loads("{\"a\":}");
    let b = loads("{\"a\":}");
    assert_eq!(a, b);
}

#[test]
fn origin_label_appears_in_the_report() {
    let r = parse_source("{\"a\":}", Some("settings.jsonc".to_string()));
    match r {
        Err(OpError::Parse(text)) => assert!(text.contains("settings.jsonc")),
        other => panic!("expected a parse failure, got {:?}", other),
    }
}

#[test]
fn unicode_source_with_error_still_renders() {
    let r = loads("{\"héllo\": }");
    assert!(matches!(r, Err(OpError::Parse(_))));
}
