//! Tests for position translation, the error classifier, and the finishing
//! of evaluator runs, with the real position and syntax crates underneath.

use cosparsers::classify::{
    build_parse_diagnostic, classify, EvalErrorRecord, ParseErrorRecord,
};
use cosparsers::errors::OpError;
use cosparsers::nix::{finish_evaluation, EvalOutcome};
use cosparsers::render::render_diagnostic;
use cosparsers::span::{evaluator_span, span_bounds, translate_positions, ByteSpan};
use cosparsers::value::{HostValue, RuntimeValue, ThunkState};
use rnix::ParseError as E;

fn attrs(entries: Vec<(&[u8], RuntimeValue)>) -> RuntimeValue {
    RuntimeValue::Attrs(entries.into_iter().map(|(k, v)| (k.to_vec(), v)).collect())
}

#[test]
fn one_based_marker_pair_translates_to_zero_based_half_open() {
    assert_eq!(translate_positions(5, 7), ByteSpan { start: 4, end: 6 });
    assert_eq!(translate_positions(1, 1), ByteSpan { start: 0, end: 0 });
}

#[test]
fn evaluator_spans_translate_through_the_position_type() {
    let mut map = codemap::CodeMap::new();
    let file = map.add_file("f.nix".to_string(), "hello world".to_string());
    let sub = file.span.subspan(4, 6);
    assert_eq!(span_bounds(&sub), (5, 7));
    assert_eq!(evaluator_span(&sub), ByteSpan { start: 4, end: 6 });
    assert_eq!(
        evaluator_span(&file.span),
        ByteSpan { start: 0, end: 11 }
    );
}

#[test]
fn classifier_follows_the_mapping_table() {
    let cases: Vec<(ParseErrorRecord, Option<ByteSpan>, &str)> = vec![
        (
            ParseErrorRecord::Unexpected { start: 1, end: 3 },
            Some(ByteSpan { start: 1, end: 3 }),
            "error node",
        ),
        (
            ParseErrorRecord::UnexpectedExtra { start: 0, end: 2 },
            Some(ByteSpan { start: 0, end: 2 }),
            "unexpected token at",
        ),
        (
            ParseErrorRecord::UnexpectedWanted {
                got: "TOKEN_SEMICOLON".to_string(),
                wanted: "[TOKEN_IDENT]".to_string(),
                start: 5,
                end: 6,
            },
            Some(ByteSpan { start: 5, end: 6 }),
            "expect any of [TOKEN_IDENT], found TOKEN_SEMICOLON",
        ),
        (
            ParseErrorRecord::UnexpectedDoubleBind { start: 2, end: 4 },
            Some(ByteSpan { start: 2, end: 4 }),
            "unexpected double bind",
        ),
        (ParseErrorRecord::UnexpectedEof, None, "unexpected EOF"),
        (
            ParseErrorRecord::UnexpectedEofWanted {
                wanted: "[TOKEN_CURLY_B_CLOSE]".to_string(),
            },
            None,
            "unexpected EOF, expected any of [TOKEN_CURLY_B_CLOSE]",
        ),
        (
            ParseErrorRecord::DuplicatedArgs {
                name: "x".to_string(),
                start: 3,
                end: 4,
            },
            Some(ByteSpan { start: 3, end: 4 }),
            "duplicated argument x",
        ),
        (
            ParseErrorRecord::RecursionLimitExceeded,
            None,
            "recursion limit exceeded",
        ),
        (ParseErrorRecord::Unknown, None, "unknown error"),
    ];
    for (record, span, message) in cases {
        let (s, m) = classify(&record);
        assert_eq!(s, span, "span for {:?}", record);
        assert_eq!(m, message, "message for {:?}", record);
    }
}

#[test]
fn diagnostic_partitions_records_preserving_order() {
    let records = vec![
        ParseErrorRecord::Unexpected { start: 0, end: 1 },
        ParseErrorRecord::UnexpectedEof,
        ParseErrorRecord::UnexpectedDoubleBind { start: 2, end: 3 },
        ParseErrorRecord::RecursionLimitExceeded,
    ];
    let d = build_parse_diagnostic(Some("origin.nix".to_string()), &records);
    assert_eq!(d.title, "failed to parse Nix code");
    assert_eq!(d.annotations.len(), 2);
    assert_eq!(d.annotations[0].span, ByteSpan { start: 0, end: 1 });
    assert_eq!(d.annotations[0].label, "error node");
    assert_eq!(d.annotations[1].span, ByteSpan { start: 2, end: 3 });
    assert_eq!(d.annotations[1].label, "unexpected double bind");
    assert_eq!(
        d.messages,
        vec![
            "unexpected EOF".to_string(),
            "recursion limit exceeded".to_string()
        ]
    );
}

#[test]
fn free_messages_follow_the_snippet_on_their_own_lines() {
    let records = vec![
        ParseErrorRecord::Unexpected { start: 0, end: 1 },
        ParseErrorRecord::UnexpectedEof,
    ];
    let d = build_parse_diagnostic(None, &records);
    let text = render_diagnostic("x;", &d).expect("spans are valid");
    assert!(text.contains("failed to parse Nix code"));
    assert!(text.ends_with("\nunexpected EOF"));
}

#[test]
fn out_of_source_span_is_refused_instead_of_panicking() {
    let records = vec![ParseErrorRecord::Unexpected { start: 0, end: 99 }];
    let d = build_parse_diagnostic(None, &records);
    assert_eq!(render_diagnostic("x;", &d), None);
}

#[test]
fn span_splitting_a_character_is_refused() {
    let records = vec![ParseErrorRecord::Unexpected { start: 1, end: 2 }];
    let d = build_parse_diagnostic(None, &records);
    assert_eq!(render_diagnostic("é;", &d), None);
}

fn convert_rnix_error(e: &rnix::ParseError) -> ParseErrorRecord {
    match e {
        E::Unexpected(r) => {
            let r = std::ops::Range::<usize>::from(*r);
            ParseErrorRecord::Unexpected { start: r.start, end: r.end }
        }
        E::UnexpectedExtra(r) => {
            let r = std::ops::Range::<usize>::from(*r);
            ParseErrorRecord::UnexpectedExtra { start: r.start, end: r.end }
        }
        E::UnexpectedWanted(got, r, kinds) => {
            let r = std::ops::Range::<usize>::from(*r);
            ParseErrorRecord::UnexpectedWanted {
                got: format!("{:?}", got),
                wanted: format!("{:?}", kinds),
                start: r.start,
                end: r.end,
            }
        }
        E::UnexpectedDoubleBind(r) => {
            let r = std::ops::Range::<usize>::from(*r);
            ParseErrorRecord::UnexpectedDoubleBind { start: r.start, end: r.end }
        }
        E::UnexpectedEOF => ParseErrorRecord::UnexpectedEof,
        E::UnexpectedEOFWanted(kinds) => ParseErrorRecord::UnexpectedEofWanted {
            wanted: format!("{:?}", kinds),
        },
        E::DuplicatedArgs(r, name) => {
            let r = std::ops::Range::<usize>::from(*r);
            ParseErrorRecord::DuplicatedArgs { name: name.clone(), start: r.start, end: r.end }
        }
        E::RecursionLimitExceeded => ParseErrorRecord::RecursionLimitExceeded,
        _ => ParseErrorRecord::Unknown,
    }
}

#[test]
fn real_syntax_errors_classify_and_render_deterministically() {
    let source = "{a = ;}";
    let parsed = rnix::Root::parse(source);
    assert!(!parsed.errors().is_empty());
    let records: Vec<ParseErrorRecord> =
        parsed.errors().iter().map(convert_rnix_error).collect();
    let outcome = EvalOutcome::Failure(vec![EvalErrorRecord::Parse(records)]);
    let first = finish_evaluation(&outcome, source, Some("tempfile".to_string()));
    let second = finish_evaluation(&outcome, source, Some("tempfile".to_string()));
    assert_eq!(first, second);
    match first {
        Err(OpError::Parse(text)) => {
            assert!(text.contains("failed to parse Nix code"));
            assert!(text.contains("tempfile"));
        }
        other => panic!("expected a parse failure, got {:?}", other),
    }
}

#[test]
fn successful_outcome_of_an_attrs_yields_the_mapping() {
    let outcome = EvalOutcome::Success(attrs(vec![(b"a", RuntimeValue::Int(1))]));
    assert_eq!(
        finish_evaluation(&outcome, "{a = 1;}", None),
        Ok(vec![("a".to_string(), HostValue::Int(1))])
    );
}

#[test]
fn bare_integer_outcome_is_a_conversion_failure() {
    let outcome = EvalOutcome::Success(RuntimeValue::Int(1));
    assert_eq!(
        finish_evaluation(&outcome, "1", None),
        Err(OpError::Conversion(
            "expected an attrs value, got an integer".to_string()
        ))
    );
}

#[test]
fn unevaluated_thunk_in_outcome_is_a_conversion_failure() {
    let outcome = EvalOutcome::Success(attrs(vec![(
        b"a",
        RuntimeValue::Thunk(ThunkState::Suspended("internal[thunk]".to_string())),
    )]));
    match finish_evaluation(&outcome, "{a = x;}", None) {
        Err(OpError::Conversion(m)) => {
            assert!(m.contains("unevaluated nix thunk"));
        }
        other => panic!("expected a conversion failure, got {:?}", other),
    }
}

#[test]
fn failure_without_records_reports_the_fixed_message() {
    let outcome = EvalOutcome::Failure(vec![]);
    assert_eq!(
        finish_evaluation(&outcome, "x", None),
        Err(OpError::Evaluation(
            "No error is throwed but evaluation failed".to_string()
        ))
    );
}

#[test]
fn wrapper_records_unwrap_to_the_underlying_error() {
    let inner = EvalErrorRecord::Other {
        description: "undefined variable".to_string(),
        span: ByteSpan { start: 0, end: 1 },
    };
    let outcome = EvalOutcome::Failure(vec![EvalErrorRecord::Nested(Box::new(
        EvalErrorRecord::Nested(Box::new(inner)),
    ))]);
    match finish_evaluation(&outcome, "x", Some("f.nix".to_string())) {
        Err(OpError::Evaluation(text)) => {
            assert!(text.contains("undefined variable"));
            assert!(text.contains("f.nix"));
        }
        other => panic!("expected an evaluation failure, got {:?}", other),
    }
}

#[test]
fn parse_record_span_outside_the_source_is_refused() {
    let outcome = EvalOutcome::Failure(vec![EvalErrorRecord::Parse(vec![
        ParseErrorRecord::Unexpected { start: 0, end: 99 },
    ])]);
    assert_eq!(
        finish_evaluation(&outcome, "x", None),
        Err(OpError::Parse(
            "parsing failed, but a reported span lies outside the source text".to_string()
        ))
    );
}

#[test]
fn evaluation_error_span_outside_the_source_is_refused() {
    let outcome = EvalOutcome::Failure(vec![EvalErrorRecord::Other {
        description: "boom".to_string(),
        span: ByteSpan { start: 3, end: 9 },
    }]);
    assert_eq!(
        finish_evaluation(&outcome, "x", None),
        Err(OpError::Evaluation(
            "evaluation failed, but its reported span lies outside the source text".to_string()
        ))
    );
}
