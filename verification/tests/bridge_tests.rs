//! Tests for the value bridge: conversion of runtime values to host values.

use cosparsers::bridge::{to_dict, to_host, ConvError};
use cosparsers::value::{HostValue, RuntimeValue, ThunkState};

fn attrs(entries: Vec<(&[u8], RuntimeValue)>) -> RuntimeValue {
    RuntimeValue::Attrs(entries.into_iter().map(|(k, v)| (k.to_vec(), v)).collect())
}

#[test]
fn scalars_convert_to_themselves() {
    assert_eq!(to_host(&RuntimeValue::Null), Ok(HostValue::Null));
    assert_eq!(to_host(&RuntimeValue::Bool(true)), Ok(HostValue::Bool(true)));
    assert_eq!(to_host(&RuntimeValue::Int(-7)), Ok(HostValue::Int(-7)));
    assert_eq!(
        to_host(&RuntimeValue::Float("2.5".to_string())),
        Ok(HostValue::Float("2.5".to_string()))
    );
    assert_eq!(
        to_host(&RuntimeValue::Str("hi".to_string())),
        Ok(HostValue::Str("hi".to_string()))
    );
}

#[test]
fn path_with_string_form_becomes_string() {
    assert_eq!(
        to_host(&RuntimeValue::Path(Some("/etc/hosts".to_string()))),
        Ok(HostValue::Str("/etc/hosts".to_string()))
    );
}

#[test]
fn path_without_string_form_fails() {
    let r = to_host(&RuntimeValue::Path(None));
    assert_eq!(r, Err(ConvError::BadPath));
    assert!(r.unwrap_err().message().contains("try wrapping the path"));
}

#[test]
fn list_keeps_order() {
    let v = RuntimeValue::List(vec![
        RuntimeValue::Int(1),
        RuntimeValue::Bool(false),
        RuntimeValue::Str("x".to_string()),
    ]);
    assert_eq!(
        to_host(&v),
        Ok(HostValue::List(vec![
            HostValue::Int(1),
            HostValue::Bool(false),
            HostValue::Str("x".to_string()),
        ]))
    );
}

#[test]
fn list_fails_with_first_failing_element() {
    let v = RuntimeValue::List(vec![
        RuntimeValue::Int(1),
        RuntimeValue::Path(None),
        RuntimeValue::Opaque("<LAMBDA>".to_string()),
    ]);
    assert_eq!(to_host(&v), Err(ConvError::BadPath));
}

#[test]
fn attrs_keep_insertion_order() {
    let v = attrs(vec![
        (b"b", RuntimeValue::Int(2)),
        (b"a", RuntimeValue::Int(1)),
    ]);
    assert_eq!(
        to_host(&v),
        Ok(HostValue::Dict(vec![
            ("b".to_string(), HostValue::Int(2)),
            ("a".to_string(), HostValue::Int(1)),
        ]))
    );
}

#[test]
fn invalid_utf8_key_fails_naming_the_key() {
    let bad: &[u8] = &[0xff, 0x61];
    let v = attrs(vec![
        (b"ok", RuntimeValue::Int(1)),
        (bad, RuntimeValue::Int(2)),
    ]);
    let rendered = String::from_utf8_lossy(bad).into_owned();
    let r = to_host(&v);
    assert_eq!(r, Err(ConvError::InvalidKey(rendered.clone())));
    assert_eq!(
        r.unwrap_err().message(),
        format!("failed to decode attrs key `{}` as UTF-8", rendered)
    );
}

#[test]
fn invalid_utf8_key_fails_whatever_the_sibling_order() {
    let bad: &[u8] = &[0xc0];
    let rendered = String::from_utf8_lossy(bad).into_owned();
    let before = attrs(vec![
        (bad, RuntimeValue::Int(2)),
        (b"ok", RuntimeValue::Int(1)),
    ]);
    let after = attrs(vec![
        (b"ok", RuntimeValue::Int(1)),
        (bad, RuntimeValue::Int(2)),
    ]);
    assert_eq!(to_host(&before), Err(ConvError::InvalidKey(rendered.clone())));
    assert_eq!(to_host(&after), Err(ConvError::InvalidKey(rendered)));
}

#[test]
fn evaluated_thunk_is_transparent() {
    let inner = RuntimeValue::Int(5);
    let wrapped = RuntimeValue::Thunk(ThunkState::Evaluated(Box::new(RuntimeValue::Int(5))));
    assert_eq!(to_host(&wrapped), to_host(&inner));
    let nested = RuntimeValue::Thunk(ThunkState::Evaluated(Box::new(RuntimeValue::Thunk(
        ThunkState::Evaluated(Box::new(RuntimeValue::Str("deep".to_string()))),
    ))));
    assert_eq!(to_host(&nested), Ok(HostValue::Str("deep".to_string())));
}

#[test]
fn suspended_thunk_is_rejected() {
    let suspended = RuntimeValue::Thunk(ThunkState::Suspended("internal[thunk]".to_string()));
    assert_eq!(
        to_host(&suspended),
        Err(ConvError::SuspendedThunk("internal[thunk]".to_string()))
    );
}

#[test]
fn suspended_thunk_deep_inside_is_rejected() {
    let v = attrs(vec![(
        b"outer",
        RuntimeValue::List(vec![
            RuntimeValue::Int(1),
            RuntimeValue::Thunk(ThunkState::Suspended("internal[thunk]".to_string())),
        ]),
    )]);
    assert!(matches!(to_host(&v), Err(ConvError::SuspendedThunk(_))));
}

#[test]
fn opaque_variant_is_rejected_with_its_rendering() {
    let r = to_host(&RuntimeValue::Opaque("<LAMBDA>".to_string()));
    assert_eq!(r, Err(ConvError::Unsupported("<LAMBDA>".to_string())));
    assert_eq!(
        r.unwrap_err().message(),
        "cannot convert nix value <LAMBDA> to a host value"
    );
}

#[test]
fn to_dict_demands_an_attrs_at_the_top() {
    let r = to_dict(&RuntimeValue::Int(1));
    assert_eq!(r, Err(ConvError::NotAttrs("an integer".to_string())));
    assert_eq!(
        r.unwrap_err().message(),
        "expected an attrs value, got an integer"
    );
    assert!(matches!(
        to_dict(&RuntimeValue::List(vec![])),
        Err(ConvError::NotAttrs(_))
    ));
}

#[test]
fn to_dict_unwraps_evaluated_thunks() {
    let v = RuntimeValue::Thunk(ThunkState::Evaluated(Box::new(attrs(vec![(
        b"a",
        RuntimeValue::Int(1),
    )]))));
    assert_eq!(
        to_dict(&v),
        Ok(vec![("a".to_string(), HostValue::Int(1))])
    );
}

#[test]
fn to_dict_rejects_suspended_thunks() {
    let v = RuntimeValue::Thunk(ThunkState::Suspended("internal[thunk]".to_string()));
    assert!(matches!(to_dict(&v), Err(ConvError::SuspendedThunk(_))));
}

#[test]
fn every_representable_shape_converts() {
    let tree = attrs(vec![
        (b"null", RuntimeValue::Null),
        (b"flag", RuntimeValue::Bool(true)),
        (b"count", RuntimeValue::Int(42)),
        (b"ratio", RuntimeValue::Float("0.5".to_string())),
        (b"name", RuntimeValue::Str("value".to_string())),
        (b"where", RuntimeValue::Path(Some("/tmp".to_string()))),
        (
            b"items",
            RuntimeValue::List(vec![
                RuntimeValue::Int(1),
                attrs(vec![(b"inner", RuntimeValue::Bool(false))]),
            ]),
        ),
        (
            b"lazy",
            RuntimeValue::Thunk(ThunkState::Evaluated(Box::new(RuntimeValue::Int(9)))),
        ),
    ]);
    let converted = to_host(&tree).expect("a representable tree always converts");
    match converted {
        HostValue::Dict(entries) => {
            assert_eq!(entries.len(), 8);
            assert_eq!(entries[7], ("lazy".to_string(), HostValue::Int(9)));
        }
        other => panic!("expected a mapping, got {:?}", other),
    }
}
