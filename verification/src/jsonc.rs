//! The structured-data entry: parses comment-tolerant structured text
//! through the outside parser and converts the result to a host value, or
//! renders the single parse error as a diagnostic.

use vstd::prelude::*;
use vstd::string::StringExecFns;
use crate::bridge::spec_conv_message;
use crate::errors::{OpError, OpErrView};
use crate::json::{JsonNode, JsonView, json_view, json_to_host, conv_json};
use crate::render::{opt_view, render_plain, rendered_plain_of, span_ok, span_valid};
use crate::span::ByteSpan;
use crate::value::{HostValue, HostView};

verus! {

/// What one run of the structured-data parser produced: a value, no value at
/// all, or a parse error with its message and its zero-based byte range.
#[derive(Debug, PartialEq)]
pub enum JsoncOutcome {
    Value(JsonNode),
    Empty,
    Failure { message: String, start: usize, end: usize },
}

/// Mathematical shadow of `JsoncOutcome`.
pub enum JsoncView {
    Value(JsonView),
    Empty,
    Failure { message: Seq<char>, start: int, end: int },
}

/// The mathematical shadow of a parser outcome.
pub open spec fn jsonc_view(o: JsoncOutcome) -> JsoncView {
    match o {
        JsoncOutcome::Value(v) => JsoncView::Value(json_view(v)),
        JsoncOutcome::Empty => JsoncView::Empty,
        JsoncOutcome::Failure { message, start, end } => JsoncView::Failure {
            message: message@,
            start: start as int,
            end: end as int,
        },
    }
}

/// What the structured-data parser returns for the given text; it depends on
/// the text alone.
pub uninterp spec fn jsonc_outcome(content: Seq<char>) -> JsoncView;

/// Declares the outside parser's value type so it can be converted here.
#[verifier::external_type_specification]
#[verifier::external_body]
pub struct ExJsoncValue<'a>(jsonc_parser::JsonValue<'a>);

/// Relies on jsonc_parser's `JsonValue`: moves each variant into the
/// library's model, one arm each; numbers keep their textual form.
#[verifier::external_body]
fn convert_json(v: &jsonc_parser::JsonValue) -> JsonNode {
    match v {
        jsonc_parser::JsonValue::Null => JsonNode::Null,
        jsonc_parser::JsonValue::Boolean(b) => JsonNode::Bool(*b),
        jsonc_parser::JsonValue::Number(n) => JsonNode::Num(n.to_string()),
        jsonc_parser::JsonValue::String(s) => JsonNode::Str(s.to_string()),
        jsonc_parser::JsonValue::Array(a) => JsonNode::Arr(a.iter().map(convert_json).collect()),
        jsonc_parser::JsonValue::Object(o) => JsonNode::Obj(
            o.clone().into_iter().map(|(k, val)| (k.to_string(), convert_json(&val))).collect(),
        ),
    }
}

/// Relies on `jsonc_parser::parse_to_value` with default options: the result
/// is a deterministic function of the text alone — a value, nothing, or one
/// error whose range is a byte range of token positions in the text.
#[verifier::external_body]
fn parse_jsonc(content: &str) -> (r: JsoncOutcome)
    ensures
        jsonc_view(r) == jsonc_outcome(content@),
{
    match jsonc_parser::parse_to_value(content, &Default::default()) {
        Ok(Some(v)) => JsoncOutcome::Value(convert_json(&v)),
        Ok(None) => JsoncOutcome::Empty,
        Err(e) => JsoncOutcome::Failure {
            message: e.kind().to_string(),
            start: e.range().start,
            end: e.range().end,
        },
    }
}

/// The message used when the parsed text holds no value at all.
pub open spec fn empty_content_message() -> Seq<char> {
    "Parsed JSONC content is empty or invalid"@
}

/// The message used when the parser's reported span leaves the source or
/// splits a character, which well-formed parser output never produces.
pub open spec fn parse_bad_span_message() -> Seq<char> {
    "parsing failed, but its reported span lies outside the source text"@
}

/// What parsing structured text yields, for every outcome: the parsed value
/// converted to a host value or the conversion failure's message; a fixed
/// message where no value came back; the rendered single-span diagnostic
/// where parsing failed.
pub open spec fn spec_parse_source(content: Seq<char>, origin: Option<Seq<char>>) -> Result<
    HostView,
    OpErrView,
> {
    match jsonc_outcome(content) {
        JsoncView::Value(v) => match conv_json(v) {
            Ok(h) => Ok(h),
            Err(e) => Err(OpErrView::Conversion(spec_conv_message(e))),
        },
        JsoncView::Empty => Err(OpErrView::Parse(empty_content_message())),
        JsoncView::Failure { message, start, end } => if span_ok(content, start, end) {
            Err(OpErrView::Parse(rendered_plain_of(message, content, origin, start, end)))
        } else {
            Err(OpErrView::Parse(parse_bad_span_message()))
        },
    }
}

/// Parses structured text and converts it to a host value, rendering a
/// failure against the given origin label. Identical text and origin yield
/// identical results.
pub fn parse_source(content: &str, origin: Option<String>) -> (r: Result<HostValue, OpError>)
    ensures
        match r {
            Ok(h) => spec_parse_source(content@, opt_view(origin)) == Ok::<HostView, OpErrView>(
                h@,
            ),
            Err(e) => spec_parse_source(content@, opt_view(origin)) == Err::<HostView, OpErrView>(
                e@,
            ),
        },
{
    match parse_jsonc(content) {
        JsoncOutcome::Value(v) => match json_to_host(&v) {
            Ok(h) => Ok(h),
            Err(e) => Err(OpError::Conversion(e.message())),
        },
        JsoncOutcome::Empty => Err(
            OpError::Parse(String::from_str("Parsed JSONC content is empty or invalid")),
        ),
        JsoncOutcome::Failure { message, start, end } => {
            let sp = ByteSpan { start, end };
            if span_valid(content, &sp) {
                Err(
                    OpError::Parse(render_plain(message.as_str(), content, &origin, start, end)),
                )
            } else {
                Err(
                    OpError::Parse(
                        String::from_str(
                            "parsing failed, but its reported span lies outside the source text",
                        ),
                    ),
                )
            }
        },
    }
}

/// Parses structured text with no origin label.
pub fn loads(content: &str) -> (r: Result<HostValue, OpError>)
    ensures
        match r {
            Ok(h) => spec_parse_source(content@, None) == Ok::<HostView, OpErrView>(h@),
            Err(e) => spec_parse_source(content@, None) == Err::<HostView, OpErrView>(e@),
        },
{
    parse_source(content, None)
}

} // verus!
