//! The error classifier: maps each of the expression parser's structured
//! error records to either a labelled span or a span-less message, and folds
//! a sequence of them into one diagnostic, preserving order.

use vstd::prelude::*;
use vstd::string::StringExecFns;
use crate::span::ByteSpan;
use crate::render::{Annotation, AnnView, Diagnostic, DiagView, anns_view, msgs_view, opt_view};

verus! {

broadcast use vstd::std_specs::vec::group_vec_axioms;

/// One structured error record from the expression parser, with positions as
/// zero-based half-open byte ranges and token kinds already rendered as text.
#[derive(Debug, Clone, PartialEq)]
pub enum ParseErrorRecord {
    /// An unexpected node.
    Unexpected { start: usize, end: usize },
    /// An extra token after the root.
    UnexpectedExtra { start: usize, end: usize },
    /// A different token than the wanted kinds.
    UnexpectedWanted { got: String, wanted: String, start: usize, end: usize },
    /// A pattern bound twice.
    UnexpectedDoubleBind { start: usize, end: usize },
    /// The end of input where tokens were still expected.
    UnexpectedEof,
    /// The end of input where specific kinds were expected.
    UnexpectedEofWanted { wanted: String },
    /// A formal argument name repeated.
    DuplicatedArgs { name: String, start: usize, end: usize },
    /// Parsing stopped close to the recursion limit.
    RecursionLimitExceeded,
    /// Any other variant.
    Unknown,
}

/// Mathematical shadow of `ParseErrorRecord`.
pub enum RecView {
    Unexpected { start: int, end: int },
    UnexpectedExtra { start: int, end: int },
    UnexpectedWanted { got: Seq<char>, wanted: Seq<char>, start: int, end: int },
    UnexpectedDoubleBind { start: int, end: int },
    UnexpectedEof,
    UnexpectedEofWanted { wanted: Seq<char> },
    DuplicatedArgs { name: Seq<char>, start: int, end: int },
    RecursionLimitExceeded,
    Unknown,
}

/// The mathematical shadow of a parse-error record.
pub open spec fn rec_view(r: ParseErrorRecord) -> RecView {
    match r {
        ParseErrorRecord::Unexpected { start, end } => RecView::Unexpected {
            start: start as int,
            end: end as int,
        },
        ParseErrorRecord::UnexpectedExtra { start, end } => RecView::UnexpectedExtra {
            start: start as int,
            end: end as int,
        },
        ParseErrorRecord::UnexpectedWanted { got, wanted, start, end } => RecView::UnexpectedWanted {
            got: got@,
            wanted: wanted@,
            start: start as int,
            end: end as int,
        },
        ParseErrorRecord::UnexpectedDoubleBind { start, end } => RecView::UnexpectedDoubleBind {
            start: start as int,
            end: end as int,
        },
        ParseErrorRecord::UnexpectedEof => RecView::UnexpectedEof,
        ParseErrorRecord::UnexpectedEofWanted { wanted } => RecView::UnexpectedEofWanted {
            wanted: wanted@,
        },
        ParseErrorRecord::DuplicatedArgs { name, start, end } => RecView::DuplicatedArgs {
            name: name@,
            start: start as int,
            end: end as int,
        },
        ParseErrorRecord::RecursionLimitExceeded => RecView::RecursionLimitExceeded,
        ParseErrorRecord::Unknown => RecView::Unknown,
    }
}

impl View for ParseErrorRecord {
    type V = RecView;

    open spec fn view(&self) -> RecView {
        rec_view(*self)
    }
}

/// The views of a sequence of records, element by element.
pub open spec fn recs_view(rs: Seq<ParseErrorRecord>) -> Seq<RecView> {
    Seq::new(rs.len(), |i: int| rs[i]@)
}

/// The classifier table: each record yields an optional span and a message.
/// Records at a source range become annotations; end-of-input and limit
/// records carry no span.
pub open spec fn spec_classify(r: RecView) -> (Option<(int, int)>, Seq<char>) {
    match r {
        RecView::Unexpected { start, end } => (Some((start, end)), "error node"@),
        RecView::UnexpectedExtra { start, end } => (Some((start, end)), "unexpected token at"@),
        RecView::UnexpectedWanted { got, wanted, start, end } => (
            Some((start, end)),
            "expect any of "@ + wanted + ", found "@ + got,
        ),
        RecView::UnexpectedDoubleBind { start, end } => (
            Some((start, end)),
            "unexpected double bind"@,
        ),
        RecView::UnexpectedEof => (None, "unexpected EOF"@),
        RecView::UnexpectedEofWanted { wanted } => (
            None,
            "unexpected EOF, expected any of "@ + wanted,
        ),
        RecView::DuplicatedArgs { name, start, end } => (
            Some((start, end)),
            "duplicated argument "@ + name,
        ),
        RecView::RecursionLimitExceeded => (None, "recursion limit exceeded"@),
        RecView::Unknown => (None, "unknown error"@),
    }
}

/// Classifies one record into an optional span and its message.
pub fn classify(r: &ParseErrorRecord) -> (res: (Option<ByteSpan>, String))
    ensures
        spec_classify(r@).0 == match res.0 {
            Some(b) => Some((b.start as int, b.end as int)),
            None => None::<(int, int)>,
        },
        res.1@ == spec_classify(r@).1,
{
    match r {
        ParseErrorRecord::Unexpected { start, end } => (
            Some(ByteSpan { start: *start, end: *end }),
            String::from_str("error node"),
        ),
        ParseErrorRecord::UnexpectedExtra { start, end } => (
            Some(ByteSpan { start: *start, end: *end }),
            String::from_str("unexpected token at"),
        ),
        ParseErrorRecord::UnexpectedWanted { got, wanted, start, end } => (
            Some(ByteSpan { start: *start, end: *end }),
            String::from_str("expect any of ").concat(wanted.as_str()).concat(", found ").concat(
                got.as_str(),
            ),
        ),
        ParseErrorRecord::UnexpectedDoubleBind { start, end } => (
            Some(ByteSpan { start: *start, end: *end }),
            String::from_str("unexpected double bind"),
        ),
        ParseErrorRecord::UnexpectedEof => (None, String::from_str("unexpected EOF")),
        ParseErrorRecord::UnexpectedEofWanted { wanted } => (
            None,
            String::from_str("unexpected EOF, expected any of ").concat(wanted.as_str()),
        ),
        ParseErrorRecord::DuplicatedArgs { name, start, end } => (
            Some(ByteSpan { start: *start, end: *end }),
            String::from_str("duplicated argument ").concat(name.as_str()),
        ),
        ParseErrorRecord::RecursionLimitExceeded => (
            None,
            String::from_str("recursion limit exceeded"),
        ),
        ParseErrorRecord::Unknown => (None, String::from_str("unknown error")),
    }
}

/// The fold of classified records into annotation and free-message lists,
/// each in record order.
pub open spec fn spec_partition(rs: Seq<RecView>) -> (Seq<AnnView>, Seq<Seq<char>>)
    decreases rs.len(),
{
    if rs.len() == 0 {
        (Seq::empty(), Seq::empty())
    } else {
        let front = spec_partition(rs.drop_last());
        match spec_classify(rs.last()).0 {
            Some(b) => (
                front.0.push(AnnView { start: b.0, end: b.1, label: spec_classify(rs.last()).1 }),
                front.1,
            ),
            None => (front.0, front.1.push(spec_classify(rs.last()).1)),
        }
    }
}

/// The fixed title of a parse-failure diagnostic.
pub open spec fn parse_title() -> Seq<char> {
    "failed to parse Nix code"@
}

/// The diagnostic for a sequence of parse-error records: the fixed title,
/// the given origin, and the records partitioned into annotations and free
/// messages.
pub open spec fn spec_parse_diagnostic(origin: Option<Seq<char>>, rs: Seq<RecView>) -> DiagView {
    DiagView {
        title: parse_title(),
        origin,
        annotations: spec_partition(rs).0,
        messages: spec_partition(rs).1,
    }
}

/// Builds the parse-failure diagnostic from the records, in order.
pub fn build_parse_diagnostic(origin: Option<String>, records: &Vec<ParseErrorRecord>) -> (d:
    Diagnostic)
    ensures
        d@ == spec_parse_diagnostic(opt_view(origin), recs_view(records@)),
{
    let ghost rv = recs_view(records@);
    let mut annotations: Vec<Annotation> = Vec::new();
    let mut messages: Vec<String> = Vec::new();
    let mut j: usize = 0;
    proof {
        assert(rv.take(0) =~= Seq::<RecView>::empty());
        assert(anns_view(annotations@) =~= Seq::<AnnView>::empty());
        assert(msgs_view(messages@) =~= Seq::<Seq<char>>::empty());
    }
    while j < records.len()
        invariant
            j <= records@.len(),
            rv == recs_view(records@),
            anns_view(annotations@) == spec_partition(rv.take(j as int)).0,
            msgs_view(messages@) == spec_partition(rv.take(j as int)).1,
        decreases records@.len() - j,
    {
        let (span, message) = classify(&records[j]);
        proof {
            assert(rv.take(j as int + 1).drop_last() =~= rv.take(j as int));
            assert(rv.take(j as int + 1).last() == rv[j as int]);
        }
        match span {
            Some(b) => {
                let ann = Annotation { span: b, label: message };
                proof {
                    assert(anns_view(annotations@.push(ann)) =~= anns_view(annotations@).push(
                        ann@,
                    ));
                }
                annotations.push(ann);
            },
            None => {
                proof {
                    assert(msgs_view(messages@.push(message)) =~= msgs_view(messages@).push(
                        message@,
                    ));
                }
                messages.push(message);
            },
        }
        j = j + 1;
    }
    proof {
        assert(rv.take(records@.len() as int) =~= rv);
    }
    let d = Diagnostic { title: String::from_str("failed to parse Nix code"), origin, annotations, messages };
    d
}

/// One evaluation-failure record: an aggregate of parse errors, a wrapper
/// around an underlying error, or any other failure with its rendered
/// description and its span, already translated to byte offsets.
#[derive(Debug, PartialEq)]
pub enum EvalErrorRecord {
    Parse(Vec<ParseErrorRecord>),
    Nested(Box<EvalErrorRecord>),
    Other { description: String, span: ByteSpan },
}

/// Mathematical shadow of `EvalErrorRecord`.
pub enum EvalErrView {
    Parse(Seq<RecView>),
    Nested(Box<EvalErrView>),
    Other { description: Seq<char>, start: int, end: int },
}

/// The mathematical shadow of an evaluation-failure record.
pub open spec fn eval_err_view(e: EvalErrorRecord) -> EvalErrView
    decreases e,
{
    match e {
        EvalErrorRecord::Parse(records) => EvalErrView::Parse(recs_view(records@)),
        EvalErrorRecord::Nested(inner) => EvalErrView::Nested(Box::new(eval_err_view(*inner))),
        EvalErrorRecord::Other { description, span } => EvalErrView::Other {
            description: description@,
            start: span.start as int,
            end: span.end as int,
        },
    }
}

impl View for EvalErrorRecord {
    type V = EvalErrView;

    open spec fn view(&self) -> EvalErrView {
        eval_err_view(*self)
    }
}

/// Unwraps wrapper records down to the underlying error.
pub open spec fn spec_resolve(e: EvalErrView) -> EvalErrView
    decreases e,
{
    match e {
        EvalErrView::Nested(inner) => spec_resolve(*inner),
        _ => e,
    }
}

/// The resolved record is never itself a wrapper.
pub proof fn lemma_resolve_flat(e: EvalErrView)
    ensures
        !(spec_resolve(e) is Nested),
    decreases e,
{
    match e {
        EvalErrView::Nested(inner) => lemma_resolve_flat(*inner),
        _ => {},
    }
}

/// Follows wrapper records down to the underlying error.
pub fn resolve_error(e: &EvalErrorRecord) -> (r: &EvalErrorRecord)
    ensures
        r@ == spec_resolve(e@),
        !(r@ is Nested),
    decreases e,
{
    proof {
        lemma_resolve_flat(e@);
    }
    match e {
        EvalErrorRecord::Nested(inner) => resolve_error(&**inner),
        _ => e,
    }
}

} // verus!
