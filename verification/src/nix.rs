//! The evaluation entry: finishes an expression-evaluator run by converting
//! its value to a host mapping, or by classifying and rendering its errors.
//! Running the evaluator itself is outside work that the embedding performs;
//! it hands the outcome here.

use vstd::prelude::*;
use vstd::string::StringExecFns;
use crate::bridge::{conv_dict, spec_conv_message, to_dict, dict_view};
use crate::classify::{
    EvalErrorRecord, EvalErrView, spec_resolve, resolve_error,
    spec_parse_diagnostic, build_parse_diagnostic,
};
use crate::errors::{OpError, OpErrView};
use crate::render::{
    diag_spans_ok, opt_view, render_diagnostic, render_plain, rendered_plain_of, span_ok,
    span_valid, spec_render_diag,
};
use crate::value::{HostValue, RuntimeValue, rt_view, RtView};

verus! {

broadcast use vstd::std_specs::vec::group_vec_axioms;

/// What one evaluator run produced: a value, or its failure records.
#[derive(Debug, PartialEq)]
pub enum EvalOutcome {
    Success(RuntimeValue),
    Failure(Vec<EvalErrorRecord>),
}

/// Mathematical shadow of `EvalOutcome`.
pub enum OutcomeView {
    Success(RtView),
    Failure(Seq<EvalErrView>),
}

/// The views of a sequence of failure records, element by element.
pub open spec fn errs_view(es: Seq<EvalErrorRecord>) -> Seq<EvalErrView> {
    Seq::new(es.len(), |i: int| es[i]@)
}

/// The mathematical shadow of an evaluator outcome.
pub open spec fn outcome_view(o: EvalOutcome) -> OutcomeView {
    match o {
        EvalOutcome::Success(v) => OutcomeView::Success(rt_view(v)),
        EvalOutcome::Failure(es) => OutcomeView::Failure(errs_view(es@)),
    }
}

impl View for EvalOutcome {
    type V = OutcomeView;

    open spec fn view(&self) -> OutcomeView {
        outcome_view(*self)
    }
}

/// The message used when evaluation failed without reporting any error.
pub open spec fn no_error_message() -> Seq<char> {
    "No error is throwed but evaluation failed"@
}

/// The message used when a reported span leaves the source or splits a
/// character, which well-formed evaluator output never produces.
pub open spec fn bad_span_message() -> Seq<char> {
    "evaluation failed, but its reported span lies outside the source text"@
}

/// The message used when a parse record's span leaves the source or splits a
/// character, which well-formed parser output never produces.
pub open spec fn parse_bad_span_message() -> Seq<char> {
    "parsing failed, but a reported span lies outside the source text"@
}

/// What finishing an evaluator run yields, for every outcome: on success the
/// value converted to a mapping, or the conversion failure's message; on
/// failure the first error record, unwrapped, classified and rendered — a
/// parse diagnostic for aggregated parse errors, a single-span evaluation
/// report otherwise — and a fixed message where no record or a malformed
/// span was reported.
pub open spec fn spec_finish(
    outcome: OutcomeView,
    source: Seq<char>,
    origin: Option<Seq<char>>,
) -> Result<Seq<(Seq<char>, crate::value::HostView)>, OpErrView> {
    match outcome {
        OutcomeView::Success(v) => match conv_dict(v) {
            Ok(d) => Ok(d),
            Err(e) => Err(OpErrView::Conversion(spec_conv_message(e))),
        },
        OutcomeView::Failure(errs) => if errs.len() == 0 {
            Err(OpErrView::Evaluation(no_error_message()))
        } else {
            match spec_resolve(errs[0]) {
                EvalErrView::Parse(records) => {
                    let d = spec_parse_diagnostic(origin, records);
                    if diag_spans_ok(source, d) {
                        Err(OpErrView::Parse(spec_render_diag(source, d)))
                    } else {
                        Err(OpErrView::Parse(parse_bad_span_message()))
                    }
                },
                EvalErrView::Other { description, start, end } => {
                    if span_ok(source, start, end) {
                        Err(
                            OpErrView::Evaluation(
                                rendered_plain_of(description, source, origin, start, end),
                            ),
                        )
                    } else {
                        Err(OpErrView::Evaluation(bad_span_message()))
                    }
                },
                EvalErrView::Nested(_) => Err(OpErrView::Evaluation(bad_span_message())),
            }
        },
    }
}

/// Finishes an evaluator run: converts a produced value to a host mapping
/// demanding an attrs at the top, or renders the failure as one diagnostic.
/// Identical outcomes, sources and origins yield identical results.
pub fn finish_evaluation(outcome: &EvalOutcome, source: &str, origin: Option<String>) -> (r: Result<
    Vec<(String, HostValue)>,
    OpError,
>)
    ensures
        match r {
            Ok(d) => spec_finish(outcome@, source@, opt_view(origin)) == Ok::<
                Seq<(Seq<char>, crate::value::HostView)>,
                OpErrView,
            >(dict_view(d@)),
            Err(e) => spec_finish(outcome@, source@, opt_view(origin)) == Err::<
                Seq<(Seq<char>, crate::value::HostView)>,
                OpErrView,
            >(e@),
        },
{
    match outcome {
        EvalOutcome::Success(v) => match to_dict(v) {
            Ok(d) => Ok(d),
            Err(e) => Err(OpError::Conversion(e.message())),
        },
        EvalOutcome::Failure(errors) => {
            if errors.len() == 0 {
                Err(OpError::Evaluation(String::from_str("No error is throwed but evaluation failed")))
            } else {
                proof {
                    assert(outcome@ matches OutcomeView::Failure(es) && es =~= errs_view(errors@));
                    assert(errs_view(errors@)[0] == errors@[0]@);
                }
                let first = resolve_error(&errors[0]);
                match first {
                    EvalErrorRecord::Parse(records) => {
                        let d = build_parse_diagnostic(origin, records);
                        match render_diagnostic(source, &d) {
                            Some(text) => Err(OpError::Parse(text)),
                            None => Err(
                                OpError::Parse(
                                    String::from_str(
                                        "parsing failed, but a reported span lies outside the source text",
                                    ),
                                ),
                            ),
                        }
                    },
                    EvalErrorRecord::Other { description, span } => {
                        if span_valid(source, span) {
                            Err(
                                OpError::Evaluation(
                                    render_plain(
                                        description.as_str(),
                                        source,
                                        &origin,
                                        span.start,
                                        span.end,
                                    ),
                                ),
                            )
                        } else {
                            Err(
                                OpError::Evaluation(
                                    String::from_str(
                                        "evaluation failed, but its reported span lies outside the source text",
                                    ),
                                ),
                            )
                        }
                    },
                    EvalErrorRecord::Nested(_) => Err(
                        OpError::Evaluation(
                            String::from_str(
                                "evaluation failed, but its reported span lies outside the source text",
                            ),
                        ),
                    ),
                }
            }
        },
    }
}

} // verus!
