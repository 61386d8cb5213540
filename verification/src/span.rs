//! Position translation: the expression evaluator reports positions as
//! 1-based absolute counters; diagnostics use zero-based half-open byte
//! ranges. The structured-data parser's ranges are already zero-based and
//! need no arithmetic.

use vstd::prelude::*;

verus! {

/// A half-open byte range `[start, end)` into source text, zero-based.
#[derive(Clone, Copy, PartialEq, Eq, Structural, Debug)]
pub struct ByteSpan {
    pub start: usize,
    pub end: usize,
}

/// Declares the evaluator's span type so that its bounds can be read here.
#[verifier::external_type_specification]
#[verifier::external_body]
pub struct ExCodemapSpan(codemap::Span);

/// Relies on `codemap::Span::low`/`high` and the derived `Debug` form of
/// `codemap::Pos` (`Pos(n)`), whose inner counter is private: the two raw
/// 1-based counters of the span. Every `codemap::Span` satisfies
/// `1 <= low <= high`: spans come only from `CodeMap::add_file` (the first
/// file starts at position 1), `subspan` and `merge`, which all preserve it.
#[verifier::external_body]
pub fn span_bounds(s: &codemap::Span) -> (r: (u32, u32))
    ensures
        1 <= r.0 <= r.1,
{
    let low = format!("{:?}", s.low());
    let high = format!("{:?}", s.high());
    let l = low.strip_prefix("Pos(").unwrap().strip_suffix(")").unwrap();
    let h = high.strip_prefix("Pos(").unwrap().strip_suffix(")").unwrap();
    (l.parse::<u32>().unwrap(), h.parse::<u32>().unwrap())
}

/// Translates the evaluator's 1-based inclusive marker pair into a
/// zero-based half-open byte range: both bounds shift down by one.
pub fn translate_positions(low: u32, high: u32) -> (r: ByteSpan)
    requires
        1 <= low,
        low <= high,
    ensures
        r.start == low - 1,
        r.end == high - 1,
        r.start <= r.end,
{
    ByteSpan { start: (low - 1) as usize, end: (high - 1) as usize }
}

/// Translates an evaluator span into a zero-based half-open byte range.
pub fn evaluator_span(s: &codemap::Span) -> (r: ByteSpan)
    ensures
        r.start <= r.end,
{
    let bounds = span_bounds(s);
    translate_positions(bounds.0, bounds.1)
}

} // verus!
