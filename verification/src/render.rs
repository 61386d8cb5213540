//! The diagnostic renderer: turns a title, source text, an optional origin
//! label and annotated spans into one formatted, human-readable report, with
//! free-standing messages appended after the snippet.

use vstd::prelude::*;
use vstd::string::StringExecFns;
use vstd::utf8::encode_utf8;
use crate::span::ByteSpan;

verus! {

broadcast use vstd::std_specs::vec::group_vec_axioms;

/// The byte length of text under UTF-8 encoding.
pub open spec fn byte_len(s: Seq<char>) -> int {
    encode_utf8(s).len() as int
}

/// The byte length of the first `k` characters under UTF-8 encoding.
pub open spec fn prefix_bytes(s: Seq<char>, k: int) -> int {
    encode_utf8(s.take(k)).len() as int
}

/// A byte offset that falls on a character boundary: some character prefix
/// of the text encodes to exactly that many bytes.
pub open spec fn is_boundary(s: Seq<char>, i: int) -> bool {
    exists|k: int| 0 <= k <= s.len() && #[trigger] prefix_bytes(s, k) == i
}

/// A well-formed annotation span: a half-open byte range inside the text,
/// both ends on character boundaries.
pub open spec fn span_ok(s: Seq<char>, start: int, end: int) -> bool {
    0 <= start <= end <= byte_len(s) && is_boundary(s, start) && is_boundary(s, end)
}

/// Relies on `str::len` and `str::is_char_boundary`: an offset is a char
/// boundary exactly where some character prefix of the text encodes to that
/// many UTF-8 bytes (vstd's `encode_utf8` is that encoding), and then never
/// exceeds the text's byte length.
#[verifier::external_body]
fn boundary_in(source: &str, i: usize) -> (b: bool)
    ensures
        b == (is_boundary(source@, i as int) && i <= byte_len(source@)),
{
    source.is_char_boundary(i)
}

/// Whether a span may be rendered against this source text.
pub fn span_valid(source: &str, sp: &ByteSpan) -> (b: bool)
    ensures
        b == span_ok(source@, sp.start as int, sp.end as int),
{
    sp.start <= sp.end && boundary_in(source, sp.start) && boundary_in(source, sp.end)
}

/// A labelled span of the source text.
#[derive(Debug, Clone, PartialEq)]
pub struct Annotation {
    pub span: ByteSpan,
    pub label: String,
}

/// Mathematical shadow of `Annotation`.
pub struct AnnView {
    pub start: int,
    pub end: int,
    pub label: Seq<char>,
}

/// The mathematical shadow of an annotation.
pub open spec fn ann_view(a: Annotation) -> AnnView {
    AnnView { start: a.span.start as int, end: a.span.end as int, label: a.label@ }
}

impl View for Annotation {
    type V = AnnView;

    open spec fn view(&self) -> AnnView {
        ann_view(*self)
    }
}

/// The views of a sequence of annotations, element by element.
pub open spec fn anns_view(s: Seq<Annotation>) -> Seq<AnnView> {
    Seq::new(s.len(), |i: int| s[i]@)
}

/// The views of a sequence of messages, element by element.
pub open spec fn msgs_view(s: Seq<String>) -> Seq<Seq<char>> {
    Seq::new(s.len(), |i: int| s[i]@)
}

/// The view of an optional origin label.
pub open spec fn opt_view(o: Option<String>) -> Option<Seq<char>> {
    match o {
        Some(s) => Some(s@),
        None => None,
    }
}

/// A report to be rendered: a title, an optional origin label, labelled
/// spans in order, and free-standing messages in order.
#[derive(Debug, Clone, PartialEq)]
pub struct Diagnostic {
    pub title: String,
    pub origin: Option<String>,
    pub annotations: Vec<Annotation>,
    pub messages: Vec<String>,
}

/// Mathematical shadow of `Diagnostic`.
pub struct DiagView {
    pub title: Seq<char>,
    pub origin: Option<Seq<char>>,
    pub annotations: Seq<AnnView>,
    pub messages: Seq<Seq<char>>,
}

/// The mathematical shadow of a diagnostic.
pub open spec fn diag_view(d: Diagnostic) -> DiagView {
    DiagView {
        title: d.title@,
        origin: opt_view(d.origin),
        annotations: anns_view(d.annotations@),
        messages: msgs_view(d.messages@),
    }
}

impl View for Diagnostic {
    type V = DiagView;

    open spec fn view(&self) -> DiagView {
        diag_view(*self)
    }
}

/// What the snippet renderer produces for a titled, source-annotated report
/// with labelled spans; it depends on these inputs alone.
pub uninterp spec fn rendered_of(
    title: Seq<char>,
    source: Seq<char>,
    origin: Option<Seq<char>>,
    annotations: Seq<AnnView>,
) -> Seq<char>;

/// What the snippet renderer produces for a titled report with one
/// unlabelled span; it depends on these inputs alone.
pub uninterp spec fn rendered_plain_of(
    title: Seq<char>,
    source: Seq<char>,
    origin: Option<Seq<char>>,
    start: int,
    end: int,
) -> Seq<char>;

/// Relies on annotate_snippets (`Level::Error`, `Snippet::source`, `fold`,
/// `origin`, `Renderer::styled().render`): the rendered report is a
/// deterministic function of title, source, origin and annotations. That
/// renderer panics on a span that leaves the source or splits a character,
/// so every span must be well-formed for the source.
#[verifier::external_body]
fn render_annotated(
    title: &str,
    source: &str,
    origin: &Option<String>,
    annotations: &Vec<Annotation>,
) -> (r: String)
    requires
        forall|i: int|
            0 <= i < annotations@.len() ==> span_ok(
                source@,
                (#[trigger] annotations@[i]).span.start as int,
                annotations@[i].span.end as int,
            ),
    ensures
        r@ == rendered_of(title@, source@, opt_view(*origin), anns_view(annotations@)),
{
    let mut snippet = annotate_snippets::Snippet::source(source).fold(true);
    if let Some(o) = origin {
        snippet = snippet.origin(o);
    }
    let annos = annotations.iter().map(
        |a: &Annotation| annotate_snippets::Level::Error.span(a.span.start..a.span.end).label(
            &a.label,
        ),
    );
    let message = annotate_snippets::Level::Error.title(title).snippet(snippet.annotations(annos));
    annotate_snippets::Renderer::styled().render(message).to_string()
}

/// Relies on annotate_snippets as `render_annotated` does, for a report with
/// a single unlabelled span, which must be well-formed for the source.
#[verifier::external_body]
pub(crate) fn render_plain(title: &str, source: &str, origin: &Option<String>, start: usize, end: usize) -> (r:
    String)
    requires
        span_ok(source@, start as int, end as int),
    ensures
        r@ == rendered_plain_of(title@, source@, opt_view(*origin), start as int, end as int),
{
    let mut snippet = annotate_snippets::Snippet::source(source).fold(true);
    if let Some(o) = origin {
        snippet = snippet.origin(o);
    }
    let message = annotate_snippets::Level::Error.title(title).snippet(
        snippet.annotation(annotate_snippets::Level::Error.span(start..end)),
    );
    annotate_snippets::Renderer::styled().render(message).to_string()
}

/// The free messages, each on a line of its own, appended in order.
pub open spec fn messages_suffix(msgs: Seq<Seq<char>>) -> Seq<char>
    decreases msgs.len(),
{
    if msgs.len() == 0 {
        Seq::empty()
    } else {
        messages_suffix(msgs.drop_last()) + "\n"@ + msgs.last()
    }
}

/// Every annotation of the diagnostic is well-formed for the source.
pub open spec fn diag_spans_ok(source: Seq<char>, d: DiagView) -> bool {
    forall|i: int|
        0 <= i < d.annotations.len() ==> span_ok(
            source,
            (#[trigger] d.annotations[i]).start,
            d.annotations[i].end,
        )
}

/// What rendering a diagnostic produces: the annotated snippet, then each
/// free message on its own line.
pub open spec fn spec_render_diag(source: Seq<char>, d: DiagView) -> Seq<char> {
    rendered_of(d.title, source, d.origin, d.annotations) + messages_suffix(d.messages)
}

/// Renders a diagnostic against its source text, deterministically. `None`
/// where an annotation's span leaves the source or splits a character, which
/// well-formed processor output never produces.
pub fn render_diagnostic(source: &str, d: &Diagnostic) -> (r: Option<String>)
    ensures
        (r is Some) == diag_spans_ok(source@, d@),
        r matches Some(out) ==> out@ == spec_render_diag(source@, d@),
{
    let mut i: usize = 0;
    while i < d.annotations.len()
        invariant
            i <= d.annotations@.len(),
            forall|k: int|
                0 <= k < i ==> span_ok(
                    source@,
                    (#[trigger] anns_view(d.annotations@)[k]).start,
                    anns_view(d.annotations@)[k].end,
                ),
        decreases d.annotations@.len() - i,
    {
        if !span_valid(source, &d.annotations[i].span) {
            proof {
                assert(!span_ok(
                    source@,
                    d.annotations@[i as int].span.start as int,
                    d.annotations@[i as int].span.end as int,
                ));
                assert(anns_view(d.annotations@)[i as int] == d.annotations@[i as int]@);
                assert(d@.annotations[i as int].start == d.annotations@[i as int].span.start as int);
                assert(!span_ok(
                    source@,
                    d@.annotations[i as int].start,
                    d@.annotations[i as int].end,
                ));
                assert(!diag_spans_ok(source@, d@));
            }
            return None;
        }
        proof {
            assert(anns_view(d.annotations@)[i as int] == d.annotations@[i as int]@);
        }
        i = i + 1;
    }
    proof {
        assert forall|k: int| 0 <= k < d.annotations@.len() implies span_ok(
            source@,
            (#[trigger] d.annotations@[k]).span.start as int,
            d.annotations@[k].span.end as int,
        ) by {
            assert(anns_view(d.annotations@)[k] == d.annotations@[k]@);
        }
    }
    let mut out = render_annotated(d.title.as_str(), source, &d.origin, &d.annotations);
    let ghost head = rendered_of(d@.title, source@, d@.origin, d@.annotations);
    let ghost msgs = msgs_view(d.messages@);
    proof {
        assert(msgs.take(0) =~= Seq::<Seq<char>>::empty());
        assert(out@ =~= head + messages_suffix(msgs.take(0)));
    }
    let mut j: usize = 0;
    while j < d.messages.len()
        invariant
            j <= d.messages@.len(),
            msgs == msgs_view(d.messages@),
            head == rendered_of(d@.title, source@, d@.origin, d@.annotations),
            out@ == head + messages_suffix(msgs.take(j as int)),
        decreases d.messages@.len() - j,
    {
        out.append("\n");
        out.append(d.messages[j].as_str());
        proof {
            assert(msgs.take(j as int + 1).drop_last() =~= msgs.take(j as int));
            assert(msgs.take(j as int + 1).last() == msgs[j as int]);
            assert(out@ =~= head + messages_suffix(msgs.take(j as int + 1)));
        }
        j = j + 1;
    }
    proof {
        assert(msgs.take(d.messages@.len() as int) =~= msgs);
    }
    Some(out)
}

} // verus!
