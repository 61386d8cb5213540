//! The value bridge: recursive conversion of a runtime value into a
//! host-native value, rejecting non-representable shapes with a typed error.

use vstd::prelude::*;
use vstd::string::StringExecFns;
use vstd::utf8::{valid_utf8, decode_utf8};
use crate::value::{RuntimeValue, RtView, ThunkState, ThunkView, HostValue, HostView};

verus! {

broadcast use vstd::std_specs::vec::group_vec_axioms;

/// A shape that cannot be represented as a host value, and why.
#[derive(Debug, Clone, PartialEq)]
pub enum ConvError {
    /// An attrs key that is not valid UTF-8; carries the key's lossy rendering.
    InvalidKey(String),
    /// An OS path with no valid string form.
    BadPath,
    /// A thunk that was never evaluated; carries its rendered form.
    SuspendedThunk(String),
    /// A variant outside the representable set; carries its rendered form.
    Unsupported(String),
    /// A value other than an attrs where a mapping was demanded; carries the
    /// shape that was found.
    NotAttrs(String),
    /// A number literal that is neither a 64-bit integer nor a
    /// double-precision float; carries the literal.
    BadNumber(String),
}

/// Mathematical shadow of `ConvError`.
pub enum ErrView {
    InvalidKey(Seq<char>),
    BadPath,
    SuspendedThunk(Seq<char>),
    Unsupported(Seq<char>),
    NotAttrs(Seq<char>),
    BadNumber(Seq<char>),
}

impl View for ConvError {
    type V = ErrView;

    open spec fn view(&self) -> ErrView {
        match self {
            ConvError::InvalidKey(k) => ErrView::InvalidKey(k@),
            ConvError::BadPath => ErrView::BadPath,
            ConvError::SuspendedThunk(d) => ErrView::SuspendedThunk(d@),
            ConvError::Unsupported(d) => ErrView::Unsupported(d@),
            ConvError::NotAttrs(s) => ErrView::NotAttrs(s@),
            ConvError::BadNumber(t) => ErrView::BadNumber(t@),
        }
    }
}

/// What `String::from_utf8_lossy` returns for the given bytes; it depends on
/// the bytes alone.
pub uninterp spec fn lossy_of(bytes: Seq<u8>) -> Seq<char>;

/// Relies on `std::str::from_utf8`: it succeeds exactly on valid UTF-8 and
/// decodes it as vstd's UTF-8 specification describes.
#[verifier::external_body]
fn utf8_to_string(bytes: &Vec<u8>) -> (r: Option<String>)
    ensures
        (r is Some) == valid_utf8(bytes@),
        r matches Some(s) ==> s@ == decode_utf8(bytes@),
{
    std::str::from_utf8(bytes).ok().map(|s| s.to_string())
}

/// Relies on `String::from_utf8_lossy`: its replacement of invalid sequences
/// depends on the bytes alone.
#[verifier::external_body]
fn lossy_to_string(bytes: &Vec<u8>) -> (r: String)
    ensures
        r@ == lossy_of(bytes@),
{
    String::from_utf8_lossy(bytes).into_owned()
}

/// The name of a value's shape, used when a mapping was demanded but the
/// value is something else. An `Opaque` value carries its own rendering.
pub open spec fn spec_shape(v: RtView) -> Seq<char> {
    match v {
        RtView::Null => "null"@,
        RtView::Bool(_) => "a boolean"@,
        RtView::Int(_) => "an integer"@,
        RtView::Float(_) => "a float"@,
        RtView::Str(_) => "a string"@,
        RtView::Path(_) => "a path"@,
        RtView::List(_) => "a list"@,
        RtView::Attrs(_) => "an attrs"@,
        RtView::Thunk(_) => "a thunk"@,
        RtView::Opaque(d) => d,
    }
}

/// The conversion rules, applied recursively, depth-first. A list or attrs
/// conversion fails with the error of its first failing entry; an attrs entry
/// checks its key before its value; an evaluated thunk is transparent.
pub open spec fn conv(v: RtView) -> Result<HostView, ErrView>
    decreases v,
{
    match v {
        RtView::Null => Ok(HostView::Null),
        RtView::Bool(b) => Ok(HostView::Bool(b)),
        RtView::Int(i) => Ok(HostView::Int(i)),
        RtView::Float(t) => Ok(HostView::Float(t)),
        RtView::Str(s) => Ok(HostView::Str(s)),
        RtView::Path(p) => match p {
            Some(s) => Ok(HostView::Str(s)),
            None => Err(ErrView::BadPath),
        },
        RtView::List(elems) => match conv_list(elems) {
            Ok(hs) => Ok(HostView::List(hs)),
            Err(e) => Err(e),
        },
        RtView::Attrs(entries) => match conv_attrs(entries) {
            Ok(es) => Ok(HostView::Dict(es)),
            Err(e) => Err(e),
        },
        RtView::Thunk(t) => match t {
            ThunkView::Evaluated(inner) => conv(*inner),
            ThunkView::Suspended(d) => Err(ErrView::SuspendedThunk(d)),
        },
        RtView::Opaque(d) => Err(ErrView::Unsupported(d)),
    }
}

/// Conversion of a list's elements, in order, stopping at the first failure.
pub open spec fn conv_list(elems: Seq<RtView>) -> Result<Seq<HostView>, ErrView>
    decreases elems,
{
    if elems.len() == 0 {
        Ok(Seq::empty())
    } else {
        match conv_list(elems.drop_last()) {
            Err(e) => Err(e),
            Ok(front) => match conv(elems.last()) {
                Ok(h) => Ok(front.push(h)),
                Err(e) => Err(e),
            },
        }
    }
}

/// Conversion of attrs entries, in order, stopping at the first failure;
/// each entry's key must decode as UTF-8 before its value is converted.
pub open spec fn conv_attrs(entries: Seq<(Seq<u8>, RtView)>) -> Result<
    Seq<(Seq<char>, HostView)>,
    ErrView,
>
    decreases entries,
{
    if entries.len() == 0 {
        Ok(Seq::empty())
    } else {
        match conv_attrs(entries.drop_last()) {
            Err(e) => Err(e),
            Ok(front) => {
                if !valid_utf8(entries.last().0) {
                    Err(ErrView::InvalidKey(lossy_of(entries.last().0)))
                } else {
                    match conv(entries.last().1) {
                        Ok(h) => Ok(front.push((decode_utf8(entries.last().0), h))),
                        Err(e) => Err(e),
                    }
                }
            },
        }
    }
}

/// Conversion demanded to produce a mapping: the value must be an attrs, or
/// an evaluated thunk chain ending in one.
pub open spec fn conv_dict(v: RtView) -> Result<Seq<(Seq<char>, HostView)>, ErrView>
    decreases v,
{
    match v {
        RtView::Attrs(entries) => conv_attrs(entries),
        RtView::Thunk(t) => match t {
            ThunkView::Evaluated(inner) => conv_dict(*inner),
            ThunkView::Suspended(d) => Err(ErrView::SuspendedThunk(d)),
        },
        _ => Err(ErrView::NotAttrs(spec_shape(v))),
    }
}

/// The views of a sequence of host values, element by element.
pub open spec fn hview_seq(hs: Seq<HostValue>) -> Seq<HostView> {
    Seq::new(hs.len(), |i: int| hs[i]@)
}

/// The views of a sequence of runtime values, element by element.
pub open spec fn rtview_seq(vs: Seq<RuntimeValue>) -> Seq<RtView> {
    Seq::new(vs.len(), |i: int| vs[i]@)
}

/// The views of attrs entries, element by element.
pub open spec fn attrs_view(es: Seq<(Vec<u8>, RuntimeValue)>) -> Seq<(Seq<u8>, RtView)> {
    Seq::new(es.len(), |i: int| (es[i].0@, es[i].1@))
}

/// The views of mapping entries, element by element.
pub open spec fn dict_view(es: Seq<(String, HostValue)>) -> Seq<(Seq<char>, HostView)> {
    Seq::new(es.len(), |i: int| (es[i].0@, es[i].1@))
}

/// Why a single attrs entry fails to convert, if it does: an undecodable key,
/// or its value's own failure.
pub open spec fn entry_err(entry: (Seq<u8>, RtView)) -> Option<ErrView> {
    if !valid_utf8(entry.0) {
        Some(ErrView::InvalidKey(lossy_of(entry.0)))
    } else {
        match conv(entry.1) {
            Ok(_) => None,
            Err(e) => Some(e),
        }
    }
}

/// A failing element at position `j`, after a cleanly converting prefix,
/// determines the whole list conversion's error.
proof fn lemma_conv_list_err(es: Seq<RtView>, j: int, e: ErrView)
    requires
        0 <= j < es.len(),
        conv_list(es.take(j)) is Ok,
        conv(es[j]) == Err::<HostView, ErrView>(e),
    ensures
        conv_list(es) == Err::<Seq<HostView>, ErrView>(e),
    decreases es.len(),
{
    if j == es.len() - 1 {
        assert(es.drop_last() =~= es.take(j));
        assert(es.last() == es[j]);
    } else {
        assert(es.drop_last().take(j) =~= es.take(j));
        assert(es.drop_last()[j] == es[j]);
        lemma_conv_list_err(es.drop_last(), j, e);
    }
}

/// A failing entry at position `j`, after a cleanly converting prefix,
/// determines the whole attrs conversion's error.
proof fn lemma_conv_attrs_err(es: Seq<(Seq<u8>, RtView)>, j: int, e: ErrView)
    requires
        0 <= j < es.len(),
        conv_attrs(es.take(j)) is Ok,
        entry_err(es[j]) == Some(e),
    ensures
        conv_attrs(es) == Err::<Seq<(Seq<char>, HostView)>, ErrView>(e),
    decreases es.len(),
{
    if j == es.len() - 1 {
        assert(es.drop_last() =~= es.take(j));
        assert(es.last() == es[j]);
    } else {
        assert(es.drop_last().take(j) =~= es.take(j));
        assert(es.drop_last()[j] == es[j]);
        lemma_conv_attrs_err(es.drop_last(), j, e);
    }
}

/// Converts every element of a list, in order, returning the first failure.
fn list_to_host(l: &Vec<RuntimeValue>) -> (r: Result<Vec<HostValue>, ConvError>)
    ensures
        match r {
            Ok(out) => conv_list(rtview_seq(l@)) == Ok::<Seq<HostView>, ErrView>(hview_seq(out@)),
            Err(e) => conv_list(rtview_seq(l@)) == Err::<Seq<HostView>, ErrView>(e@),
        },
    decreases l,
{
    let ghost es = rtview_seq(l@);
    let mut out: Vec<HostValue> = Vec::new();
    let mut j: usize = 0;
    proof {
        assert(es.take(0) =~= Seq::<RtView>::empty());
        assert(hview_seq(out@) =~= Seq::<HostView>::empty());
    }
    while j < l.len()
        invariant
            j <= l@.len(),
            es == rtview_seq(l@),
            conv_list(es.take(j as int)) == Ok::<Seq<HostView>, ErrView>(hview_seq(out@)),
        decreases l@.len() - j,
    {
        match to_host(&l[j]) {
            Ok(h) => {
                proof {
                    assert(es.take(j as int + 1).drop_last() =~= es.take(j as int));
                    assert(es.take(j as int + 1).last() == es[j as int]);
                    assert(hview_seq(out@.push(h)) =~= hview_seq(out@).push(h@));
                }
                out.push(h);
                j = j + 1;
            },
            Err(e) => {
                proof {
                    lemma_conv_list_err(es, j as int, e@);
                }
                return Err(e);
            },
        }
    }
    proof {
        assert(es.take(l@.len() as int) =~= es);
    }
    Ok(out)
}

/// Converts every attrs entry, in order: the key must decode as UTF-8, then
/// the value is converted; the first failure wins.
fn attrs_to_dict(entries: &Vec<(Vec<u8>, RuntimeValue)>) -> (r: Result<
    Vec<(String, HostValue)>,
    ConvError,
>)
    ensures
        match r {
            Ok(d) => conv_attrs(attrs_view(entries@)) == Ok::<
                Seq<(Seq<char>, HostView)>,
                ErrView,
            >(dict_view(d@)),
            Err(e) => conv_attrs(attrs_view(entries@)) == Err::<
                Seq<(Seq<char>, HostView)>,
                ErrView,
            >(e@),
        },
    decreases entries,
{
    let ghost aes = attrs_view(entries@);
    let mut out: Vec<(String, HostValue)> = Vec::new();
    let mut j: usize = 0;
    proof {
        assert(aes.take(0) =~= Seq::<(Seq<u8>, RtView)>::empty());
        assert(dict_view(out@) =~= Seq::<(Seq<char>, HostView)>::empty());
    }
    while j < entries.len()
        invariant
            j <= entries@.len(),
            aes == attrs_view(entries@),
            conv_attrs(aes.take(j as int)) == Ok::<Seq<(Seq<char>, HostView)>, ErrView>(
                dict_view(out@),
            ),
        decreases entries@.len() - j,
    {
        match utf8_to_string(&entries[j].0) {
            None => {
                let rendered = lossy_to_string(&entries[j].0);
                proof {
                    lemma_conv_attrs_err(
                        aes,
                        j as int,
                        ErrView::InvalidKey(lossy_of(entries@[j as int].0@)),
                    );
                }
                return Err(ConvError::InvalidKey(rendered));
            },
            Some(key) => {
                match to_host(&entries[j].1) {
                    Ok(h) => {
                        proof {
                            assert(aes.take(j as int + 1).drop_last() =~= aes.take(j as int));
                            assert(aes.take(j as int + 1).last() == aes[j as int]);
                            assert(dict_view(out@.push((key, h))) =~= dict_view(out@).push(
                                (key@, h@),
                            ));
                        }
                        out.push((key, h));
                        j = j + 1;
                    },
                    Err(e) => {
                        proof {
                            lemma_conv_attrs_err(aes, j as int, e@);
                        }
                        return Err(e);
                    },
                }
            },
        }
    }
    proof {
        assert(aes.take(entries@.len() as int) =~= aes);
    }
    Ok(out)
}

/// The name of a value's shape, for the error that demands an attrs.
pub fn shape_name(v: &RuntimeValue) -> (r: String)
    ensures
        r@ == spec_shape(v@),
{
    match v {
        RuntimeValue::Null => String::from_str("null"),
        RuntimeValue::Bool(_) => String::from_str("a boolean"),
        RuntimeValue::Int(_) => String::from_str("an integer"),
        RuntimeValue::Float(_) => String::from_str("a float"),
        RuntimeValue::Str(_) => String::from_str("a string"),
        RuntimeValue::Path(_) => String::from_str("a path"),
        RuntimeValue::List(_) => String::from_str("a list"),
        RuntimeValue::Attrs(_) => String::from_str("an attrs"),
        RuntimeValue::Thunk(_) => String::from_str("a thunk"),
        RuntimeValue::Opaque(d) => d.clone(),
    }
}

/// Converts a runtime value into a host value, per the conversion rules.
pub fn to_host(v: &RuntimeValue) -> (r: Result<HostValue, ConvError>)
    ensures
        match r {
            Ok(h) => conv(v@) == Ok::<HostView, ErrView>(h@),
            Err(e) => conv(v@) == Err::<HostView, ErrView>(e@),
        },
    decreases v,
{
    match v {
        RuntimeValue::Null => Ok(HostValue::Null),
        RuntimeValue::Bool(b) => Ok(HostValue::Bool(*b)),
        RuntimeValue::Int(i) => Ok(HostValue::Int(*i)),
        RuntimeValue::Float(t) => Ok(HostValue::Float(t.clone())),
        RuntimeValue::Str(s) => Ok(HostValue::Str(s.clone())),
        RuntimeValue::Path(p) => match p {
            Some(s) => Ok(HostValue::Str(s.clone())),
            None => Err(ConvError::BadPath),
        },
        RuntimeValue::List(l) => {
            proof {
                assert(v@ matches RtView::List(s) && s =~= rtview_seq(l@));
            }
            match list_to_host(l) {
                Ok(out) => {
                    proof {
                        assert(HostValue::List(out)@ matches HostView::List(s) && s =~= hview_seq(
                            out@,
                        ));
                    }
                    Ok(HostValue::List(out))
                },
                Err(e) => Err(e),
            }
        },
        RuntimeValue::Attrs(entries) => {
            proof {
                assert(v@ matches RtView::Attrs(s) && s =~= attrs_view(entries@));
            }
            match attrs_to_dict(entries) {
                Ok(d) => {
                    proof {
                        assert(HostValue::Dict(d)@ matches HostView::Dict(s) && s =~= dict_view(
                            d@,
                        ));
                    }
                    Ok(HostValue::Dict(d))
                },
                Err(e) => Err(e),
            }
        },
        RuntimeValue::Thunk(ThunkState::Evaluated(inner)) => to_host(&**inner),
        RuntimeValue::Thunk(ThunkState::Suspended(d)) => Err(ConvError::SuspendedThunk(d.clone())),
        RuntimeValue::Opaque(d) => Err(ConvError::Unsupported(d.clone())),
    }
}

/// Converts a runtime value into a host mapping: the value must be an attrs,
/// or an evaluated thunk chain ending in one.
pub fn to_dict(v: &RuntimeValue) -> (r: Result<Vec<(String, HostValue)>, ConvError>)
    ensures
        match r {
            Ok(d) => conv_dict(v@) == Ok::<Seq<(Seq<char>, HostView)>, ErrView>(dict_view(d@)),
            Err(e) => conv_dict(v@) == Err::<Seq<(Seq<char>, HostView)>, ErrView>(e@),
        },
    decreases v,
{
    match v {
        RuntimeValue::Attrs(entries) => {
            proof {
                assert(v@ matches RtView::Attrs(s) && s =~= attrs_view(entries@));
            }
            attrs_to_dict(entries)
        },
        RuntimeValue::Thunk(ThunkState::Evaluated(inner)) => to_dict(&**inner),
        RuntimeValue::Thunk(ThunkState::Suspended(d)) => Err(ConvError::SuspendedThunk(d.clone())),
        _ => Err(ConvError::NotAttrs(shape_name(v))),
    }
}

/// The rendered, human-readable description of a conversion failure.
pub open spec fn spec_conv_message(e: ErrView) -> Seq<char> {
    match e {
        ErrView::InvalidKey(k) => "failed to decode attrs key `"@ + k + "` as UTF-8"@,
        ErrView::BadPath => "failed to convert path to string, try wrapping the path as `\"${path}\"`"@,
        ErrView::SuspendedThunk(d) => "cannot convert an unevaluated nix thunk to a host value: "@
            + d,
        ErrView::Unsupported(d) => "cannot convert nix value "@ + d + " to a host value"@,
        ErrView::NotAttrs(s) => "expected an attrs value, got "@ + s,
        ErrView::BadNumber(t) => "could not parse number `"@ + t
            + "` as either a 64-bit integer or a double precision floating point number"@,
    }
}

impl ConvError {
    /// Renders the failure as a human-readable message.
    pub fn message(&self) -> (r: String)
        ensures
            r@ == spec_conv_message(self@),
    {
        match self {
            ConvError::InvalidKey(k) => String::from_str("failed to decode attrs key `").concat(
                k.as_str(),
            ).concat("` as UTF-8"),
            ConvError::BadPath => String::from_str(
                "failed to convert path to string, try wrapping the path as `\"${path}\"`",
            ),
            ConvError::SuspendedThunk(d) => String::from_str(
                "cannot convert an unevaluated nix thunk to a host value: ",
            ).concat(d.as_str()),
            ConvError::Unsupported(d) => String::from_str("cannot convert nix value ").concat(
                d.as_str(),
            ).concat(" to a host value"),
            ConvError::NotAttrs(s) => String::from_str("expected an attrs value, got ").concat(
                s.as_str(),
            ),
            ConvError::BadNumber(t) => String::from_str("could not parse number `").concat(
                t.as_str(),
            ).concat(
                "` as either a 64-bit integer or a double precision floating point number",
            ),
        }
    }
}

/// Law: an evaluated thunk is transparent — converting the wrapped value
/// yields exactly the conversion of the inner value, for both the general
/// conversion and the mapping-demanding one.
pub proof fn lemma_thunk_transparent(inner: RtView)
    ensures
        conv(RtView::Thunk(ThunkView::Evaluated(Box::new(inner)))) == conv(inner),
        conv_dict(RtView::Thunk(ThunkView::Evaluated(Box::new(inner)))) == conv_dict(inner),
{
}

/// A value built only from representable shapes: no suspended thunk, no
/// opaque variant, no stringless path, every attrs key valid UTF-8.
pub open spec fn representable(v: RtView) -> bool
    decreases v,
{
    match v {
        RtView::Null => true,
        RtView::Bool(_) => true,
        RtView::Int(_) => true,
        RtView::Float(_) => true,
        RtView::Str(_) => true,
        RtView::Path(p) => p is Some,
        RtView::List(es) => forall|i: int| 0 <= i < es.len() ==> representable(#[trigger] es[i]),
        RtView::Attrs(entries) => forall|i: int|
            0 <= i < entries.len() ==> valid_utf8(#[trigger] entries[i].0) && representable(
                entries[i].1,
            ),
        RtView::Thunk(t) => match t {
            ThunkView::Evaluated(inner) => representable(*inner),
            ThunkView::Suspended(_) => false,
        },
        RtView::Opaque(_) => false,
    }
}

/// Whether a suspended thunk occurs anywhere in the value.
pub open spec fn has_suspended(v: RtView) -> bool
    decreases v,
{
    match v {
        RtView::List(es) => exists|i: int| 0 <= i < es.len() && has_suspended(#[trigger] es[i]),
        RtView::Attrs(entries) => exists|i: int|
            0 <= i < entries.len() && has_suspended(#[trigger] entries[i].1),
        RtView::Thunk(t) => match t {
            ThunkView::Evaluated(inner) => has_suspended(*inner),
            ThunkView::Suspended(_) => true,
        },
        _ => false,
    }
}

proof fn lemma_conv_list_total(es: Seq<RtView>)
    requires
        forall|i: int| 0 <= i < es.len() ==> representable(#[trigger] es[i]),
    ensures
        conv_list(es) is Ok,
    decreases es,
{
    if es.len() > 0 {
        assert forall|i: int| 0 <= i < es.drop_last().len() implies representable(
            #[trigger] es.drop_last()[i],
        ) by {
            assert(es.drop_last()[i] == es[i]);
        }
        lemma_conv_list_total(es.drop_last());
        lemma_representable_converts(es.last());
    }
}

proof fn lemma_conv_attrs_total(entries: Seq<(Seq<u8>, RtView)>)
    requires
        forall|i: int|
            0 <= i < entries.len() ==> valid_utf8(#[trigger] entries[i].0) && representable(
                entries[i].1,
            ),
    ensures
        conv_attrs(entries) is Ok,
    decreases entries,
{
    if entries.len() > 0 {
        assert forall|i: int| 0 <= i < entries.drop_last().len() implies valid_utf8(
            #[trigger] entries.drop_last()[i].0,
        ) && representable(entries.drop_last()[i].1) by {
            assert(entries.drop_last()[i] == entries[i]);
        }
        lemma_conv_attrs_total(entries.drop_last());
        lemma_representable_converts(entries.last().1);
    }
}

/// Law: totality over representable shapes — conversion of a representable
/// value never fails.
pub proof fn lemma_representable_converts(v: RtView)
    requires
        representable(v),
    ensures
        conv(v) is Ok,
    decreases v,
{
    match v {
        RtView::List(es) => lemma_conv_list_total(es),
        RtView::Attrs(entries) => lemma_conv_attrs_total(entries),
        RtView::Thunk(t) => match t {
            ThunkView::Evaluated(inner) => lemma_representable_converts(*inner),
            ThunkView::Suspended(_) => {},
        },
        _ => {},
    }
}

proof fn lemma_conv_list_ok_elements(es: Seq<RtView>, i: int)
    requires
        conv_list(es) is Ok,
        0 <= i < es.len(),
    ensures
        conv(es[i]) is Ok,
    decreases es,
{
    if i < es.len() - 1 {
        assert(es.drop_last()[i] == es[i]);
        lemma_conv_list_ok_elements(es.drop_last(), i);
    }
}

proof fn lemma_conv_attrs_ok_entries(entries: Seq<(Seq<u8>, RtView)>, i: int)
    requires
        conv_attrs(entries) is Ok,
        0 <= i < entries.len(),
    ensures
        conv(entries[i].1) is Ok,
    decreases entries,
{
    if i < entries.len() - 1 {
        assert(entries.drop_last()[i] == entries[i]);
        lemma_conv_attrs_ok_entries(entries.drop_last(), i);
    }
}

/// Law: unevaluated-thunk rejection — a value holding a suspended thunk
/// anywhere never converts to a host value.
pub proof fn lemma_suspended_rejected(v: RtView)
    requires
        has_suspended(v),
    ensures
        conv(v) is Err,
    decreases v,
{
    match v {
        RtView::List(es) => {
            let i = choose|i: int| 0 <= i < es.len() && has_suspended(#[trigger] es[i]);
            lemma_suspended_rejected(es[i]);
            if conv_list(es) is Ok {
                lemma_conv_list_ok_elements(es, i);
            }
        },
        RtView::Attrs(entries) => {
            let i = choose|i: int|
                0 <= i < entries.len() && has_suspended(#[trigger] entries[i].1);
            lemma_suspended_rejected(entries[i].1);
            if conv_attrs(entries) is Ok {
                lemma_conv_attrs_ok_entries(entries, i);
            }
        },
        RtView::Thunk(t) => match t {
            ThunkView::Evaluated(inner) => lemma_suspended_rejected(*inner),
            ThunkView::Suspended(_) => {},
        },
        _ => {},
    }
}

proof fn lemma_conv_attrs_prefix_ok(entries: Seq<(Seq<u8>, RtView)>)
    requires
        forall|i: int| 0 <= i < entries.len() ==> entry_err(#[trigger] entries[i]) is None,
    ensures
        conv_attrs(entries) is Ok,
    decreases entries,
{
    if entries.len() > 0 {
        assert forall|i: int| 0 <= i < entries.drop_last().len() implies entry_err(
            #[trigger] entries.drop_last()[i],
        ) is None by {
            assert(entries.drop_last()[i] == entries[i]);
        }
        lemma_conv_attrs_prefix_ok(entries.drop_last());
    }
}

/// Law: failure determinism — when every entry before position `j` converts
/// cleanly and the key at `j` is not valid UTF-8, the attrs conversion fails
/// with the error naming exactly that key, whatever its siblings hold.
pub proof fn lemma_invalid_key_named(entries: Seq<(Seq<u8>, RtView)>, j: int)
    requires
        0 <= j < entries.len(),
        forall|i: int| 0 <= i < j ==> entry_err(#[trigger] entries[i]) is None,
        !valid_utf8(entries[j].0),
    ensures
        conv(RtView::Attrs(entries)) == Err::<HostView, ErrView>(
            ErrView::InvalidKey(lossy_of(entries[j].0)),
        ),
{
    assert forall|i: int| 0 <= i < entries.take(j).len() implies entry_err(
        #[trigger] entries.take(j)[i],
    ) is None by {
        assert(entries.take(j)[i] == entries[i]);
    }
    lemma_conv_attrs_prefix_ok(entries.take(j));
    lemma_conv_attrs_err(entries, j, ErrView::InvalidKey(lossy_of(entries[j].0)));
}

} // verus!
