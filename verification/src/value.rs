//! The value models: the runtime value produced by the expression evaluator,
//! and the host-native value that conversion produces.

use vstd::prelude::*;

verus! {

broadcast use vstd::std_specs::vec::group_vec_axioms;

/// The state of a lazy cell inside a runtime value: either already evaluated
/// to an inner value, or still suspended. A suspended thunk carries its
/// rendered form, used only in the error that rejects it.
#[derive(Debug, PartialEq)]
pub enum ThunkState {
    Evaluated(Box<RuntimeValue>),
    Suspended(String),
}

/// The evaluator's runtime value, modelled with plain data: byte-string keys,
/// floats as decimal text that parses back to the same value, and
/// non-representable variants (functions and the like) collapsed into
/// `Opaque` with their rendered form.
#[derive(Debug, PartialEq)]
pub enum RuntimeValue {
    Null,
    Bool(bool),
    Int(i64),
    /// A float, as text that parses back to the same value.
    Float(String),
    Str(String),
    /// An OS path: `Some` holds its string form, `None` stands for a path
    /// that has no valid string form.
    Path(Option<String>),
    List(Vec<RuntimeValue>),
    /// Ordered mapping from byte-string key to value.
    Attrs(Vec<(Vec<u8>, RuntimeValue)>),
    Thunk(ThunkState),
    Opaque(String),
}

/// Mathematical shadow of `ThunkState`.
pub enum ThunkView {
    Evaluated(Box<RtView>),
    Suspended(Seq<char>),
}

/// Mathematical shadow of `RuntimeValue`.
pub enum RtView {
    Null,
    Bool(bool),
    Int(int),
    Float(Seq<char>),
    Str(Seq<char>),
    Path(Option<Seq<char>>),
    List(Seq<RtView>),
    Attrs(Seq<(Seq<u8>, RtView)>),
    Thunk(ThunkView),
    Opaque(Seq<char>),
}

/// The mathematical shadow of a runtime value.
pub open spec fn rt_view(v: RuntimeValue) -> RtView
    decreases v,
{
    match v {
        RuntimeValue::Null => RtView::Null,
        RuntimeValue::Bool(b) => RtView::Bool(b),
        RuntimeValue::Int(i) => RtView::Int(i as int),
        RuntimeValue::Float(t) => RtView::Float(t@),
        RuntimeValue::Str(s) => RtView::Str(s@),
        RuntimeValue::Path(p) => RtView::Path(match p {
            Some(s) => Some(s@),
            None => None,
        }),
        RuntimeValue::List(l) => RtView::List(
            Seq::new(l@.len(), |i: int| if 0 <= i < l@.len() {
                rt_view(l[i])
            } else {
                RtView::Null
            }),
        ),
        RuntimeValue::Attrs(entries) => RtView::Attrs(
            Seq::new(entries@.len(), |i: int| if 0 <= i < entries@.len() {
                (entries[i].0@, rt_view(entries[i].1))
            } else {
                (Seq::empty(), RtView::Null)
            }),
        ),
        RuntimeValue::Thunk(t) => RtView::Thunk(match t {
            ThunkState::Evaluated(inner) => ThunkView::Evaluated(Box::new(rt_view(*inner))),
            ThunkState::Suspended(d) => ThunkView::Suspended(d@),
        }),
        RuntimeValue::Opaque(d) => RtView::Opaque(d@),
    }
}

impl View for RuntimeValue {
    type V = RtView;

    open spec fn view(&self) -> RtView {
        rt_view(*self)
    }
}

/// The host-native value that conversion produces: floats are carried as
/// decimal text that parses back to the same value, mappings keep their
/// insertion order.
#[derive(Debug, PartialEq)]
pub enum HostValue {
    Null,
    Bool(bool),
    Int(i64),
    /// A float, as text that parses back to the same value.
    Float(String),
    Str(String),
    List(Vec<HostValue>),
    Dict(Vec<(String, HostValue)>),
}

/// Mathematical shadow of `HostValue`.
pub enum HostView {
    Null,
    Bool(bool),
    Int(int),
    Float(Seq<char>),
    Str(Seq<char>),
    List(Seq<HostView>),
    Dict(Seq<(Seq<char>, HostView)>),
}

/// The mathematical shadow of a host value.
pub open spec fn host_view(v: HostValue) -> HostView
    decreases v,
{
    match v {
        HostValue::Null => HostView::Null,
        HostValue::Bool(b) => HostView::Bool(b),
        HostValue::Int(i) => HostView::Int(i as int),
        HostValue::Float(t) => HostView::Float(t@),
        HostValue::Str(s) => HostView::Str(s@),
        HostValue::List(l) => HostView::List(
            Seq::new(l@.len(), |i: int| if 0 <= i < l@.len() {
                host_view(l[i])
            } else {
                HostView::Null
            }),
        ),
        HostValue::Dict(entries) => HostView::Dict(
            Seq::new(entries@.len(), |i: int| if 0 <= i < entries@.len() {
                (entries[i].0@, host_view(entries[i].1))
            } else {
                (Seq::empty(), HostView::Null)
            }),
        ),
    }
}

impl View for HostValue {
    type V = HostView;

    open spec fn view(&self) -> HostView {
        host_view(*self)
    }
}

} // verus!
