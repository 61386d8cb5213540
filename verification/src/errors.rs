//! The failure taxonomy of the entry operations: a parse failure, an
//! evaluation failure, or a conversion failure, each carrying its fully
//! rendered, human-readable message. Reading a file can also fail, but that
//! happens outside this library.

use vstd::prelude::*;

verus! {

/// A failed entry operation, with its rendered message.
#[derive(Debug, Clone, PartialEq)]
pub enum OpError {
    /// The source is syntactically invalid in its grammar.
    Parse(String),
    /// The source parsed but failed during evaluation.
    Evaluation(String),
    /// The produced value holds a shape the host cannot represent.
    Conversion(String),
}

/// Mathematical shadow of `OpError`.
pub enum OpErrView {
    Parse(Seq<char>),
    Evaluation(Seq<char>),
    Conversion(Seq<char>),
}

/// The mathematical shadow of an entry-operation failure.
pub open spec fn op_err_view(e: OpError) -> OpErrView {
    match e {
        OpError::Parse(m) => OpErrView::Parse(m@),
        OpError::Evaluation(m) => OpErrView::Evaluation(m@),
        OpError::Conversion(m) => OpErrView::Conversion(m@),
    }
}

impl View for OpError {
    type V = OpErrView;

    open spec fn view(&self) -> OpErrView {
        op_err_view(*self)
    }
}

impl OpError {
    /// The rendered message.
    pub fn message(&self) -> (r: &String)
        ensures
            r@ == self.spec_message(),
    {
        match self {
            OpError::Parse(m) => m,
            OpError::Evaluation(m) => m,
            OpError::Conversion(m) => m,
        }
    }

    /// The rendered message.
    pub open spec fn spec_message(&self) -> Seq<char> {
        match self {
            OpError::Parse(m) => m@,
            OpError::Evaluation(m) => m@,
            OpError::Conversion(m) => m@,
        }
    }
}

} // verus!
