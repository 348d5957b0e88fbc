//! Failure taxonomy of the translation pipeline.
//!
//! Every error is fatal: the pipeline is a one-shot batch translator, so an
//! error aborts the run with a message identifying the offending clause,
//! constructor or name. There is no recovery or default substitution.

use vstd::prelude::*;

verus! {

/// A fatal translation failure. Each variant carries the offending name or a
/// short description of the offending construct.
#[derive(Debug, Clone, PartialEq, Eq)]
pub enum TransError {
    /// Wrong number of declarations, or a missing expected syntax node.
    Structure(String),
    /// A clause references a constructor absent from the Adt.
    UnknownConstructor(String),
    /// A variable or applied-function name has no binding.
    UnresolvedName(String),
    /// An operator, type or notation feature outside the modeled subset.
    UnsupportedConstruct(String),
}

/// The mathematical value of a translation failure.
pub enum ErrView {
    Structure(Seq<char>),
    UnknownConstructor(Seq<char>),
    UnresolvedName(Seq<char>),
    UnsupportedConstruct(Seq<char>),
}

impl View for TransError {
    type V = ErrView;

    open spec fn view(&self) -> ErrView {
        match self {
            TransError::Structure(s) => ErrView::Structure(s@),
            TransError::UnknownConstructor(s) => ErrView::UnknownConstructor(s@),
            TransError::UnresolvedName(s) => ErrView::UnresolvedName(s@),
            TransError::UnsupportedConstruct(s) => ErrView::UnsupportedConstruct(s@),
        }
    }
}

/// The message text of an error: a fixed description of the variant,
/// followed by the offending name.
pub open spec fn spec_message(e: ErrView) -> Seq<char> {
    match e {
        ErrView::Structure(s) => "malformed structure: "@ + s,
        ErrView::UnknownConstructor(s) => "unknown constructor: "@ + s,
        ErrView::UnresolvedName(s) => "unresolved name: "@ + s,
        ErrView::UnsupportedConstruct(s) => "unsupported construct: "@ + s,
    }
}

impl TransError {
    /// A human-readable description of the failure.
    pub fn message(&self) -> (r: String)
        ensures
            r@ == spec_message(self@),
    {
        let mut out: String = String::new();
        match self {
            TransError::Structure(s) => {
                out.append("malformed structure: ");
                out.append(s.as_str());
            },
            TransError::UnknownConstructor(s) => {
                out.append("unknown constructor: ");
                out.append(s.as_str());
            },
            TransError::UnresolvedName(s) => {
                out.append("unresolved name: ");
                out.append(s.as_str());
            },
            TransError::UnsupportedConstruct(s) => {
                out.append("unsupported construct: ");
                out.append(s.as_str());
            },
        }
        out
    }
}

} // verus!
