//! Errors reported by the engine's verified operations.

use vstd::prelude::*;

verus! {

/// Failure classes of engine operations.
#[derive(Debug)]
pub enum EngineError {
    /// The request or its data is malformed or not allowed.
    InvalidInput(String),
    /// An invariant of the engine itself was found broken.
    Internal(String),
    /// A store or a remote service failed.
    Storage(String),
    /// Something the request names does not exist.
    NotFound(String),
    /// A write would overwrite a canonical document's projection.
    CanonicalSourceConflict(String),
    /// The request conflicts with the current state.
    Conflict(String),
    /// The caller may not do this.
    AccessDenied(String),
    /// A federation peer could not be reached or answered wrongly.
    Federation(String),
}

/// The specification view of an error: its class and message.
pub enum ErrorView {
    InvalidInput(Seq<char>),
    Internal(Seq<char>),
    Storage(Seq<char>),
    NotFound(Seq<char>),
    CanonicalSourceConflict(Seq<char>),
    Conflict(Seq<char>),
    AccessDenied(Seq<char>),
    Federation(Seq<char>),
}

impl View for EngineError {
    type V = ErrorView;

    open spec fn view(&self) -> ErrorView {
        match self {
            EngineError::InvalidInput(m) => ErrorView::InvalidInput(m@),
            EngineError::Internal(m) => ErrorView::Internal(m@),
            EngineError::Storage(m) => ErrorView::Storage(m@),
            EngineError::NotFound(m) => ErrorView::NotFound(m@),
            EngineError::CanonicalSourceConflict(m) => ErrorView::CanonicalSourceConflict(m@),
            EngineError::Conflict(m) => ErrorView::Conflict(m@),
            EngineError::AccessDenied(m) => ErrorView::AccessDenied(m@),
            EngineError::Federation(m) => ErrorView::Federation(m@),
        }
    }
}

/// The view of a result that carries text.
pub open spec fn text_result(r: Result<String, EngineError>) -> Result<Seq<char>, ErrorView> {
    match r {
        Ok(s) => Ok(s@),
        Err(e) => Err(e@),
    }
}

/// The view of a result that carries nothing.
pub open spec fn unit_result(r: Result<(), EngineError>) -> Result<(), ErrorView> {
    match r {
        Ok(_) => Ok(()),
        Err(e) => Err(e@),
    }
}

} // verus!
