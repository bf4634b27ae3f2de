//! What can go wrong, as callers see it.

use vstd::prelude::*;

verus! {

/// A failure, with the message that describes it.
#[derive(Debug, Clone, PartialEq, Eq)]
pub enum CrwError {
    /// An origin could not be reached, or would not answer.
    TargetUnreachable(String),
    /// A request does not say what it has to say.
    InvalidRequest(String),
}

/// The result of what may fail.
pub type CrwResult<T> = Result<T, CrwError>;

/// What a failure says.
pub enum ErrorView {
    TargetUnreachable(Seq<char>),
    InvalidRequest(Seq<char>),
}

impl View for CrwError {
    type V = ErrorView;

    open spec fn view(&self) -> ErrorView {
        match *self {
            CrwError::TargetUnreachable(message) => ErrorView::TargetUnreachable(message@),
            CrwError::InvalidRequest(message) => ErrorView::InvalidRequest(message@),
        }
    }
}

} // verus!
