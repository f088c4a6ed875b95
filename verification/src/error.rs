//! Why a resolution failed.

use vstd::prelude::*;

verus! {

/// A failed resolution.
#[derive(Debug, PartialEq, Eq)]
pub enum ResolutionError {
    /// The host name holds a zero byte; the system was never asked.
    InvalidInput,
    /// The system reported a failure; the text is its own description of it.
    ResolverFailure(String),
}

/// A failed resolution as a value: the message is a sequence of characters.
pub enum ErrorModel {
    InvalidInput,
    ResolverFailure(Seq<char>),
}

impl View for ResolutionError {
    type V = ErrorModel;

    open spec fn view(&self) -> ErrorModel {
        match *self {
            ResolutionError::InvalidInput => ErrorModel::InvalidInput,
            ResolutionError::ResolverFailure(message) => ErrorModel::ResolverFailure(message@),
        }
    }
}

impl ErrorModel {
    /// The text that tells a caller what went wrong: a fixed sentence for a
    /// refused host name, the system's own words for its failures.
    pub open spec fn message(self) -> Seq<char> {
        match self {
            ErrorModel::InvalidInput => "Null terminator in host name"@,
            ErrorModel::ResolverFailure(message) => message,
        }
    }
}

impl ResolutionError {
    /// The text that tells a caller what went wrong.
    pub fn message(&self) -> (text: String)
        ensures
            text@ == self@.message(),
    {
        match self {
            ResolutionError::InvalidInput => "Null terminator in host name".to_owned(),
            ResolutionError::ResolverFailure(message) => message.clone(),
        }
    }
}

} // verus!
