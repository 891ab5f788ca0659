//! The failures that a request can end in.

use vstd::prelude::*;

verus! {

/// How a request fails. Nothing of the cause is told to the caller beyond
/// the kind.
#[derive(Debug, Clone, Copy, PartialEq, Eq, Structural)]
pub enum ApiError {
    /// The credential is missing, malformed or unknown.
    Unauthorized,
    /// The body of a report submission could not be read.
    BadRequest,
    /// Storage or hashing failed.
    Internal,
}

impl ApiError {
    /// The HTTP status that stands for this failure.
    pub open spec fn spec_status_code(self) -> u16 {
        match self {
            ApiError::Unauthorized => 401,
            ApiError::BadRequest => 400,
            ApiError::Internal => 500,
        }
    }

    /// The HTTP status that stands for this failure.
    #[verifier::when_used_as_spec(spec_status_code)]
    pub fn status_code(self) -> (code: u16)
        ensures
            code == self.spec_status_code(),
    {
        match self {
            ApiError::Unauthorized => 401,
            ApiError::BadRequest => 400,
            ApiError::Internal => 500,
        }
    }

    /// The text sent with the status. It names the kind of failure and
    /// nothing else.
    pub fn message(self) -> (text: String)
        ensures
            text@ == match self {
                ApiError::Unauthorized => "Unauthorized"@,
                ApiError::BadRequest => "Bad Request"@,
                ApiError::Internal => "Internal Server Error"@,
            },
    {
        match self {
            ApiError::Unauthorized => String::from_str("Unauthorized"),
            ApiError::BadRequest => String::from_str("Bad Request"),
            ApiError::Internal => String::from_str("Internal Server Error"),
        }
    }
}

} // verus!
