//! The failures a request can end in, and how each is shown to a client.

use vstd::prelude::*;
use vstd::string::StringExecFns;

verus! {

/// The kind of a failure, without its message.
#[derive(Debug, Clone, Copy, PartialEq, Eq, Structural)]
pub enum ErrorKind {
    BadRequest,
    Unauthorized,
    Forbidden,
    NotFound,
    Conflict,
    Internal,
}

/// A failed request: its kind and a message.
#[derive(Debug, PartialEq, Eq)]
pub enum ApiError {
    /// Malformed input.
    BadRequest(String),
    /// Missing, invalid or expired identity.
    Unauthorized(String),
    /// Known caller without the right to do this.
    Forbidden(String),
    /// The thing asked for is not there.
    NotFound(String),
    /// A unique key is already taken.
    Conflict(String),
    /// The store failed; the message is for the server's log only.
    Internal(String),
}

impl ApiError {
    /// The kind of this failure.
    pub open spec fn spec_kind(&self) -> ErrorKind {
        match self {
            ApiError::BadRequest(_) => ErrorKind::BadRequest,
            ApiError::Unauthorized(_) => ErrorKind::Unauthorized,
            ApiError::Forbidden(_) => ErrorKind::Forbidden,
            ApiError::NotFound(_) => ErrorKind::NotFound,
            ApiError::Conflict(_) => ErrorKind::Conflict,
            ApiError::Internal(_) => ErrorKind::Internal,
        }
    }

    /// The message this failure carries.
    pub open spec fn detail(&self) -> Seq<char> {
        match self {
            ApiError::BadRequest(m) => m@,
            ApiError::Unauthorized(m) => m@,
            ApiError::Forbidden(m) => m@,
            ApiError::NotFound(m) => m@,
            ApiError::Conflict(m) => m@,
            ApiError::Internal(m) => m@,
        }
    }

    /// The words that introduce a failure of each kind when it is written out.
    pub open spec fn label(kind: ErrorKind) -> Seq<char> {
        match kind {
            ErrorKind::BadRequest => "Bad request: "@,
            ErrorKind::Unauthorized => "Unauthorized: "@,
            ErrorKind::Forbidden => "Forbidden: "@,
            ErrorKind::NotFound => "Not found: "@,
            ErrorKind::Conflict => "Conflict: "@,
            ErrorKind::Internal => "Internal error: "@,
        }
    }

    /// The HTTP status of each kind.
    pub open spec fn status_of(kind: ErrorKind) -> u16 {
        match kind {
            ErrorKind::BadRequest => 400,
            ErrorKind::Unauthorized => 401,
            ErrorKind::Forbidden => 403,
            ErrorKind::NotFound => 404,
            ErrorKind::Conflict => 409,
            ErrorKind::Internal => 500,
        }
    }

    /// What a client is told: the message itself, but for a store failure
    /// only a fixed sentence, so that no detail leaks.
    pub open spec fn shown(&self) -> Seq<char> {
        if self.spec_kind() == ErrorKind::Internal {
            "Internal server error"@
        } else {
            self.detail()
        }
    }

    /// The kind of this failure.
    #[verifier::when_used_as_spec(spec_kind)]
    pub fn kind(&self) -> (k: ErrorKind)
        ensures
            k == self.spec_kind(),
    {
        match self {
            ApiError::BadRequest(_) => ErrorKind::BadRequest,
            ApiError::Unauthorized(_) => ErrorKind::Unauthorized,
            ApiError::Forbidden(_) => ErrorKind::Forbidden,
            ApiError::NotFound(_) => ErrorKind::NotFound,
            ApiError::Conflict(_) => ErrorKind::Conflict,
            ApiError::Internal(_) => ErrorKind::Internal,
        }
    }

    /// The HTTP status to answer with.
    pub fn status_code(&self) -> (code: u16)
        ensures
            code == Self::status_of(self.spec_kind()),
    {
        match self {
            ApiError::BadRequest(_) => 400,
            ApiError::Unauthorized(_) => 401,
            ApiError::Forbidden(_) => 403,
            ApiError::NotFound(_) => 404,
            ApiError::Conflict(_) => 409,
            ApiError::Internal(_) => 500,
        }
    }

    /// The message to put in the answer's `error` field.
    pub fn client_message(&self) -> (m: String)
        ensures
            m@ == self.shown(),
    {
        match self {
            ApiError::BadRequest(msg) => msg.clone(),
            ApiError::Unauthorized(msg) => msg.clone(),
            ApiError::Forbidden(msg) => msg.clone(),
            ApiError::NotFound(msg) => msg.clone(),
            ApiError::Conflict(msg) => msg.clone(),
            ApiError::Internal(_) => "Internal server error".to_string(),
        }
    }

    /// The failure written out in full, as it goes to the log: the label of
    /// its kind, then its message.
    pub fn describe(&self) -> (m: String)
        ensures
            m@ == Self::label(self.spec_kind()) + self.detail(),
    {
        match self {
            ApiError::BadRequest(msg) => String::from_str("Bad request: ").concat(msg.as_str()),
            ApiError::Unauthorized(msg) => String::from_str("Unauthorized: ").concat(msg.as_str()),
            ApiError::Forbidden(msg) => String::from_str("Forbidden: ").concat(msg.as_str()),
            ApiError::NotFound(msg) => String::from_str("Not found: ").concat(msg.as_str()),
            ApiError::Conflict(msg) => String::from_str("Conflict: ").concat(msg.as_str()),
            ApiError::Internal(msg) => String::from_str("Internal error: ").concat(msg.as_str()),
        }
    }
}

} // verus!
