//! Error values of the API: a kind (mapped to an HTTP status by the server)
//! and a user-facing message.

use vstd::prelude::*;

verus! {

/// The JSON body of every error response: `{message}`.
#[derive(Debug, Clone, PartialEq)]
pub struct ErrorResponse {
    pub message: String,
}

#[derive(Debug, Clone, Copy, PartialEq, Eq)]
pub enum ErrorKind {
    /// 400
    BadRequest,
    /// 403
    Forbidden,
    /// 404
    NotFound,
    /// 409
    Conflict,
    /// 500
    Internal,
}

/// A refused request: its kind and message.
#[derive(Debug, Clone, PartialEq)]
pub struct ApiFailure {
    pub kind: ErrorKind,
    pub message: String,
}

impl ErrorKind {
    /// The HTTP status code of the kind.
    pub fn status(&self) -> (r: u16)
        ensures
            r == match *self {
                ErrorKind::BadRequest => 400u16,
                ErrorKind::Forbidden => 403u16,
                ErrorKind::NotFound => 404u16,
                ErrorKind::Conflict => 409u16,
                ErrorKind::Internal => 500u16,
            },
    {
        match self {
            ErrorKind::BadRequest => 400,
            ErrorKind::Forbidden => 403,
            ErrorKind::NotFound => 404,
            ErrorKind::Conflict => 409,
            ErrorKind::Internal => 500,
        }
    }
}

/// A failure of the given kind carrying `message`.
pub fn failure(kind: ErrorKind, message: &str) -> (r: ApiFailure)
    ensures
        r.kind == kind,
        r.message@ == message@,
{
    ApiFailure { kind, message: message.to_owned() }
}

/// A bad request with `message`.
pub fn bad_request(message: &str) -> (r: ApiFailure)
    ensures
        r.kind == ErrorKind::BadRequest,
        r.message@ == message@,
{
    failure(ErrorKind::BadRequest, message)
}

/// The response body of a failure.
pub fn error_response(f: &ApiFailure) -> (r: ErrorResponse)
    ensures
        r.message@ == f.message@,
{
    ErrorResponse { message: f.message.clone() }
}

} // verus!
