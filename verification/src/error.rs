//! The error type of the HTTP layer: a kind, which fixes the status code,
//! and the message that the handler wrote.
use vstd::prelude::*;

verus! {

/// The kinds of failure a request can end in.
#[derive(Clone, Copy, Debug, PartialEq, Eq, Structural)]
pub enum ErrorKind {
    BadRequest,
    Unauthorized,
    Forbidden,
    NotFound,
    Gone,
    Internal,
    BadGateway,
}

/// A failed request: its kind and the message written for it.
#[derive(Clone, Debug)]
pub struct AppError {
    pub kind: ErrorKind,
    pub message: String,
}

/// The HTTP status code of each kind of failure.
pub open spec fn status_of(kind: ErrorKind) -> u16 {
    match kind {
        ErrorKind::BadRequest => 400,
        ErrorKind::Unauthorized => 401,
        ErrorKind::Forbidden => 403,
        ErrorKind::NotFound => 404,
        ErrorKind::Gone => 410,
        ErrorKind::Internal => 500,
        ErrorKind::BadGateway => 502,
    }
}

/// `e` is a failure of kind `kind` carrying the message `msg`.
pub open spec fn is_error(e: AppError, kind: ErrorKind, msg: Seq<char>) -> bool {
    e.kind == kind && e.message@ == msg
}

/// `r` failed with kind `kind` and message `msg`.
pub open spec fn fails_with<T>(r: Result<T, AppError>, kind: ErrorKind, msg: Seq<char>) -> bool {
    match r {
        Err(e) => is_error(e, kind, msg),
        Ok(_) => false,
    }
}

/// A `String` holding the characters of `s`.
pub fn owned(s: &str) -> (res: String)
    ensures
        res@ == s@,
{
    s.to_owned()
}

impl AppError {
    pub fn new(kind: ErrorKind, message: &str) -> (e: AppError)
        ensures
            is_error(e, kind, message@),
    {
        AppError { kind, message: owned(message) }
    }

    /// The HTTP status code the failure is answered with.
    pub fn status(&self) -> (code: u16)
        ensures
            code == status_of(self.kind),
    {
        match self.kind {
            ErrorKind::BadRequest => 400,
            ErrorKind::Unauthorized => 401,
            ErrorKind::Forbidden => 403,
            ErrorKind::NotFound => 404,
            ErrorKind::Gone => 410,
            ErrorKind::Internal => 500,
            ErrorKind::BadGateway => 502,
        }
    }

    /// The message shown to the client: the handler's own message for
    /// client errors, and a generic one for internal and upstream failures,
    /// whose details only go to the log.
    pub fn public_message(&self) -> (m: String)
        ensures
            self.kind == ErrorKind::Internal ==> m@ == "Internal server error"@,
            self.kind == ErrorKind::BadGateway ==> m@ == "Upstream service unavailable"@,
            self.kind != ErrorKind::Internal && self.kind != ErrorKind::BadGateway ==> m@
                == self.message@,
    {
        match self.kind {
            ErrorKind::Internal => owned("Internal server error"),
            ErrorKind::BadGateway => owned("Upstream service unavailable"),
            _ => self.message.clone(),
        }
    }
}

} // verus!
