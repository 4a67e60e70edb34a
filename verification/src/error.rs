//! A basic error container and the mapping from HTTP outcomes to error
//! kinds.

use vstd::prelude::*;

verus! {

/// The type of an error.
#[derive(Debug, Clone, Copy, PartialEq, Eq, Structural)]
pub enum ErrorKind {
    /// The requested item was not found.
    NotFound,
    /// Authentication failed.
    NotAuthenticated,
    /// A network error.
    Network,
    /// An error likely caused by this crate.
    Client,
    /// An error on the server.
    Server,
    /// An error decoding the API response.
    Response,
}

/// A fairly generic error container.
#[derive(Debug)]
pub struct Error {
    /// The type of this error.
    pub kind: ErrorKind,
    /// A description of this error.
    pub message: String,
}

impl Error {
    /// An equal error value; errors carry a heap-allocated message, so a
    /// fresh copy is made.
    pub fn duplicate(&self) -> (r: Error)
        ensures
            r == *self,
    {
        Error { kind: self.kind, message: self.message.clone() }
    }
}

/// Turns a not-found error into an absent result, keeping every other
/// outcome as it is.
pub open spec fn spec_maybe<T>(result: Result<T, Error>) -> Result<Option<T>, Error> {
    match result {
        Ok(val) => Ok(Some(val)),
        Err(e) => if e.kind is NotFound {
            Ok(None)
        } else {
            Err(e)
        },
    }
}

/// Turns a not-found error into an absent result, keeping every other
/// outcome as it is.
pub fn maybe<T>(result: Result<T, Error>) -> (r: Result<Option<T>, Error>)
    ensures
        r == spec_maybe(result),
{
    match result {
        Ok(val) => Ok(Some(val)),
        Err(e) => {
            if e.kind == ErrorKind::NotFound {
                Ok(None)
            } else {
                Err(e)
            }
        },
    }
}

/// The error kind for an HTTP outcome: a not-found or unauthorized status
/// maps to its own kind, other server and client statuses to theirs, and a
/// transport failure without any status to a network error.
pub open spec fn spec_kind_for_status(status: Option<u16>) -> ErrorKind {
    match status {
        Some(code) => if code == 404 {
            ErrorKind::NotFound
        } else if code == 401 {
            ErrorKind::NotAuthenticated
        } else if 500 <= code < 600 {
            ErrorKind::Server
        } else {
            ErrorKind::Client
        },
        None => ErrorKind::Network,
    }
}

/// Classifies an HTTP outcome: the response's status code where one
/// arrived, nothing where the transport failed.
pub fn kind_for_status(status: Option<u16>) -> (kind: ErrorKind)
    ensures
        kind == spec_kind_for_status(status),
{
    match status {
        Some(code) => {
            if code == 404 {
                ErrorKind::NotFound
            } else if code == 401 {
                ErrorKind::NotAuthenticated
            } else if 500 <= code && code < 600 {
                ErrorKind::Server
            } else {
                ErrorKind::Client
            }
        },
        None => ErrorKind::Network,
    }
}

} // verus!
