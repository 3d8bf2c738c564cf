//! The gateway's error taxonomy and its mapping to HTTP status codes. Every
//! backend failure is caught at the dispatcher boundary and mapped to exactly
//! one status; no error detail travels back to the client.

use vstd::prelude::*;

verus! {

/// Everything that can go wrong between a WebDAV request and the object
/// store, as far as a client is told.
#[derive(Clone, Copy, Debug, PartialEq, Eq, Structural)]
pub enum DavError {
    /// Per-request credentials are required and were absent or empty.
    AuthenticationRequired,
    /// No object under the requested key, and no folder either.
    NotFound,
    /// A MKCOL target prefix already holds at least one object.
    Conflict,
    /// A PUT body exceeded the configured ceiling.
    PayloadTooLarge,
    /// Any transport or storage fault not otherwise classified.
    BackendError,
    /// COPY and MOVE are deliberately not offered.
    NotImplemented,
}

impl DavError {
    /// The one HTTP status each error is surfaced as.
    pub fn http_status(&self) -> (r: u16)
        ensures
            r == self.spec_http_status(),
    {
        match self {
            DavError::AuthenticationRequired => 401,
            DavError::NotFound => 404,
            DavError::Conflict => 409,
            DavError::PayloadTooLarge => 400,
            DavError::BackendError => 500,
            DavError::NotImplemented => 501,
        }
    }

    /// Specification of [`Self::http_status`].
    pub open spec fn spec_http_status(self) -> u16 {
        match self {
            DavError::AuthenticationRequired => 401,
            DavError::NotFound => 404,
            DavError::Conflict => 409,
            DavError::PayloadTooLarge => 400,
            DavError::BackendError => 500,
            DavError::NotImplemented => 501,
        }
    }
}

} // verus!
