//! The failure classes of the reconciliation pipeline.

use vstd::prelude::*;

verus! {

/// How a request against one of the remote services can fail.
///
/// Semantic absences (no catalog match, no translation in the requested
/// language) are not errors: they are `None` results of the functions
/// that look things up.
#[derive(Clone, Copy, Debug, PartialEq, Eq, Structural)]
pub enum ApiError {
    /// A network-level failure: connection refused, timeout, DNS.
    Transport,
    /// A non-success HTTP status that is not handled by the retry
    /// protocol, with its status code.
    Http(u16),
    /// The server answered with a rate-limit status but without a
    /// usable `Retry-After` header, breaking its own contract.
    Protocol,
    /// A response body whose shape or field values violate the
    /// expected schema.
    Decode,
}

impl ApiError {
    /// A short human-readable description of the failure.
    pub fn describe(&self) -> (r: &'static str)
        ensures
            r@ == match *self {
                ApiError::Transport => "network transport failure"@,
                ApiError::Http(_) => "unexpected HTTP status"@,
                ApiError::Protocol => "rate limited without a usable Retry-After header"@,
                ApiError::Decode => "response did not match the expected schema"@,
            },
    {
        match self {
            ApiError::Transport => "network transport failure",
            ApiError::Http(_) => "unexpected HTTP status",
            ApiError::Protocol => "rate limited without a usable Retry-After header",
            ApiError::Decode => "response did not match the expected schema",
        }
    }
}

} // verus!
