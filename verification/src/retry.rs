//! The rate-limit retry protocol.
//!
//! Every request to either service goes through the same protocol: a
//! success status ends it, a rate-limit status defers it for exactly
//! the number of seconds the server mandates in `Retry-After`, and any
//! other status is terminal. The decision is a pure function of the
//! status code and that header, so the caller that owns the socket and
//! the clock can run the loop: send, decide, and on [`RetryStep::Wait`]
//! sleep and re-issue the identical request — identifying headers
//! included — without bound.

use vstd::prelude::*;
use crate::numbers::{digits_value, parse_u64_digits, valid_u64_digits};

verus! {

/// What to do with a response, judged by its status code.
#[derive(Clone, Copy, Debug, PartialEq, Eq, Structural)]
pub enum RetryStep {
    /// A success: hand the response to the caller.
    Accept,
    /// Rate limited: wait this many seconds, then re-issue the
    /// identical request and judge the new response the same way.
    Wait(u64),
    /// A terminal non-success status, to surface with its code.
    FailHttp(u16),
    /// Rate limited without a usable `Retry-After` value: the server
    /// broke its own contract, and retrying blindly would be guessing.
    FailProtocol,
}

/// The retry decision: 200 is accepted; 429 waits for the number of
/// seconds in `Retry-After`, or is a protocol failure when that header
/// is absent or not an unsigned decimal; everything else is terminal.
pub open spec fn retry_step_spec(status: u16, retry_after: Option<Seq<char>>) -> RetryStep {
    if status == 200 {
        RetryStep::Accept
    } else if status == 429 {
        match retry_after {
            None => RetryStep::FailProtocol,
            Some(hint) => if valid_u64_digits(hint) {
                RetryStep::Wait(digits_value(hint) as u64)
            } else {
                RetryStep::FailProtocol
            },
        }
    } else {
        RetryStep::FailHttp(status)
    }
}

/// Judges one response of the retry protocol. `retry_after` is the
/// `Retry-After` header's value, where the response carries one.
pub fn retry_step(status: u16, retry_after: Option<&str>) -> (r: RetryStep)
    ensures
        r == retry_step_spec(
            status,
            match retry_after {
                Some(hint) => Some(hint@),
                None => None,
            },
        ),
{
    if status == 200 {
        RetryStep::Accept
    } else if status == 429 {
        match retry_after {
            None => RetryStep::FailProtocol,
            Some(hint) => match parse_u64_digits(hint) {
                Some(seconds) => RetryStep::Wait(seconds),
                None => RetryStep::FailProtocol,
            },
        }
    } else {
        RetryStep::FailHttp(status)
    }
}

/// A well-formed rate-limited response is always deferred, never
/// dropped: whenever the server names a readable number of seconds,
/// the step is a wait for exactly that number, and a success ends the
/// protocol at once.
pub proof fn lemma_retry_protocol(hint: Seq<char>)
    requires
        valid_u64_digits(hint),
    ensures
        retry_step_spec(429, Some(hint)) == RetryStep::Wait(digits_value(hint) as u64),
        retry_step_spec(200, Some(hint)) == RetryStep::Accept,
        retry_step_spec(200, None) == RetryStep::Accept,
{
}

} // verus!
