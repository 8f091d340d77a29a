//! gRPC retry classification: the transient overload/availability status codes
//! and the server's `grpc-retry-pushback-ms` backoff hint.
use vstd::prelude::*;
use crate::text::{chars_of, has_prefix_exec, parse_u64, parse_u64_exec, trim, trim_exec};

verus! {

pub const OK: i32 = 0;
pub const CANCELLED: i32 = 1;
pub const INVALID_ARGUMENT: i32 = 3;
pub const DEADLINE_EXCEEDED: i32 = 4;
pub const NOT_FOUND: i32 = 5;
pub const PERMISSION_DENIED: i32 = 7;
/// Quota exhausted / rate-limited: the server is overloaded. Retryable.
pub const RESOURCE_EXHAUSTED: i32 = 8;
pub const FAILED_PRECONDITION: i32 = 9;
pub const ABORTED: i32 = 10;
pub const INTERNAL: i32 = 13;
/// Server unavailable (down, overloaded, connection dropped). Retryable.
pub const UNAVAILABLE: i32 = 14;
pub const UNAUTHENTICATED: i32 = 16;

/// Whether a gRPC status code is a transient overload/availability condition:
/// exactly `UNAVAILABLE` and `RESOURCE_EXHAUSTED`.
pub fn retryable_code(code: i32) -> (r: bool)
    ensures
        r == (code == UNAVAILABLE || code == RESOURCE_EXHAUSTED),
{
    code == UNAVAILABLE || code == RESOURCE_EXHAUSTED
}

/// A parsed `grpc-retry-pushback-ms` server hint.
#[derive(Debug, Clone, Copy, PartialEq, Eq, Structural)]
pub enum Pushback {
    /// Wait this many milliseconds before retrying.
    RetryAfter(u64),
    /// The server said `-1`: do not retry, whatever the code.
    DoNotRetry,
}

pub open spec fn parse_pushback_spec(value: Seq<char>) -> Option<Pushback> {
    let v = trim(value);
    if v =~= "-1"@ {
        Some(Pushback::DoNotRetry)
    } else {
        match parse_u64(v) {
            Some(ms) => Some(Pushback::RetryAfter(ms)),
            None => None,
        }
    }
}

/// Parse the `grpc-retry-pushback-ms` metadata value: a non-negative millisecond
/// delay, or `-1` meaning "stop retrying"; anything unparseable is `None`.
pub fn parse_pushback(value: &str) -> (r: Option<Pushback>)
    ensures
        r == parse_pushback_spec(value@),
{
    let v = chars_of(value);
    let t = trim_exec(&v);
    let minus_one = chars_of("-1");
    if t.len() == minus_one.len() && has_prefix_exec(&t, &minus_one) {
        assert(t@ =~= minus_one@);
        return Some(Pushback::DoNotRetry);
    }
    assert(!(t@ =~= minus_one@));
    match parse_u64_exec(&t) {
        Some(ms) => Some(Pushback::RetryAfter(ms)),
        None => None,
    }
}

} // verus!
