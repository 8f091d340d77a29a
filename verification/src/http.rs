//! HTTP retry classification: which status codes are transient, and the
//! `Retry-After` backoff hint.
use vstd::prelude::*;
use crate::text::{chars_of, parse_u64, parse_u64_exec, trim, trim_exec};

verus! {

pub open spec fn retryable_status_spec(status: u16) -> bool {
    status == 429 || (500 <= status && status <= 599)
}

/// Whether an HTTP status warrants a retry: 429 (Too Many Requests) and every
/// 5xx are transient; every other status is not.
pub fn retryable_status(status: u16) -> (r: bool)
    ensures
        r == retryable_status_spec(status),
{
    status == 429 || (500 <= status && status <= 599)
}

/// Parse a `Retry-After` header value in its delta-seconds form (`Retry-After: 12`)
/// into a delay in **seconds**; the HTTP-date form (and anything else) is `None`.
pub fn parse_retry_after(value: &str) -> (r: Option<u64>)
    ensures
        r == parse_u64(trim(value@)),
{
    let v = chars_of(value);
    let t = trim_exec(&v);
    parse_u64_exec(&t)
}

} // verus!
