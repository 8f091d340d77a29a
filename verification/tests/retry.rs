use agent_kit::grpc::{self, parse_pushback, retryable_code, Pushback};
use agent_kit::http::{parse_retry_after, retryable_status};
use agent_kit::retry::{
    classify, from_result, next_state, seed_from, step, Attempt, Class, Jitter, RetryPolicy, Step,
    Wait, SEED_FALLBACK,
};

#[test]
fn ceiling_cases() {
    for (attempt, expected) in [(0u32, 500u64), (1, 1000), (2, 2000), (10, 20_000), (64, 20_000)] {
        assert_eq!(RetryPolicy::new(5).ceiling(attempt), expected);
    }
}

#[test]
fn ceiling_saturates_without_a_cap() {
    let p = RetryPolicy::new(1).with_base_delay(3).with_max_delay(u64::MAX);
    assert_eq!(p.ceiling(63), u64::MAX);
    assert_eq!(p.ceiling(100), u64::MAX);
    assert_eq!(p.ceiling(4), 48);
    assert_eq!(RetryPolicy::new(1).with_base_delay(0).ceiling(200), 0);
}

#[test]
fn clamp_hint_cases() {
    let p = RetryPolicy::new(3); // max 20 s
    assert_eq!(p.clamp_hint(2_000), 2_000);
    assert_eq!(p.clamp_hint(20_000), 20_000);
    assert_eq!(p.clamp_hint(3_600_000), 20_000);
    assert_eq!(p.clamp_hint(u64::MAX), 20_000);
    assert_eq!(p.clamp_hint(0), 0);
}

#[test]
fn builders_set_one_field_each() {
    let p = RetryPolicy::none();
    assert_eq!(p.max_retries, 0);
    assert_eq!(p.jitter, Jitter::Full);
    let q = p.with_jitter(Jitter::Equal).with_base_delay(7).with_max_delay(9);
    assert_eq!((q.base_delay_ms, q.max_delay_ms, q.jitter, q.max_retries), (7, 9, Jitter::Equal, 0));
}

fn drive(policy: &RetryPolicy, mut outcomes: Vec<Attempt<&'static str, &'static str>>) -> (Result<&'static str, &'static str>, u32, Vec<Wait>) {
    outcomes.reverse();
    let mut attempt = 0u32;
    let mut calls = 0u32;
    let mut waits = Vec::new();
    loop {
        calls += 1;
        let o = outcomes.pop().expect("enough scripted outcomes");
        match step(policy, attempt, o) {
            Step::Finish(r) => return (r, calls, waits),
            Step::Again { wait, next_attempt } => {
                waits.push(wait);
                attempt = next_attempt;
            }
        }
    }
}

#[test]
fn run_honors_and_clamps_a_server_hint() {
    let policy = RetryPolicy::new(3).with_base_delay(0).with_max_delay(0);
    let (out, calls, waits) = drive(
        &policy,
        vec![Attempt::Retry { err: "x", after_ms: Some(3_600_000) }, Attempt::Done("ok")],
    );
    assert_eq!(out, Ok("ok"));
    assert_eq!(calls, 2);
    assert_eq!(waits, vec![Wait::Hint(0)]);
}

fn fast_policy(max: u32) -> RetryPolicy {
    RetryPolicy::new(max).with_base_delay(0).with_jitter(Jitter::NoJitter)
}

#[test]
fn run_retries_then_succeeds() {
    let (out, calls, waits) = drive(
        &fast_policy(5),
        vec![
            Attempt::Retry { err: "transient", after_ms: None },
            Attempt::Retry { err: "transient", after_ms: None },
            Attempt::Done("ok"),
        ],
    );
    assert_eq!(out, Ok("ok"));
    assert_eq!(calls, 3);
    assert_eq!(waits, vec![Wait::Backoff(0), Wait::Backoff(1)]);
}

#[test]
fn run_stops_on_fail_without_retrying() {
    let (out, calls, _) = drive(&fast_policy(5), vec![Attempt::Fail("permanent")]);
    assert_eq!(out, Err("permanent"));
    assert_eq!(calls, 1);
}

#[test]
fn run_exhausts_retries_then_returns_last_err() {
    let r = || Attempt::Retry { err: "still failing", after_ms: None };
    let (out, calls, _) = drive(&fast_policy(2), vec![r(), r(), r()]);
    assert_eq!(out, Err("still failing"));
    assert_eq!(calls, 3);
}

#[test]
fn retry_convenience_classifies_errors() {
    let classify_err = |e: &&str| if *e == "slow" { Some(None) } else { None };
    let e1: Result<u8, &str> = Err("slow");
    let c1 = classify_err(&"slow");
    let a1 = from_result(e1, c1);
    assert!(matches!(step(&fast_policy(5), 0, a1), Step::Again { next_attempt: 1, .. }));
    let ok: Result<u8, &str> = Ok(42);
    assert!(matches!(step(&fast_policy(5), 1, from_result(ok, None)), Step::Finish(Ok(42))));
    let bad: Result<u8, &str> = Err("bad");
    let c = classify_err(&"bad");
    assert!(matches!(step(&fast_policy(5), 0, from_result(bad, c)), Step::Finish(Err("bad"))));
}

#[test]
fn classify_cases() {
    let cases = [
        ("http 429: slow down", Class::Retryable),
        ("http 529: overloaded", Class::Retryable),
        ("http 500: internal", Class::Retryable),
        ("http 502: bad gateway", Class::Retryable),
        ("request failed: operation timed out", Class::Retryable),
        ("request failed: connection refused", Class::Retryable),
        ("http 401: invalid api key", Class::Terminal),
        ("http 403: forbidden", Class::Terminal),
        ("http 402: payment required", Class::Terminal),
        ("http 400: unsupported parameter", Class::Terminal),
        ("http 404: model_not_found", Class::Terminal),
        ("blocked by content policy", Class::Terminal),
        ("something inexplicable", Class::Terminal),
        ("", Class::Terminal),
        ("HTTP 503: Upper Case", Class::Retryable),
        ("Stream Error while reading", Class::Retryable),
    ];
    for (msg, want) in cases {
        assert_eq!(classify(msg), want, "message: {msg:?}");
    }
}

#[test]
fn negative_billing_is_never_retryable() {
    assert_eq!(classify("http 402: insufficient funds"), Class::Terminal);
}

#[test]
fn adversarial_messages_are_safe() {
    for msg in [
        "http 99999999999999999999: x",
        "http : x",
        "nothing to do with http requests",
        "http 429: 你好世界 émoji 🎉",
        "http 500: x",
    ] {
        let _ = classify(msg);
    }
    assert_eq!(classify("http 99999999999999999999: timeout"), Class::Retryable);
    assert_eq!(classify("http 429: 你好世界 émoji 🎉"), Class::Retryable);
}

#[test]
fn retryable_code_cases() {
    for (code, expected) in [
        (grpc::UNAVAILABLE, true),
        (grpc::RESOURCE_EXHAUSTED, true),
        (grpc::OK, false),
        (grpc::INVALID_ARGUMENT, false),
        (grpc::NOT_FOUND, false),
        (grpc::PERMISSION_DENIED, false),
        (grpc::UNAUTHENTICATED, false),
        (grpc::INTERNAL, false),
        (grpc::DEADLINE_EXCEEDED, false),
        (grpc::ABORTED, false),
    ] {
        assert_eq!(retryable_code(code), expected);
    }
}

#[test]
fn parse_pushback_cases() {
    assert_eq!(parse_pushback("2500"), Some(Pushback::RetryAfter(2500)));
    assert_eq!(parse_pushback("0"), Some(Pushback::RetryAfter(0)));
    assert_eq!(parse_pushback("-1"), Some(Pushback::DoNotRetry));
    assert_eq!(parse_pushback("  100 "), Some(Pushback::RetryAfter(100)));
    assert_eq!(parse_pushback("later"), None);
    assert_eq!(parse_pushback(""), None);
    assert_eq!(parse_pushback("18446744073709551616"), None);
    assert_eq!(parse_pushback("+7"), Some(Pushback::RetryAfter(7)));
}

#[test]
fn retryable_status_cases() {
    for (status, expected) in [
        (429u16, true),
        (500, true),
        (502, true),
        (503, true),
        (504, true),
        (401, false),
        (403, false),
        (404, false),
        (400, false),
        (418, false),
        (200, false),
        (302, false),
    ] {
        assert_eq!(retryable_status(status), expected);
    }
}

#[test]
fn parse_retry_after_cases() {
    assert_eq!(parse_retry_after("12"), Some(12));
    assert_eq!(parse_retry_after("0"), Some(0));
    assert_eq!(parse_retry_after("  5 "), Some(5));
    assert_eq!(parse_retry_after("Wed, 21 Oct 2015 07:28:00 GMT"), None);
    assert_eq!(parse_retry_after("soon"), None);
    assert_eq!(parse_retry_after(""), None);
}

#[test]
fn xorshift_step_and_seed() {
    assert_eq!(next_state(1), 1082269761);
    assert_ne!(next_state(0xdead_beef), 0);
    assert_eq!(next_state(0), 0);
    assert_eq!(seed_from(Some(4)), 5);
    assert_eq!(seed_from(Some(7)), 7);
    assert_eq!(seed_from(None), SEED_FALLBACK | 1);
}
