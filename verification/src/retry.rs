//! The retry/backoff schedule and the decisions of the retry driver.
//!
//! Delays are whole milliseconds (`u64`). The driver loop itself (awaiting the
//! operation and sleeping) runs outside the library; every decision it takes —
//! stop or retry, and how long to wait — is [`step`], verified here.
use vstd::prelude::*;
use vstd::arithmetic::power2::pow2;
use crate::http::{retryable_status, retryable_status_spec};
use crate::text::{
    chars_of, contains, contains_exec, occurs_at, digits_value, find_exec, find_from, is_digit, lower_seq,
    to_lower,
};

verus! {

/// Jitter strategy applied to the exponential backoff ceiling.
#[derive(Debug, Clone, Copy, PartialEq, Eq, Structural)]
pub enum Jitter {
    /// No jitter: the full capped-exponential delay every time.
    NoJitter,
    /// Full jitter: a uniform random point in `[0, ceiling)`.
    Full,
    /// Equal jitter: `ceiling/2 + rand[0, ceiling/2)`.
    Equal,
}

/// The canonical default base delay (ms): 500 ms.
pub const DEFAULT_BASE_MS: u64 = 500;
/// The canonical default delay cap (ms): 20 s.
pub const DEFAULT_MAX_MS: u64 = 20_000;

/// A retry schedule: how many times, how long between, and how jittered.
#[derive(Debug, Clone, Copy)]
pub struct RetryPolicy {
    pub max_retries: u32,
    pub base_delay_ms: u64,
    pub max_delay_ms: u64,
    pub jitter: Jitter,
}

/// `min(base * 2^attempt, u64::MAX, max)`: the saturating exponential ceiling.
pub open spec fn ceiling_spec(base: u64, max: u64, attempt: u32) -> u64 {
    let factor: int = if attempt < 64 { pow2(attempt as nat) as int } else { u64::MAX as int };
    let prod: int = base * factor;
    let sat: int = if prod > u64::MAX { u64::MAX as int } else { prod };
    if sat <= max { sat as u64 } else { max }
}

pub open spec fn min_u64(a: u64, b: u64) -> u64 {
    if a <= b { a } else { b }
}

impl RetryPolicy {
    /// `max_retries` attempts on the default schedule with full jitter.
    pub fn new(max_retries: u32) -> (p: Self)
        ensures
            p.max_retries == max_retries,
            p.base_delay_ms == DEFAULT_BASE_MS,
            p.max_delay_ms == DEFAULT_MAX_MS,
            p.jitter == Jitter::Full,
    {
        RetryPolicy {
            max_retries,
            base_delay_ms: DEFAULT_BASE_MS,
            max_delay_ms: DEFAULT_MAX_MS,
            jitter: Jitter::Full,
        }
    }

    /// A never-retrying policy (fail fast).
    pub fn none() -> (p: Self)
        ensures
            p.max_retries == 0,
            p.base_delay_ms == DEFAULT_BASE_MS,
            p.max_delay_ms == DEFAULT_MAX_MS,
            p.jitter == Jitter::Full,
    {
        Self::new(0)
    }

    pub fn with_base_delay(self, ms: u64) -> (p: Self)
        ensures
            p.base_delay_ms == ms,
            p.max_retries == self.max_retries,
            p.max_delay_ms == self.max_delay_ms,
            p.jitter == self.jitter,
    {
        let mut p = self;
        p.base_delay_ms = ms;
        p
    }

    pub fn with_max_delay(self, ms: u64) -> (p: Self)
        ensures
            p.max_delay_ms == ms,
            p.max_retries == self.max_retries,
            p.base_delay_ms == self.base_delay_ms,
            p.jitter == self.jitter,
    {
        let mut p = self;
        p.max_delay_ms = ms;
        p
    }

    pub fn with_jitter(self, j: Jitter) -> (p: Self)
        ensures
            p.jitter == j,
            p.max_retries == self.max_retries,
            p.base_delay_ms == self.base_delay_ms,
            p.max_delay_ms == self.max_delay_ms,
    {
        let mut p = self;
        p.jitter = j;
        p
    }

    /// The pre-jitter exponential ceiling for `attempt` (0-based), capped at the
    /// max delay: `min(base * 2^attempt, max)`, saturating.
    pub fn ceiling(&self, attempt: u32) -> (ms: u64)
        ensures
            ms == ceiling_spec(self.base_delay_ms, self.max_delay_ms, attempt),
            ms <= self.max_delay_ms,
    {
        let factor: u64 = if attempt < 64 {
            proof {
                vstd::bits::lemma_u64_pow2_no_overflow(attempt as nat);
                vstd::bits::lemma_u64_shl_is_mul(1, attempt as u64);
            }
            1u64 << (attempt as u64)
        } else {
            u64::MAX
        };
        let ms: u64 = match self.base_delay_ms.checked_mul(factor) {
            Some(m) => m,
            None => u64::MAX,
        };
        if ms <= self.max_delay_ms {
            ms
        } else {
            self.max_delay_ms
        }
    }

    /// Clamp a server-provided backoff hint to the max delay.
    pub fn clamp_hint(&self, hint_ms: u64) -> (ms: u64)
        ensures
            ms == min_u64(hint_ms, self.max_delay_ms),
    {
        if hint_ms <= self.max_delay_ms {
            hint_ms
        } else {
            self.max_delay_ms
        }
    }
}

/// Backoff ceilings never shrink as attempts accrue.
pub proof fn law_ceiling_monotone(base: u64, max: u64, a: u32, b: u32)
    requires
        a <= b,
    ensures
        ceiling_spec(base, max, a) <= ceiling_spec(base, max, b),
{
    let fa: int = if a < 64 { pow2(a as nat) as int } else { u64::MAX as int };
    let fb: int = if b < 64 { pow2(b as nat) as int } else { u64::MAX as int };
    if a < 64 {
        vstd::bits::lemma_u64_pow2_no_overflow(a as nat);
    }
    if b < 64 {
        vstd::bits::lemma_u64_pow2_no_overflow(b as nat);
        if a < b {
            vstd::arithmetic::power2::lemma_pow2_strictly_increases(a as nat, b as nat);
        }
    }
    assert(fa <= fb);
    vstd::arithmetic::mul::lemma_mul_inequality(fa, fb, base as int);
    vstd::arithmetic::mul::lemma_mul_is_commutative(fa, base as int);
    vstd::arithmetic::mul::lemma_mul_is_commutative(fb, base as int);
}

/// A clamped hint never exceeds the cap, leaves an in-range hint alone, and
/// clamping twice is clamping once.
pub proof fn law_clamp_hint(hint: u64, max: u64)
    ensures
        min_u64(hint, max) <= max,
        hint <= max ==> min_u64(hint, max) == hint,
        min_u64(min_u64(hint, max), max) == min_u64(hint, max),
{
}

/// The outcome of one attempt, as the operation reports it to the driver.
pub enum Attempt<T, E> {
    /// Success: stop and return the value.
    Done(T),
    /// A transient failure: retry if attempts remain. `after_ms` is a server
    /// backoff hint used (clamped) in place of the computed backoff.
    Retry { err: E, after_ms: Option<u64> },
    /// A permanent failure: stop and return the error.
    Fail(E),
}

/// How long the driver waits before the next attempt.
#[derive(Debug, Clone, Copy, PartialEq, Eq, Structural)]
pub enum Wait {
    /// The server's hint, already clamped to the max delay (ms).
    Hint(u64),
    /// The policy's jittered backoff for this (0-based) attempt.
    Backoff(u32),
}

/// The driver's next move after one attempt.
pub enum Step<T, E> {
    /// Stop with this result.
    Finish(Result<T, E>),
    /// Wait, then run the operation again as attempt `next_attempt`.
    Again { wait: Wait, next_attempt: u32 },
}

pub open spec fn step_spec<T, E>(p: RetryPolicy, attempt: u32, outcome: Attempt<T, E>) -> Step<T, E> {
    match outcome {
        Attempt::Done(v) => Step::Finish(Ok(v)),
        Attempt::Fail(e) => Step::Finish(Err(e)),
        Attempt::Retry { err, after_ms } => {
            if attempt >= p.max_retries {
                Step::Finish(Err(err))
            } else {
                Step::Again {
                    wait: match after_ms {
                        Some(h) => Wait::Hint(min_u64(h, p.max_delay_ms)),
                        None => Wait::Backoff(attempt),
                    },
                    next_attempt: (attempt + 1) as u32,
                }
            }
        },
    }
}

/// One decision of the retry driver: given the 0-based `attempt` just made and
/// its outcome, stop (with the value or the error) or wait and try again.
pub fn step<T, E>(policy: &RetryPolicy, attempt: u32, outcome: Attempt<T, E>) -> (s: Step<T, E>)
    ensures
        s == step_spec(*policy, attempt, outcome),
{
    match outcome {
        Attempt::Done(v) => Step::Finish(Ok(v)),
        Attempt::Fail(e) => Step::Finish(Err(e)),
        Attempt::Retry { err, after_ms } => {
            if attempt >= policy.max_retries {
                Step::Finish(Err(err))
            } else {
                let wait = match after_ms {
                    Some(h) => Wait::Hint(policy.clamp_hint(h)),
                    None => Wait::Backoff(attempt),
                };
                Step::Again { wait, next_attempt: attempt + 1 }
            }
        },
    }
}

pub open spec fn from_result_spec<T, E>(r: Result<T, E>, class: Option<Option<u64>>) -> Attempt<T, E> {
    match r {
        Ok(v) => Attempt::Done(v),
        Err(e) => match class {
            None => Attempt::Fail(e),
            Some(after_ms) => Attempt::Retry { err: e, after_ms },
        },
    }
}

/// The `Result`-returning form of an attempt: an `Err` is retried when its
/// classification (taken by the caller's classifier) is `Some(hint)`, and fails
/// fast when it is `None`.
pub fn from_result<T, E>(r: Result<T, E>, class: Option<Option<u64>>) -> (a: Attempt<T, E>)
    ensures
        a == from_result_spec(r, class),
{
    match r {
        Ok(v) => Attempt::Done(v),
        Err(e) => match class {
            None => Attempt::Fail(e),
            Some(after_ms) => Attempt::Retry { err: e, after_ms },
        },
    }
}

/// The driver retries only while attempts remain, one attempt at a time: starting
/// from attempt 0 it therefore runs the operation at most `max_retries + 1` times.
pub proof fn law_retries_bounded<T, E>(p: RetryPolicy, attempt: u32, outcome: Attempt<T, E>)
    ensures
        step_spec(p, attempt, outcome) matches Step::Again { next_attempt, .. } ==> attempt
            < p.max_retries && next_attempt == attempt + 1,
        attempt >= p.max_retries ==> step_spec(p, attempt, outcome) is Finish,
{
}

/// Success and permanent failure are never retried; an exhausted transient
/// failure returns its own error.
pub proof fn law_terminal_outcomes_finish<T, E>(p: RetryPolicy, attempt: u32, v: T, e: E)
    ensures
        step_spec(p, attempt, Attempt::<T, E>::Done(v)) == Step::<T, E>::Finish(Ok(v)),
        step_spec(p, attempt, Attempt::<T, E>::Fail(e)) == Step::<T, E>::Finish(Err(e)),
        attempt >= p.max_retries ==> step_spec(
            p,
            attempt,
            Attempt::<T, E>::Retry { err: e, after_ms: None },
        ) == Step::<T, E>::Finish(Err(e)),
{
}

/// A server hint never makes the driver wait longer than the policy's cap.
pub proof fn law_hint_never_exceeds_cap<T, E>(p: RetryPolicy, attempt: u32, outcome: Attempt<T, E>)
    ensures
        step_spec(p, attempt, outcome) matches Step::Again { wait: Wait::Hint(h), .. } ==> h
            <= p.max_delay_ms,
{
}

/// One xorshift64 step (shifts 13, 7, 17): the jitter generator's state update.
pub open spec fn xorshift_spec(x: u64) -> u64 {
    let a = x ^ (x << 13u64);
    let b = a ^ (a >> 7u64);
    b ^ (b << 17u64)
}

/// Advance the jitter generator's state.
pub fn next_state(x: u64) -> (y: u64)
    ensures
        y == xorshift_spec(x),
        x != 0 ==> y != 0,
{
    let a = x ^ (x << 13u64);
    let b = a ^ (a >> 7u64);
    let y = b ^ (b << 17u64);
    proof {
        lemma_xorshift_nonzero(x);
    }
    y
}

proof fn lemma_xorshift_nonzero(x: u64)
    ensures
        x != 0 ==> xorshift_spec(x) != 0,
{
    let a = x ^ (x << 13u64);
    let b = a ^ (a >> 7u64);
    let y = b ^ (b << 17u64);
    assert(x != 0 ==> a != 0) by (bit_vector)
        requires
            a == x ^ (x << 13u64),
    ;
    assert(a != 0 ==> b != 0) by (bit_vector)
        requires
            b == a ^ (a >> 7u64),
    ;
    assert(b != 0 ==> y != 0) by (bit_vector)
        requires
            y == b ^ (b << 17u64),
    ;
}

/// The fallback seed when the clock is unavailable.
pub const SEED_FALLBACK: u64 = 0x9E37_79B9_7F4A_7C15;

/// The generator's seed from the clock's nanoseconds (`None` when the clock is
/// unavailable): forced odd, so never zero (xorshift needs a non-zero state).
pub fn seed_from(nanos: Option<u64>) -> (s: u64)
    ensures
        s == (match nanos {
            Some(n) => n,
            None => SEED_FALLBACK,
        }) | 1u64,
        s != 0,
{
    let n = match nanos {
        Some(n) => n,
        None => SEED_FALLBACK,
    };
    let s = n | 1u64;
    assert(n | 1u64 != 0) by (bit_vector);
    s
}

/// Whether a failure is worth another attempt.
#[derive(Debug, Clone, Copy, PartialEq, Eq, Structural)]
pub enum Class {
    /// Transient: rate limit, overload, 5xx, timeout, connection failure.
    Retryable,
    /// Deterministic: auth, billing, bad request, content policy, missing model.
    Terminal,
}

/// The length of the run of ASCII digits in `s` starting at `i`.
pub open spec fn digit_run(s: Seq<char>, i: int) -> nat
    decreases s.len() - i,
{
    if 0 <= i < s.len() && is_digit(s[i]) {
        1 + digit_run(s, i + 1)
    } else {
        0
    }
}

/// The status in an `"http {code}"` prefix of an (already lower-cased) message:
/// the digits right after the first `"http "`, when there are any and they fit a `u16`.
pub open spec fn http_status_spec(lower: Seq<char>) -> Option<u16> {
    match find_from(lower, "http "@, 0) {
        None => None,
        Some(idx) => {
            let start = idx + "http "@.len();
            let digits = lower.subrange(start, start + digit_run(lower, start));
            if digits.len() > 0 && digits_value(digits) <= u16::MAX {
                Some(digits_value(digits) as u16)
            } else {
                None
            }
        },
    }
}

/// The transport-level failure phrases that mean "never reached a status".
pub open spec fn transient_phrase(lower: Seq<char>) -> bool {
    ||| contains(lower, "timed out"@)
    ||| contains(lower, "timeout"@)
    ||| contains(lower, "connection reset"@)
    ||| contains(lower, "connection refused"@)
    ||| contains(lower, "broken pipe"@)
    ||| contains(lower, "stream error"@)
}

/// Classification of a provider error message: an explicit HTTP status decides
/// (429/5xx retryable, everything else terminal); otherwise a transport-failure
/// phrase is retryable; anything unrecognised is terminal.
pub open spec fn classify_spec(msg: Seq<char>) -> Class {
    let lower = lower_seq(msg);
    match http_status_spec(lower) {
        Some(code) => if retryable_status_spec(code) { Class::Retryable } else { Class::Terminal },
        None => if transient_phrase(lower) { Class::Retryable } else { Class::Terminal },
    }
}

/// The end of the digit run starting at `i`.
pub fn digit_run_end(s: &[char], i: usize) -> (j: usize)
    requires
        i <= s@.len(),
    ensures
        j == i + digit_run(s@, i as int),
        j <= s@.len(),
        forall|k: int| i <= k < j ==> is_digit(#[trigger] s@[k]),
{
    let mut j = i;
    while j < s.len() && '0' <= s[j] && s[j] <= '9'
        invariant
            i <= j <= s@.len(),
            digit_run(s@, i as int) == (j - i) + digit_run(s@, j as int),
            forall|k: int| i <= k < j ==> is_digit(#[trigger] s@[k]),
        decreases s.len() - j,
    {
        j += 1;
    }
    j
}

/// The value of the digits `s[a..b]`, saturated at `cap + 1` (so a value above
/// `cap` is reported as `cap + 1`, never overflowing).
pub fn digits_value_capped(s: &[char], a: usize, b: usize, cap: u64) -> (v: u64)
    requires
        a <= b <= s@.len(),
        cap < u64::MAX / 16,
        forall|k: int| a <= k < b ==> is_digit(#[trigger] s@[k]),
    ensures
        v == if digits_value(s@.subrange(a as int, b as int)) <= cap {
            digits_value(s@.subrange(a as int, b as int))
        } else {
            (cap + 1) as nat
        },
{
    let mut v: u64 = 0;
    let mut i = a;
    while i < b
        invariant
            a <= i <= b <= s@.len(),
            cap < u64::MAX / 16,
            forall|k: int| a <= k < b ==> is_digit(#[trigger] s@[k]),
            v == if digits_value(s@.subrange(a as int, i as int)) <= cap {
                digits_value(s@.subrange(a as int, i as int))
            } else {
                (cap + 1) as nat
            },
        decreases b - i,
    {
        let d = (s[i] as u32 - '0' as u32) as u64;
        let ghost prev = s@.subrange(a as int, i as int);
        let ghost next = s@.subrange(a as int, i + 1);
        assert(next.drop_last() =~= prev);
        assert(is_digit(s@[i as int]));
        let t = v * 10 + d;
        v = if t <= cap { t } else { cap + 1 };
        i += 1;
    }
    v
}

/// Pull the status out of an `"http {code}"` prefix, if present.
pub fn extract_http_status(lower: &[char]) -> (r: Option<u16>)
    ensures
        r == http_status_spec(lower@),
{
    let n = lower.len();
    let needle = chars_of("http ");
    match find_exec(lower, &needle, 0) {
        None => None,
        Some(idx) => {
            assert(occurs_at(lower@, needle@, idx as int));
            assert(idx + needle@.len() <= lower@.len());
            let start = idx + needle.len();
            let end = digit_run_end(lower, start);
            if end == start {
                return None;
            }
            let v = digits_value_capped(lower, start, end, 65535);
            let ghost digits = lower@.subrange(start as int, end as int);
            assert(find_from(lower@, "http "@, 0) == Some(idx as int));
            assert(start == idx + "http "@.len());
            assert(digits.len() > 0);
            if v <= 65535 {
                Some(v as u16)
            } else {
                None
            }
        },
    }
}

/// Classify a provider error message (`"http {code}: {body}"` and friends).
/// Unknown failures are terminal, so a deterministic bug cannot burn a whole
/// chain of candidates.
pub fn classify(message: &str) -> (c: Class)
    ensures
        c == classify_spec(message@),
{
    let msg = chars_of(message);
    let lower = to_lower(&msg);
    if let Some(code) = extract_http_status(&lower) {
        return if retryable_status(code) {
            Class::Retryable
        } else {
            Class::Terminal
        };
    }
    let phrases = [
        "timed out",
        "timeout",
        "connection reset",
        "connection refused",
        "broken pipe",
        "stream error",
    ];
    let mut transient = false;
    let mut k: usize = 0;
    while k < 6
        invariant
            k <= 6,
            phrases@ == seq![
                "timed out",
                "timeout",
                "connection reset",
                "connection refused",
                "broken pipe",
                "stream error",
            ],
            transient == exists|j: int| 0 <= j < k && contains(lower@, (#[trigger] phrases@[j])@),
        decreases 6 - k,
    {
        let p = chars_of(phrases[k]);
        if contains_exec(&lower, &p) {
            transient = true;
        }
        k += 1;
    }
    if transient {
        Class::Retryable
    } else {
        Class::Terminal
    }
}

/// A message that carries no HTTP status and names a transport failure —
/// timed out, timeout, connection reset, connection refused, broken pipe,
/// stream error, in any case — is retryable.
pub proof fn law_transport_failure_retryable(msg: Seq<char>)
    requires
        !contains(lower_seq(msg), "http "@),
    ensures
        contains(lower_seq(msg), "timed out"@) ==> classify_spec(msg) == Class::Retryable,
        contains(lower_seq(msg), "timeout"@) ==> classify_spec(msg) == Class::Retryable,
        contains(lower_seq(msg), "connection reset"@) ==> classify_spec(msg) == Class::Retryable,
        contains(lower_seq(msg), "connection refused"@) ==> classify_spec(msg) == Class::Retryable,
        contains(lower_seq(msg), "broken pipe"@) ==> classify_spec(msg) == Class::Retryable,
        contains(lower_seq(msg), "stream error"@) ==> classify_spec(msg) == Class::Retryable,
{
}

/// An explicit HTTP status decides alone: 429 and every 5xx are retryable,
/// every other status is terminal, whatever the rest of the message says.
pub proof fn law_status_decides(msg: Seq<char>, code: u16)
    requires
        http_status_spec(lower_seq(msg)) == Some(code),
    ensures
        classify_spec(msg) == (if code == 429 || (500 <= code && code <= 599) {
            Class::Retryable
        } else {
            Class::Terminal
        }),
{
}

/// A 402 (billing) is never retryable: retrying a billing failure just burns
/// the candidate chain.
pub proof fn law_billing_never_retryable(msg: Seq<char>)
    requires
        http_status_spec(lower_seq(msg)) == Some(402u16),
    ensures
        classify_spec(msg) == Class::Terminal,
{
}

} // verus!
