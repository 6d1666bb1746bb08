//! The retry controller: bounded exponential backoff with jitter, for
//! transient failures on the same key.

use vstd::prelude::*;
use vstd::arithmetic::power2::pow2;
use crate::classifier::ErrorAnalysis;

verus! {

/// Attempts on one key before it is given up for this request.
pub const MAX_ATTEMPTS: u32 = 3;

/// The base of the backoff, in milliseconds.
pub const BASE_DELAY_MS: u64 = 100;

/// Jitter is drawn from `[0, JITTER_MAX_MS)` milliseconds.
pub const JITTER_MAX_MS: u64 = 100;

/// Relies on `rand::random`: a value drawn from the thread's random
/// generator. Nothing is promised of the value.
pub assume_specification<T>[ rand::random::<T> ]() -> (r: T)
    where
        rand::distributions::Standard: rand::distributions::Distribution<T>,
;

/// The delay before attempt `attempt`: `100 * 2^attempt` milliseconds plus
/// the jitter reduced below 100, capped at the largest `u64`.
pub open spec fn backoff_ms(attempt: nat, jitter: u64) -> u64 {
    let raw = 100 * pow2(attempt) + jitter % 100;
    if raw > u64::MAX {
        u64::MAX
    } else {
        raw as u64
    }
}

/// What the controller does after an attempt on a key failed.
#[derive(Clone, Copy, Debug, PartialEq, Eq, Structural)]
pub enum RetryDecision {
    /// Wait this long, then try the same key again.
    RetrySameKey { delay_ms: u64 },
    /// Hand the failure to the failover engine.
    Surrender,
    /// A retry would start at or after the request's deadline: end the
    /// request with a timeout.
    OutOfTime,
}

/// What the controller decides after failed attempt number `attempt` (from
/// 1) with this outcome, given `jitter`: retry a transient failure while
/// attempts remain, after the backoff of the next attempt; else surrender.
pub open spec fn retry_decision(analysis: ErrorAnalysis, attempt: u32, max_attempts: u32, jitter: u64) -> RetryDecision {
    if analysis == ErrorAnalysis::TransientServerError && attempt < max_attempts {
        RetryDecision::RetrySameKey { delay_ms: backoff_ms((attempt + 1) as nat, jitter) }
    } else {
        RetryDecision::Surrender
    }
}

/// The delay before attempt `attempt`, in milliseconds.
pub fn retry_delay_ms(attempt: u32, jitter: u64) -> (r: u64)
    ensures
        r == backoff_ms(attempt as nat, jitter),
{
    broadcast use vstd::arithmetic::power2::lemma_pow2_unfold, vstd::arithmetic::power2::lemma_pow2_pos;

    let j = jitter % JITTER_MAX_MS;
    let mut base: u64 = BASE_DELAY_MS;
    let mut i: u32 = 0;
    assert(pow2(0) == 1) by {
        vstd::arithmetic::power2::lemma2_to64();
    }
    while i < attempt
        invariant
            i <= attempt,
            j == jitter % 100,
            base == 100 * pow2(i as nat),
        decreases attempt - i,
    {
        if base > (u64::MAX - j) / 2 {
            proof {
                vstd::arithmetic::power2::lemma_pow2_unfold((i + 1) as nat);
                if i + 1 < attempt {
                    vstd::arithmetic::power2::lemma_pow2_strictly_increases((i + 1) as nat, attempt as nat);
                }
                assert(100 * pow2(attempt as nat) >= 100 * pow2((i + 1) as nat)) by (nonlinear_arith)
                    requires
                        pow2(attempt as nat) >= pow2((i + 1) as nat),
                ;
            }
            return u64::MAX;
        }
        proof {
            vstd::arithmetic::power2::lemma_pow2_unfold((i + 1) as nat);
        }
        base = base * 2;
        i = i + 1;
    }
    base + j
}

/// A random jitter below the maximum, in milliseconds.
pub fn random_jitter_ms() -> (r: u64)
    ensures
        r < JITTER_MAX_MS,
{
    let raw: u64 = rand::random::<u64>();
    raw % JITTER_MAX_MS
}

/// Decides, after failed attempt number `attempt` on a key, whether to try
/// the same key again and after how long.
pub fn decide_retry(analysis: ErrorAnalysis, attempt: u32, max_attempts: u32, jitter: u64) -> (r: RetryDecision)
    ensures
        r == retry_decision(analysis, attempt, max_attempts, jitter),
{
    if analysis == ErrorAnalysis::TransientServerError && attempt < max_attempts {
        RetryDecision::RetrySameKey { delay_ms: retry_delay_ms(attempt + 1, jitter) }
    } else {
        RetryDecision::Surrender
    }
}

/// The decision of `retry_decision`, bounded by the request's deadline: a
/// retry that would start at or after `deadline_ms` (after waiting its
/// delay from `now_ms`) becomes the end of the request.
pub open spec fn retry_decision_before(
    analysis: ErrorAnalysis,
    attempt: u32,
    max_attempts: u32,
    jitter: u64,
    now_ms: u64,
    deadline_ms: u64,
) -> RetryDecision {
    match retry_decision(analysis, attempt, max_attempts, jitter) {
        RetryDecision::RetrySameKey { delay_ms } => if now_ms + delay_ms >= deadline_ms {
            RetryDecision::OutOfTime
        } else {
            RetryDecision::RetrySameKey { delay_ms }
        },
        other => other,
    }
}

/// Decides, after failed attempt number `attempt` on a key at `now_ms`,
/// whether to try the same key again, give it up, or end the request
/// because the retry could not start before `deadline_ms`.
pub fn decide_retry_before(
    analysis: ErrorAnalysis,
    attempt: u32,
    max_attempts: u32,
    jitter: u64,
    now_ms: u64,
    deadline_ms: u64,
) -> (r: RetryDecision)
    ensures
        r == retry_decision_before(analysis, attempt, max_attempts, jitter, now_ms, deadline_ms),
{
    match decide_retry(analysis, attempt, max_attempts, jitter) {
        RetryDecision::RetrySameKey { delay_ms } => if now_ms as u128 + delay_ms as u128 >= deadline_ms as u128 {
            RetryDecision::OutOfTime
        } else {
            RetryDecision::RetrySameKey { delay_ms }
        },
        other => other,
    }
}

/// The backoff grows with each attempt, for the same jitter.
pub proof fn lemma_backoff_increasing(a: nat, b: nat, jitter: u64)
    requires
        a < b,
    ensures
        backoff_ms(a, jitter) <= backoff_ms(b, jitter),
        backoff_ms(b, jitter) < u64::MAX ==> backoff_ms(a, jitter) < backoff_ms(b, jitter),
{
    vstd::arithmetic::power2::lemma_pow2_strictly_increases(a, b);
}

} // verus!
