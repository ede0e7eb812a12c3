//! Retrying transient HTTP failures. Durations are in nanoseconds; the
//! largest is that of `std::time::Duration::MAX`.

use vstd::prelude::*;

verus! {

/// Nanoseconds in `Duration::MAX`.
pub const DURATION_MAX_NANOS: u128 = 18_446_744_073_709_551_615_999_999_999;

/// Retry policy for transient HTTP failures.
#[derive(Clone, Copy, Debug, PartialEq, Eq, Structural)]
pub struct RetryPolicy {
    /// Total attempts per request (including the first attempt).
    pub max_attempts: usize,
    /// Initial backoff delay after the first retryable failure, in nanoseconds.
    pub initial_backoff: u128,
    /// Maximum backoff delay between attempts, in nanoseconds.
    pub max_backoff: u128,
    /// Whether non-idempotent requests (e.g., POST) may be retried.
    pub retry_non_idempotent: bool,
}

impl Default for RetryPolicy {
    /// One attempt, backing off 200 ms doubling up to 2 s, no retried POSTs.
    fn default() -> (p: Self)
        ensures
            p.max_attempts == 1,
            p.initial_backoff == 200_000_000,
            p.max_backoff == 2_000_000_000,
            !p.retry_non_idempotent,
    {
        RetryPolicy {
            max_attempts: 1,
            initial_backoff: 200_000_000,
            max_backoff: 2_000_000_000,
            retry_non_idempotent: false,
        }
    }
}

/// Attempts a request gets: the policy's (at least one) for a GET or when
/// non-idempotent requests may be retried, else one.
pub fn max_attempts_for(policy: &RetryPolicy, is_get: bool) -> (n: usize)
    ensures
        n == if is_get || policy.retry_non_idempotent {
            if policy.max_attempts >= 1 {
                policy.max_attempts
            } else {
                1
            }
        } else {
            1
        },
        n >= 1,
{
    if is_get || policy.retry_non_idempotent {
        if policy.max_attempts >= 1 {
            policy.max_attempts
        } else {
            1
        }
    } else {
        1
    }
}

/// HTTP statuses worth retrying: request timeout, too many requests, internal
/// server error, bad gateway, service unavailable, gateway timeout.
pub fn is_retryable_status(status: u16) -> (b: bool)
    ensures
        b == (status == 408 || status == 429 || status == 500 || status == 502 || status == 503
            || status == 504),
{
    status == 408 || status == 429 || status == 500 || status == 502 || status == 503 || status == 504
}

/// How an attempt ended.
#[derive(Clone, Copy, Debug, PartialEq, Eq, Structural)]
pub enum AttemptOutcome {
    /// A response arrived; whether its status is worth retrying.
    Response { retryable: bool },
    /// The request failed; whether the failure (connect or timeout) is worth retrying.
    Failure { retryable: bool },
}

/// What to do after an attempt.
#[derive(Clone, Copy, Debug, PartialEq, Eq, Structural)]
pub enum RetryAction {
    /// Hand the response or the failure to the caller.
    Finish,
    /// Wait `delay` nanoseconds, then try again with `next_backoff`.
    Wait { delay: u128, next_backoff: u128 },
    /// Try again at once (no backoff).
    Again,
}

/// The backoff after a wait: doubled (saturating at the largest duration),
/// at most the policy's maximum.
pub open spec fn next_backoff(backoff: u128, max_backoff: u128) -> u128 {
    let doubled = if 2 * backoff > DURATION_MAX_NANOS {
        DURATION_MAX_NANOS as int
    } else {
        2 * backoff
    };
    if doubled <= max_backoff {
        doubled as u128
    } else {
        max_backoff
    }
}

/// Decides what follows attempt number `attempt` (counting from one): finish
/// on a response that is not worth retrying, on a failure that is not, or
/// after the last attempt; otherwise wait the current backoff (when it is not
/// zero) and double it, up to the maximum.
pub fn after_attempt(policy: &RetryPolicy, max_attempts: usize, attempt: usize, outcome: AttemptOutcome, backoff: u128) -> (a: RetryAction)
    requires
        backoff <= DURATION_MAX_NANOS,
    ensures
        a == if (outcome matches AttemptOutcome::Response { retryable } && !retryable)
            || (outcome matches AttemptOutcome::Failure { retryable } && !retryable) || attempt
            >= max_attempts {
            RetryAction::Finish
        } else if backoff > 0 {
            RetryAction::Wait { delay: backoff, next_backoff: next_backoff(backoff, policy.max_backoff) }
        } else {
            RetryAction::Again
        },
{
    let done = match outcome {
        AttemptOutcome::Response { retryable } => !retryable || attempt >= max_attempts,
        AttemptOutcome::Failure { retryable } => attempt >= max_attempts || !retryable,
    };
    if done {
        return RetryAction::Finish;
    }
    if backoff > 0 {
        let doubled: u128 = if backoff > DURATION_MAX_NANOS / 2 {
            DURATION_MAX_NANOS
        } else {
            backoff * 2
        };
        let next = if doubled <= policy.max_backoff {
            doubled
        } else {
            policy.max_backoff
        };
        RetryAction::Wait { delay: backoff, next_backoff: next }
    } else {
        RetryAction::Again
    }
}

/// The backoff after a wait never exceeds the policy's maximum.
pub proof fn lemma_backoff_bounded(backoff: u128, max_backoff: u128)
    ensures
        next_backoff(backoff, max_backoff) <= max_backoff,
{
}

} // verus!
