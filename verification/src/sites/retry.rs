//! Retry policy for page fetches: which HTTP statuses are retried, and how
//! the back-off delay grows.
//!
//! The application sends the request and sleeps; this state machine decides,
//! from each response status, what happens next.
use vstd::prelude::*;

verus! {

/// Retry limits of a site adapter.
pub struct RetryPolicy {
    /// Maximum number of retries after the first attempt.
    pub max_retries: u32,
    /// Delay before the first retry, in seconds.
    pub initial_backoff_secs: u64,
    /// Cap of the exponentially growing delay, in seconds.
    pub max_backoff_secs: u64,
    /// Whether HTTP 401 is reported as rejected credentials.
    pub reject_unauthorized: bool,
}

impl RetryPolicy {
    /// The policy shared by the booru adapters: 6 retries, 5 s doubling up to 300 s.
    pub fn standard() -> (p: Self)
        ensures
            p.max_retries == 6,
            p.initial_backoff_secs == 5,
            p.max_backoff_secs == 300,
            !p.reject_unauthorized,
    {
        RetryPolicy { max_retries: 6, initial_backoff_secs: 5, max_backoff_secs: 300, reject_unauthorized: false }
    }

    /// The kemono policy: 5 retries, 2 s doubling up to 60 s.
    pub fn kemono() -> (p: Self)
        ensures
            p.max_retries == 5,
            p.initial_backoff_secs == 2,
            p.max_backoff_secs == 60,
            !p.reject_unauthorized,
    {
        RetryPolicy { max_retries: 5, initial_backoff_secs: 2, max_backoff_secs: 60, reject_unauthorized: false }
    }

    /// The gelbooru policy: the standard one, and 401 means rejected credentials.
    pub fn gelbooru() -> (p: Self)
        ensures
            p.max_retries == 6,
            p.initial_backoff_secs == 5,
            p.max_backoff_secs == 300,
            p.reject_unauthorized,
    {
        RetryPolicy { max_retries: 6, initial_backoff_secs: 5, max_backoff_secs: 300, reject_unauthorized: true }
    }
}

/// What to do after a response.
#[derive(Debug, PartialEq, Eq)]
pub enum RetryAction {
    /// The body is the page.
    Success,
    /// Sleep this many seconds, then send the request again.
    Retry { sleep_secs: u64 },
    /// The site rejected the credentials (HTTP 401).
    Unauthorized,
    /// Give up with this status.
    Fail { status: u16 },
}

/// 2xx statuses.
pub open spec fn is_success(status: u16) -> bool {
    200 <= status <= 299
}

/// Statuses worth retrying: 5xx and 429.
pub open spec fn is_transient(status: u16) -> bool {
    (500 <= status <= 599) || status == 429
}

/// Progress of one page fetch.
pub struct RetryState {
    /// Attempts already answered with a retry.
    pub attempt: u32,
    /// Delay before the next retry, in seconds.
    pub delay_secs: u64,
}

/// The state is consistent with the policy.
pub open spec fn retry_state_ok(s: RetryState, p: RetryPolicy) -> bool {
    s.attempt <= p.max_retries && s.delay_secs <= if p.initial_backoff_secs <= p.max_backoff_secs {
        p.max_backoff_secs
    } else {
        p.initial_backoff_secs
    }
}

/// `min(2 * d, max)`.
pub open spec fn next_delay(d: u64, max: u64) -> u64 {
    if 2 * d <= max {
        (2 * d) as u64
    } else {
        max
    }
}

impl RetryState {
    /// State before the first attempt.
    pub fn start(policy: &RetryPolicy) -> (s: Self)
        ensures
            s.attempt == 0,
            s.delay_secs == policy.initial_backoff_secs,
            retry_state_ok(s, *policy),
    {
        RetryState { attempt: 0, delay_secs: policy.initial_backoff_secs }
    }

    /// Decide what to do with a response status and advance the state.
    pub fn on_status(&mut self, status: u16, policy: &RetryPolicy) -> (a: RetryAction)
        requires
            retry_state_ok(*old(self), *policy),
            policy.max_backoff_secs <= u64::MAX / 2,
            policy.initial_backoff_secs <= u64::MAX / 2,
        ensures
            retry_state_ok(*final(self), *policy),
            is_success(status) ==> a == RetryAction::Success && *final(self) == *old(self),
            !is_success(status) && policy.reject_unauthorized && status == 401 ==> a == RetryAction::Unauthorized,
            !is_success(status) && !(policy.reject_unauthorized && status == 401) && is_transient(status)
                && old(self).attempt < policy.max_retries ==> a == (RetryAction::Retry {
                    sleep_secs: old(self).delay_secs,
                }) && final(self).attempt == old(self).attempt + 1 && final(self).delay_secs == next_delay(
                    old(self).delay_secs,
                    policy.max_backoff_secs,
                ),
            !is_success(status) && !(policy.reject_unauthorized && status == 401) && !(is_transient(status)
                && old(self).attempt < policy.max_retries) ==> a == (RetryAction::Fail { status }),
    {
        if 200 <= status && status <= 299 {
            return RetryAction::Success;
        }
        if policy.reject_unauthorized && status == 401 {
            return RetryAction::Unauthorized;
        }
        let transient = (500 <= status && status <= 599) || status == 429;
        if transient && self.attempt < policy.max_retries {
            let sleep_secs = self.delay_secs;
            self.attempt = self.attempt + 1;
            self.delay_secs = if 2 * self.delay_secs <= policy.max_backoff_secs {
                2 * self.delay_secs
            } else {
                policy.max_backoff_secs
            };
            return RetryAction::Retry { sleep_secs };
        }
        RetryAction::Fail { status }
    }
}

/// A fetch retries at most `max_retries` times: once that many retries were
/// granted, a transient status ends the fetch.
pub proof fn lemma_retries_bounded(s: RetryState, p: RetryPolicy, status: u16)
    requires
        s.attempt == p.max_retries,
        is_transient(status),
        !(p.reject_unauthorized && status == 401),
    ensures
        !is_success(status),
        !(is_transient(status) && s.attempt < p.max_retries),
{
}

} // verus!
