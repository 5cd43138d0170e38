//! The retry policy for network fetches: transient failures back off
//! exponentially with a capped exponent, permanent failures stop at
//! once, and the attempt budget is bounded or unbounded by
//! configuration.

use vstd::arithmetic::power2::pow2;
use vstd::prelude::*;

verus! {

/// Base delay in seconds before the first retry.
pub const BASE_DELAY_SECS: u64 = 5;

/// Largest exponent the backoff may reach: delays stop growing past
/// `BASE_DELAY_SECS * 2^BACKOFF_CAP` seconds.
pub const BACKOFF_CAP: u32 = 10;

/// What one fetch attempt reported.
#[derive(Clone, Copy, Debug, PartialEq, Eq, Structural)]
pub enum FetchEvent {
    /// The request succeeded; its body is ready.
    Success,
    /// A transport or timeout failure worth retrying.
    TransientError,
    /// A definite failure (such as a not-found response): no retry.
    PermanentError,
}

/// What the caller must do next.
#[derive(Clone, Copy, Debug, PartialEq, Eq, Structural)]
pub enum FetchAction {
    /// Hand the successful result out.
    Deliver,
    /// Wait this many seconds, then try again.
    RetryAfter(u64),
    /// Stop: the fetch has failed.
    GiveUp,
}

/// Delay in seconds before retry number `n` (1-based): exponential
/// growth from the base delay, with the exponent capped.
pub open spec fn backoff_delay_spec(n: int) -> int {
    BASE_DELAY_SECS * pow2(
        (if n - 1 > BACKOFF_CAP {
            BACKOFF_CAP as int
        } else {
            n - 1
        }) as nat,
    )
}

/// Tracks how many attempts a fetch has used. `max_attempts` of
/// `None` retries indefinitely; `Some(m)` gives up once `m` attempts
/// have failed.
pub struct RetryPolicy {
    /// Failed attempts so far.
    pub attempts: u32,
    /// Attempt budget, or `None` for indefinite retrying.
    pub max_attempts: Option<u32>,
}

impl RetryPolicy {
    /// A fresh policy with no attempts used.
    pub fn new(max_attempts: Option<u32>) -> (r: Self)
        ensures
            r.attempts == 0,
            r.max_attempts == max_attempts,
    {
        RetryPolicy { attempts: 0, max_attempts }
    }

    /// Decides what follows one attempt's outcome: success delivers,
    /// a permanent failure gives up, and a transient failure either
    /// retries after the backoff delay for this attempt or exhausts
    /// the budget.
    pub fn on_event(&mut self, event: FetchEvent) -> (r: FetchAction)
        requires
            old(self).attempts < u32::MAX,
        ensures
            final(self).max_attempts == old(self).max_attempts,
            match event {
                FetchEvent::Success => r == FetchAction::Deliver && final(self).attempts == old(
                    self,
                ).attempts,
                FetchEvent::PermanentError => r == FetchAction::GiveUp && final(self).attempts
                    == old(self).attempts,
                FetchEvent::TransientError => {
                    &&& final(self).attempts == old(self).attempts + 1
                    &&& match old(self).max_attempts {
                        Some(m) => (final(self).attempts >= m ==> r == FetchAction::GiveUp) && (
                        final(self).attempts < m ==> r == FetchAction::RetryAfter(
                            backoff_delay_spec(final(self).attempts as int) as u64,
                        )),
                        None => r == FetchAction::RetryAfter(
                            backoff_delay_spec(final(self).attempts as int) as u64,
                        ),
                    }
                },
            },
    {
        match event {
            FetchEvent::Success => FetchAction::Deliver,
            FetchEvent::PermanentError => FetchAction::GiveUp,
            FetchEvent::TransientError => {
                self.attempts = self.attempts + 1;
                let exhausted = match self.max_attempts {
                    Some(m) => self.attempts >= m,
                    None => false,
                };
                if exhausted {
                    FetchAction::GiveUp
                } else {
                    FetchAction::RetryAfter(backoff_delay(self.attempts))
                }
            },
        }
    }
}

/// Delay in seconds before retry number `n`.
pub fn backoff_delay(n: u32) -> (r: u64)
    requires
        n >= 1,
    ensures
        r == backoff_delay_spec(n as int),
{
    let e: u32 = if n - 1 > BACKOFF_CAP {
        BACKOFF_CAP
    } else {
        n - 1
    };
    let mut d: u64 = BASE_DELAY_SECS;
    let mut k: u32 = 0;
    proof {
        vstd::arithmetic::power2::lemma2_to64();
    }
    while k < e
        invariant
            e <= BACKOFF_CAP,
            k <= e,
            d == BASE_DELAY_SECS * pow2(k as nat),
        decreases e - k,
    {
        proof {
            vstd::arithmetic::power2::lemma_pow2_unfold((k + 1) as nat);
            vstd::arithmetic::power2::lemma_pow2_strictly_increases(k as nat, BACKOFF_CAP as nat);
            vstd::arithmetic::power2::lemma2_to64();
        }
        d = d * 2;
        k = k + 1;
    }
    d
}

} // verus!
