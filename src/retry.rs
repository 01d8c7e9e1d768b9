//! How a failed call to the remote service is retried.
use vstd::prelude::*;
use crate::error::Error;

verus! {

/// Transport failures are retried at most this many times.
pub const MAX_TRANSPORT_RETRIES: u32 = 3;

/// Delay before the first retry, in milliseconds; each further retry waits
/// twice as long.
pub const INITIAL_BACKOFF_MS: u64 = 500;

/// HTTP status of a failed conditional update.
pub const PRECONDITION_FAILED: u16 = 412;

/// HTTP status of a request whose bearer token was refused.
pub const UNAUTHORIZED: u16 = 401;

/// How a call to the remote service failed.
#[derive(PartialEq, Eq, Structural, Clone, Copy, Debug)]
pub enum Failure {
    /// No answer: connection failure or timeout.
    Transport,
    /// An answer with a status other than success.
    Status(u16),
}

/// What to do after a failure.
#[derive(PartialEq, Eq, Structural, Clone, Copy, Debug)]
pub enum RetryStep {
    /// Wait this many milliseconds, then make the same call again.
    RetryAfter(u64),
    /// Refresh the access token, then make the same call again.
    RefreshThenRetry,
    /// Stop: the call failed for good.
    GiveUp(Error),
}

/// What the retries of one call have used up so far.
#[derive(PartialEq, Eq, Structural, Clone, Copy, Debug)]
pub struct RetryState {
    pub transport_retries: u32,
    pub refreshed: bool,
}

/// The delay before retry number `n + 1`, in milliseconds.
pub open spec fn backoff_ms(n: nat) -> nat
    decreases n,
{
    if n == 0 {
        INITIAL_BACKOFF_MS as nat
    } else {
        2 * backoff_ms((n - 1) as nat)
    }
}

/// Whether a status is a server error, which is retried like a transport
/// failure.
pub open spec fn is_server_error(status: u16) -> bool {
    500 <= status <= 599
}

/// The step after a failure, and the retry state that follows it.
pub open spec fn retry_decision(s: RetryState, f: Failure) -> (RetryStep, RetryState) {
    let transient = match f {
        Failure::Transport => true,
        Failure::Status(code) => is_server_error(code),
    };
    if transient {
        if s.transport_retries < MAX_TRANSPORT_RETRIES {
            (
                RetryStep::RetryAfter(backoff_ms(s.transport_retries as nat) as u64),
                RetryState { transport_retries: (s.transport_retries + 1) as u32, ..s },
            )
        } else {
            (RetryStep::GiveUp(Error::Transport), s)
        }
    } else {
        match f {
            Failure::Status(code) => if code == UNAUTHORIZED {
                if s.refreshed {
                    (RetryStep::GiveUp(Error::ReauthRequired), s)
                } else {
                    (RetryStep::RefreshThenRetry, RetryState { refreshed: true, ..s })
                }
            } else if code == PRECONDITION_FAILED {
                (RetryStep::GiveUp(Error::ConcurrentModification), s)
            } else {
                (RetryStep::GiveUp(Error::HttpStatus(code)), s)
            },
            Failure::Transport => (RetryStep::GiveUp(Error::Transport), s),
        }
    }
}

impl RetryState {
    /// Nothing used up yet.
    pub fn new() -> (r: RetryState)
        ensures
            r == (RetryState { transport_retries: 0, refreshed: false }),
    {
        RetryState { transport_retries: 0, refreshed: false }
    }

    /// Decides what follows a failure, and records what it uses up.
    pub fn on_failure(&mut self, f: Failure) -> (step: RetryStep)
        ensures
            (step, *final(self)) == retry_decision(*old(self), f),
    {
        let transient = match f {
            Failure::Transport => true,
            Failure::Status(code) => 500 <= code && code <= 599,
        };
        if transient {
            if self.transport_retries < MAX_TRANSPORT_RETRIES {
                let n = self.transport_retries;
                let delay: u64 = if n == 0 {
                    500
                } else if n == 1 {
                    1000
                } else {
                    2000
                };
                assert(delay == backoff_ms(n as nat)) by {
                    reveal_with_fuel(backoff_ms, 3);
                }
                self.transport_retries = n + 1;
                RetryStep::RetryAfter(delay)
            } else {
                RetryStep::GiveUp(Error::Transport)
            }
        } else {
            match f {
                Failure::Status(code) => if code == UNAUTHORIZED {
                    if self.refreshed {
                        RetryStep::GiveUp(Error::ReauthRequired)
                    } else {
                        self.refreshed = true;
                        RetryStep::RefreshThenRetry
                    }
                } else if code == PRECONDITION_FAILED {
                    RetryStep::GiveUp(Error::ConcurrentModification)
                } else {
                    RetryStep::GiveUp(Error::HttpStatus(code))
                },
                Failure::Transport => RetryStep::GiveUp(Error::Transport),
            }
        }
    }
}

/// Checks, before a conditional update, the record's current last
/// modification against the one the update was planned on: the update may
/// go ahead only when they are equal; when they differ, or the record can no
/// longer be read, it fails as a refused precondition.
pub fn check_unmodified(expected: i64, current: Option<i64>) -> (r: Result<(), Failure>)
    ensures
        r == (if current == Some(expected) {
            Ok::<(), Failure>(())
        } else {
            Err(Failure::Status(PRECONDITION_FAILED))
        }),
{
    match current {
        Some(t) => if t == expected {
            Ok(())
        } else {
            Err(Failure::Status(PRECONDITION_FAILED))
        },
        None => Err(Failure::Status(PRECONDITION_FAILED)),
    }
}

/// A transient failure is given up only after the allowed retries: a call
/// that has failed transiently on every attempt is abandoned exactly when
/// three retries, waiting 500, 1000 and 2000 milliseconds, were made.
pub proof fn lemma_transport_retry_schedule(s: RetryState)
    requires
        s.transport_retries <= MAX_TRANSPORT_RETRIES,
    ensures
        retry_decision(s, Failure::Transport).0 is GiveUp <==> s.transport_retries == MAX_TRANSPORT_RETRIES,
        s.transport_retries == 0 ==> retry_decision(s, Failure::Transport).0 == RetryStep::RetryAfter(500),
        s.transport_retries == 1 ==> retry_decision(s, Failure::Transport).0 == RetryStep::RetryAfter(1000),
        s.transport_retries == 2 ==> retry_decision(s, Failure::Transport).0 == RetryStep::RetryAfter(2000),
{
    reveal_with_fuel(backoff_ms, 3);
}

} // verus!
