//! The connection supervisor's decisions: when a session ends, either
//! retry at once (after a graceful end, with the backoff schedule reset)
//! or retry after the next exponential backoff delay. The surrounding
//! process owns the loop, the sleeping and the waiting for dependency
//! updates.

use vstd::prelude::*;

verus! {

/// The first and smallest retry delay.
pub const INITIAL_BACKOFF_MS: u64 = 5_000;

#[verifier::external_type_specification]
#[verifier::external_body]
#[verifier::reject_recursive_types(C)]
pub struct ExExponentialBackoff<C>(backoff::exponential::ExponentialBackoff<C>);

#[verifier::external_type_specification]
#[verifier::external_body]
pub struct ExSystemClock(backoff::SystemClock);

/// Relies on backoff::ExponentialBackoffBuilder: builds an exponential
/// backoff policy whose current and initial interval are the given
/// number of milliseconds and which has no overall time limit. The
/// other knobs keep the crate's defaults, so the retry interval itself
/// stays capped at the crate's default maximum.
#[verifier::external_body]
fn backoff_new(initial_ms: u64) -> backoff::ExponentialBackoff {
    backoff::ExponentialBackoffBuilder::new().with_initial_interval(
        std::time::Duration::from_millis(initial_ms),
    ).with_max_elapsed_time(None).build()
}

/// Relies on backoff::backoff::Backoff::next_backoff for
/// ExponentialBackoff: the next randomized delay, growing exponentially
/// between calls; the value is randomized, so nothing is promised of it.
#[verifier::external_body]
fn backoff_next(b: &mut backoff::ExponentialBackoff) -> Option<u64> {
    backoff::backoff::Backoff::next_backoff(b).map(|d| d.as_millis() as u64)
}

/// Relies on backoff::backoff::Backoff::reset for ExponentialBackoff:
/// the schedule starts afresh from the initial interval.
#[verifier::external_body]
fn backoff_reset(b: &mut backoff::ExponentialBackoff) {
    backoff::backoff::Backoff::reset(b)
}

/// What the supervisor does next after one session.
pub enum Retry {
    /// Retry at once: the session ended gracefully, and the next failure
    /// starts a fresh backoff schedule.
    Immediate,
    /// Sleep this many milliseconds, then retry.
    After { delay_ms: u64 },
}

/// The supervisor's state between sessions: the backoff schedule.
pub struct SupervisorState {
    policy: backoff::ExponentialBackoff,
}

impl SupervisorState {
    /// A fresh supervisor: the first failure is retried after the
    /// initial interval.
    pub fn new() -> SupervisorState {
        SupervisorState { policy: backoff_new(INITIAL_BACKOFF_MS) }
    }

    /// Decides the next step after one session: a graceful end resets
    /// the schedule and retries at once; a failed end retries after the
    /// next exponential delay, whatever the policy yields.
    pub fn on_session_end(&mut self, ok: bool) -> (r: Retry)
        ensures
            ok <==> r is Immediate,
    {
        if ok {
            backoff_reset(&mut self.policy);
            Retry::Immediate
        } else {
            match backoff_next(&mut self.policy) {
                Some(d) => Retry::After { delay_ms: d },
                None => Retry::After { delay_ms: 0 },
            }
        }
    }
}

} // verus!
