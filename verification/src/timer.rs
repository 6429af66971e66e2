//! The election timer: one logical timer per node with a randomized duration.
//!
//! The timer is armed with a duration drawn uniformly from a fixed range,
//! reset on valid leader contact or on granting a vote, and fires at most one
//! pending timeout signal, which the role state machine consumes exactly once.
//! The caller supplies the passage of time by sleeping for the armed duration.

use vstd::prelude::*;

verus! {

/// Lower bound, in milliseconds, of the randomized election timeout range.
pub const ELECTION_TIMEOUT_MIN_MS: u64 = 100;

/// Upper bound, in milliseconds, of the randomized election timeout range.
pub const ELECTION_TIMEOUT_MAX_MS: u64 = 300;

/// The leader's fixed heartbeat cadence, shorter than any election timeout.
pub const HEARTBEAT_INTERVAL_MS: u64 = 50;

/// Relies on rand::random_range: returns a value inside the given range and
/// panics only on an empty range, which this constant range is not.
#[verifier::external_body]
fn random_timeout_ms() -> (r: u64)
    ensures
        ELECTION_TIMEOUT_MIN_MS <= r <= ELECTION_TIMEOUT_MAX_MS,
{
    rand::random_range(ELECTION_TIMEOUT_MIN_MS..=ELECTION_TIMEOUT_MAX_MS)
}

/// The logical election timer. `duration_ms` is the currently armed duration;
/// `pending` records a fired, not yet consumed, timeout signal.
pub struct ElectionTimer {
    pub duration_ms: u64,
    pub pending: bool,
}

impl ElectionTimer {
    /// Well-formed: the armed duration lies in the configured range.
    pub open spec fn wf(self) -> bool {
        ELECTION_TIMEOUT_MIN_MS <= self.duration_ms <= ELECTION_TIMEOUT_MAX_MS
    }

    /// A freshly armed timer with no pending signal.
    pub fn new() -> (t: ElectionTimer)
        ensures
            t.wf(),
            !t.pending,
    {
        ElectionTimer { duration_ms: random_timeout_ms(), pending: false }
    }

    /// Rearm: draw a fresh random duration and clear any pending signal.
    /// Returns the new duration for the caller to sleep on.
    pub fn rearm(&mut self) -> (d: u64)
        ensures
            final(self).wf(),
            !final(self).pending,
            d == final(self).duration_ms,
    {
        self.duration_ms = random_timeout_ms();
        self.pending = false;
        self.duration_ms
    }

    /// The armed duration elapsed without a reset: record the single timeout
    /// signal. At most one signal may be pending.
    pub fn fire(&mut self)
        requires
            !old(self).pending,
        ensures
            final(self).pending,
            final(self).duration_ms == old(self).duration_ms,
    {
        self.pending = true;
    }

    /// Consume the pending signal exactly once: reports whether a signal was
    /// pending, and clears it.
    pub fn consume(&mut self) -> (fired: bool)
        ensures
            fired == old(self).pending,
            !final(self).pending,
            final(self).duration_ms == old(self).duration_ms,
    {
        let fired = self.pending;
        self.pending = false;
        fired
    }
}

} // verus!
