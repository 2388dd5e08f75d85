//! The election timer: how long a node has gone without a reset, measured
//! against a timeout that is drawn anew at every reset.
//!
//! The timer reads no clock and draws no numbers. The caller hands in the
//! present instant and the next timeout, in one unit of its choosing.

use vstd::prelude::*;

verus! {

/// The time from `last_reset` to `now`; none if the clock reads earlier than
/// the reset.
pub open spec fn elapsed_between(last_reset: u64, now: u64) -> nat {
    if now >= last_reset {
        (now - last_reset) as nat
    } else {
        0
    }
}

/// The instant of the last reset and the timeout drawn at it.
#[derive(Clone, Copy, Debug, PartialEq, Eq, Structural)]
pub struct ElectionTimer {
    pub last_reset: u64,
    pub timeout: u64,
}

impl ElectionTimer {
    /// Whether more than the timeout has passed since the last reset.
    pub open spec fn expired(self, now: u64) -> bool {
        elapsed_between(self.last_reset, now) > self.timeout
    }

    /// A timer reset at `now` that runs for `timeout`.
    pub fn new(now: u64, timeout: u64) -> (timer: Self)
        ensures
            timer == (ElectionTimer { last_reset: now, timeout }),
    {
        ElectionTimer { last_reset: now, timeout }
    }

    /// Whether the timer has run out at `now`.
    pub fn is_expired(&self, now: u64) -> (expired: bool)
        ensures
            expired == self.expired(now),
    {
        now >= self.last_reset && now - self.last_reset > self.timeout
    }

    /// Restarts the timer at `now` with the freshly drawn `timeout`.
    pub fn reset(&mut self, now: u64, timeout: u64)
        ensures
            *final(self) == (ElectionTimer { last_reset: now, timeout }),
    {
        self.last_reset = now;
        self.timeout = timeout;
    }
}

} // verus!
