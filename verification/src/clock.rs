//! The pipeline clock: time of day at the start, monotonic from there on.
//!
//! Timestamps should say when a unit was taken, so the clock starts at the
//! time of day. They must also never fall within a class, across restarts
//! and whatever happens to the system's clock, so the clock starts no
//! earlier than the latest timestamp already stored, and from then on it
//! advances by elapsed time alone.

use vstd::prelude::*;

verus! {

/// A clock that reads `origin` at the moment it is started.
#[derive(Clone, Copy, Debug, PartialEq, Eq, Structural)]
pub struct Clock {
    pub origin: u64,
}

impl Clock {
    /// What the clock shows once `elapsed` nanoseconds have passed since it
    /// was started. It stops at the largest reading rather than wrap.
    pub open spec fn reading(self, elapsed: u64) -> u64 {
        if self.origin + elapsed <= u64::MAX {
            (self.origin + elapsed) as u64
        } else {
            u64::MAX
        }
    }

    /// Starts a clock at the time of day `wall_now`, or at `not_before` if
    /// the time of day lies behind it.
    pub fn starting(wall_now: u64, not_before: u64) -> (clock: Clock)
        ensures
            clock.origin == if wall_now >= not_before {
                wall_now
            } else {
                not_before
            },
    {
        Clock {
            origin: if wall_now >= not_before {
                wall_now
            } else {
                not_before
            },
        }
    }

    /// Reads the clock `elapsed` nanoseconds after it was started.
    pub fn read(&self, elapsed: u64) -> (now: u64)
        ensures
            now == self.reading(elapsed),
    {
        self.origin.saturating_add(elapsed)
    }
}

/// The clock never runs backwards and never shows less than it started at.
pub proof fn lemma_clock_is_monotone(clock: Clock, earlier: u64, later: u64)
    requires
        earlier <= later,
    ensures
        clock.origin <= clock.reading(earlier) <= clock.reading(later),
{
}

} // verus!
