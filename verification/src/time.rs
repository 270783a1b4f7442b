//! Simulation clock values and durations, in whole seconds.

use vstd::prelude::*;

verus! {

/// A moment on the simulation clock, counted in seconds since the start of
/// the day.
#[derive(Clone, Copy, Debug, PartialEq, Eq, Structural)]
pub struct Time {
    pub seconds: u64,
}

/// A span of simulation time, in seconds.
#[derive(Clone, Copy, Debug, PartialEq, Eq, Structural)]
pub struct Duration {
    pub seconds: u64,
}

pub const SECONDS_PER_MINUTE: u64 = 60;

pub const SECONDS_PER_HOUR: u64 = 3600;

pub const SECONDS_PER_DAY: u64 = 86400;

impl Time {
    /// Midnight, the origin of the simulation clock.
    pub fn start_of_day() -> (t: Time)
        ensures
            t.seconds == 0,
    {
        Time { seconds: 0 }
    }

    pub fn seconds(seconds: u64) -> (t: Time)
        ensures
            t.seconds == seconds,
    {
        Time { seconds }
    }

    /// `true` when `self` is at or before `other`.
    pub fn le(self, other: Time) -> (r: bool)
        ensures
            r == (self.seconds <= other.seconds),
    {
        self.seconds <= other.seconds
    }

    /// `true` when `self` is strictly before `other`.
    pub fn lt(self, other: Time) -> (r: bool)
        ensures
            r == (self.seconds < other.seconds),
    {
        self.seconds < other.seconds
    }

    /// The moment `d` later, or `None` when it does not fit on the clock.
    pub fn checked_add(self, d: Duration) -> (r: Option<Time>)
        ensures
            self.seconds + d.seconds <= u64::MAX ==> r == Some(
                Time { seconds: (self.seconds + d.seconds) as u64 },
            ),
            self.seconds + d.seconds > u64::MAX ==> r is None,
    {
        match self.seconds.checked_add(d.seconds) {
            Some(s) => Some(Time { seconds: s }),
            None => None,
        }
    }

    /// The moment `d` earlier, clamped at midnight.
    pub fn saturating_sub(self, d: Duration) -> (r: Time)
        ensures
            r.seconds == if self.seconds >= d.seconds {
                self.seconds - d.seconds
            } else {
                0
            },
    {
        Time { seconds: self.seconds.saturating_sub(d.seconds) }
    }
}

impl Duration {
    pub fn seconds(seconds: u64) -> (d: Duration)
        ensures
            d.seconds == seconds,
    {
        Duration { seconds }
    }

    pub fn minutes(m: u64) -> (d: Duration)
        requires
            m * SECONDS_PER_MINUTE <= u64::MAX,
        ensures
            d.seconds == m * SECONDS_PER_MINUTE,
    {
        Duration { seconds: m * SECONDS_PER_MINUTE }
    }

    pub fn hours(h: u64) -> (d: Duration)
        requires
            h * SECONDS_PER_HOUR <= u64::MAX,
        ensures
            d.seconds == h * SECONDS_PER_HOUR,
    {
        Duration { seconds: h * SECONDS_PER_HOUR }
    }
}

} // verus!
