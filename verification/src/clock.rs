//! Time as the library sees it: lengths of time and points in time, both
//! counted in whole nanoseconds. The clock itself is read outside the
//! library, which is handed the current time.

use vstd::prelude::*;

verus! {

/// The nanoseconds in one second.
pub const NANOS_PER_SEC: u128 = 1_000_000_000;

/// A length of time.
#[derive(Clone, Copy, Debug, PartialEq, Eq, Structural)]
pub struct TimeSpan {
    pub nanos: u128,
}

/// A point in time, as the nanoseconds since the Unix epoch.
#[derive(Clone, Copy, Debug, PartialEq, Eq, Structural)]
pub struct TimePoint {
    pub nanos: u128,
}

impl TimeSpan {
    /// The span of so many whole seconds.
    pub open spec fn of_secs(secs: int) -> TimeSpan {
        TimeSpan { nanos: (secs * 1_000_000_000) as u128 }
    }

    /// The whole seconds in the span.
    pub open spec fn whole_secs(self) -> nat {
        (self.nanos / 1_000_000_000) as nat
    }

    /// The span of so many whole seconds.
    pub fn from_secs(secs: u64) -> (r: TimeSpan)
        ensures
            r == TimeSpan::of_secs(secs as int),
            r.nanos == secs * 1_000_000_000,
    {
        TimeSpan { nanos: (secs as u128) * NANOS_PER_SEC }
    }

    /// The whole seconds in the span.
    pub fn as_secs(&self) -> (r: u128)
        ensures
            r == self.whole_secs(),
    {
        self.nanos / NANOS_PER_SEC
    }

    /// The sum of two spans, or the longest span that can be held if the
    /// sum is longer.
    pub open spec fn plus(self, other: TimeSpan) -> TimeSpan {
        if self.nanos + other.nanos <= u128::MAX {
            TimeSpan { nanos: (self.nanos + other.nanos) as u128 }
        } else {
            TimeSpan { nanos: u128::MAX }
        }
    }

    /// The sum of two spans, or the longest span that can be held if the
    /// sum is longer.
    pub fn saturating_add(self, other: TimeSpan) -> (r: TimeSpan)
        ensures
            r == self.plus(other),
    {
        if self.nanos <= u128::MAX - other.nanos {
            TimeSpan { nanos: self.nanos + other.nanos }
        } else {
            TimeSpan { nanos: u128::MAX }
        }
    }
}

impl TimePoint {
    /// The Unix epoch.
    pub open spec fn unix_epoch() -> TimePoint {
        TimePoint { nanos: 0 }
    }

    /// The Unix epoch.
    pub fn epoch() -> (r: TimePoint)
        ensures
            r == TimePoint::unix_epoch(),
    {
        TimePoint { nanos: 0 }
    }

    /// The time from `earlier` to `self`; nothing if `earlier` is the later
    /// of the two.
    pub open spec fn since(self, earlier: TimePoint) -> TimeSpan {
        if self.nanos >= earlier.nanos {
            TimeSpan { nanos: (self.nanos - earlier.nanos) as u128 }
        } else {
            TimeSpan { nanos: 0 }
        }
    }

    /// The time from `earlier` to `self`; nothing if `earlier` is the later
    /// of the two.
    pub fn elapsed_since(&self, earlier: TimePoint) -> (r: TimeSpan)
        ensures
            r == self.since(earlier),
    {
        if self.nanos >= earlier.nanos {
            TimeSpan { nanos: self.nanos - earlier.nanos }
        } else {
            TimeSpan { nanos: 0 }
        }
    }

    /// Whether `self` lies more than `wait` after `start`.
    pub open spec fn past(self, start: TimePoint, wait: TimeSpan) -> bool {
        start.nanos + wait.nanos < self.nanos
    }

    /// Whether `self` lies more than `wait` after `start`.
    pub fn is_past(&self, start: TimePoint, wait: TimeSpan) -> (b: bool)
        ensures
            b == self.past(start, wait),
    {
        if start.nanos <= u128::MAX - wait.nanos {
            start.nanos + wait.nanos < self.nanos
        } else {
            false
        }
    }

    /// The point `wait` after `self`, or the last point that can be held if
    /// that is later.
    pub open spec fn later(self, wait: TimeSpan) -> TimePoint {
        if self.nanos + wait.nanos <= u128::MAX {
            TimePoint { nanos: (self.nanos + wait.nanos) as u128 }
        } else {
            TimePoint { nanos: u128::MAX }
        }
    }

    /// The point `wait` after `self`, or the last point that can be held if
    /// that is later.
    pub fn saturating_add(self, wait: TimeSpan) -> (r: TimePoint)
        ensures
            r == self.later(wait),
    {
        if self.nanos <= u128::MAX - wait.nanos {
            TimePoint { nanos: self.nanos + wait.nanos }
        } else {
            TimePoint { nanos: u128::MAX }
        }
    }
}

/// The two ends of a range.
#[derive(Debug)]
pub struct MinMax<T> {
    pub min: T,
    pub max: T,
}

impl<T> MinMax<T> {
    /// The range from `min` to `max`.
    pub fn new(min: T, max: T) -> (r: Self)
        ensures
            r.min == min,
            r.max == max,
    {
        MinMax { min, max }
    }
}

} // verus!
