//! Points in time and spans of time, as plain nanoseconds.
use vstd::prelude::*;

verus! {

/// A span of time.
#[derive(Clone, Copy, Debug, PartialEq, Eq, PartialOrd, Ord, Structural)]
pub struct Duration {
    /// Length of the span in nanoseconds.
    pub nanos: u128,
}

impl Duration {
    /// A span of whole seconds.
    pub fn from_secs(secs: u64) -> (d: Duration)
        ensures
            d.nanos == secs * 1_000_000_000,
    {
        Duration { nanos: secs as u128 * 1_000_000_000 }
    }

    /// A span of whole milliseconds.
    pub fn from_millis(millis: u64) -> (d: Duration)
        ensures
            d.nanos == millis * 1_000_000,
    {
        Duration { nanos: millis as u128 * 1_000_000 }
    }

    /// A span of whole microseconds.
    pub fn from_micros(micros: u64) -> (d: Duration)
        ensures
            d.nanos == micros * 1_000,
    {
        Duration { nanos: micros as u128 * 1_000 }
    }

    /// The whole microseconds in the span.
    pub fn as_micros(self) -> (micros: u128)
        ensures
            micros == self.nanos / 1_000,
    {
        self.nanos / 1_000
    }
}

/// A point in time, counted from some fixed earlier point.
#[derive(Clone, Copy, Debug, PartialEq, Eq, PartialOrd, Ord, Structural)]
pub struct Instant {
    /// Nanoseconds since the fixed point.
    pub nanos: u128,
}

impl Instant {
    /// Whether this instant is later than another.
    pub open spec fn later_than(self, other: Instant) -> bool {
        self.nanos > other.nanos
    }

    /// Whether this instant is later than another.
    pub fn is_later_than(self, other: Instant) -> (r: bool)
        ensures
            r == self.later_than(other),
    {
        self.nanos > other.nanos
    }

    /// The instant `span` later.
    pub open spec fn spec_after(self, span: Duration) -> Instant {
        Instant { nanos: (self.nanos + span.nanos) as u128 }
    }

    /// The instant `span` later.
    pub fn after(self, span: Duration) -> (later: Instant)
        requires
            self.nanos + span.nanos <= u128::MAX,
        ensures
            later == self.spec_after(span),
    {
        Instant { nanos: self.nanos + span.nanos }
    }
}

} // verus!
