//! Spans of time and readings of a clock.

use vstd::prelude::*;

verus! {

/// Nanoseconds in a second.
pub const NANOS_PER_SEC: u32 = 1_000_000_000;

/// A span of time, to the nanosecond.
#[derive(Clone, Copy, Debug, PartialEq, Eq, Structural)]
pub struct Duration {
    secs: u64,
    nanos: u32,
}

impl DeepView for Duration {
    type V = nat;

    open spec fn deep_view(&self) -> nat {
        self.total()
    }
}

impl Duration {
    /// The nanoseconds are less than a second.
    #[verifier::type_invariant]
    spec fn normal(self) -> bool {
        self.nanos < NANOS_PER_SEC
    }

    /// The span in nanoseconds.
    pub closed spec fn total(&self) -> nat {
        self.secs as nat * 1_000_000_000 + self.nanos as nat
    }

    /// A span of seconds and nanoseconds. Nanoseconds of a second or more count as
    /// seconds.
    pub fn new(secs: u64, nanos: u32) -> (d: Duration)
        requires
            secs + nanos / NANOS_PER_SEC <= u64::MAX,
        ensures
            d.total() == secs * 1_000_000_000 + nanos,
    {
        Duration { secs: secs + (nanos / NANOS_PER_SEC) as u64, nanos: nanos % NANOS_PER_SEC }
    }

    /// A span of whole seconds.
    pub fn from_secs(secs: u64) -> (d: Duration)
        ensures
            d.total() == secs * 1_000_000_000,
    {
        Duration { secs, nanos: 0 }
    }

    /// A span of whole milliseconds.
    pub fn from_millis(millis: u64) -> (d: Duration)
        ensures
            d.total() == millis * 1_000_000,
    {
        Duration { secs: millis / 1000, nanos: (millis % 1000) as u32 * 1_000_000 }
    }

    /// The whole seconds of the span.
    pub fn as_secs(&self) -> (r: u64)
        ensures
            r == self.total() / 1_000_000_000,
    {
        proof {
            use_type_invariant(self);
        }
        self.secs
    }

    /// The span in nanoseconds.
    pub fn as_nanos(&self) -> (r: u128)
        ensures
            r == self.total(),
    {
        self.secs as u128 * 1_000_000_000 + self.nanos as u128
    }

    /// The whole microseconds of the span.
    pub fn as_micros(&self) -> (r: u128)
        ensures
            r == self.total() / 1000,
    {
        self.as_nanos() / 1000
    }

    /// The whole milliseconds of the span.
    pub fn as_millis(&self) -> (r: u128)
        ensures
            r == self.total() / 1_000_000,
    {
        self.as_nanos() / 1_000_000
    }

    /// Tells whether the span is empty.
    pub fn is_zero(&self) -> (r: bool)
        ensures
            r == (self.total() == 0),
    {
        self.secs == 0 && self.nanos == 0
    }
}

/// A reading of a clock that never goes back, in nanoseconds from its start.
#[derive(Clone, Copy, Debug, PartialEq, Eq, Structural)]
pub struct Instant {
    pub nanos: u128,
}

impl Instant {
    /// The nanoseconds from `earlier` to `self`; none where `earlier` is later.
    pub open spec fn after(&self, earlier: Instant) -> nat {
        if self.nanos >= earlier.nanos {
            (self.nanos - earlier.nanos) as nat
        } else {
            0
        }
    }

    /// The nanoseconds from `earlier` to `self`; none where `earlier` is later.
    pub fn nanos_since(&self, earlier: Instant) -> (r: u128)
        ensures
            r == self.after(earlier),
    {
        if self.nanos >= earlier.nanos {
            self.nanos - earlier.nanos
        } else {
            0
        }
    }
}

/// A point in time on the clock on the wall, from the start of 1970. Earlier points
/// count as that start.
#[derive(Clone, Copy, Debug, PartialEq, Eq, Structural)]
pub struct SystemTime {
    pub secs: u64,
    pub nanos: u32,
}

impl DeepView for SystemTime {
    type V = SystemTime;

    open spec fn deep_view(&self) -> SystemTime {
        *self
    }
}

impl SystemTime {
    /// Tells whether the point is not later than another.
    pub open spec fn up_to(&self, other: SystemTime) -> bool {
        self.secs < other.secs || (self.secs == other.secs && self.nanos <= other.nanos)
    }

    /// Tells whether the point is not later than another.
    pub fn is_up_to(&self, other: SystemTime) -> (r: bool)
        ensures
            r == self.up_to(other),
    {
        self.secs < other.secs || (self.secs == other.secs && self.nanos <= other.nanos)
    }
}

/// Of two points in time one is not later than the other, and each is not later than itself;
/// both are so of each other only where they are the same.
pub proof fn lemma_points_in_order(a: SystemTime, b: SystemTime, c: SystemTime)
    ensures
        a.up_to(a),
        a.up_to(b) || b.up_to(a),
        a.up_to(b) && b.up_to(a) ==> a == b,
        a.up_to(b) && b.up_to(c) ==> a.up_to(c),
        a.secs < b.secs ==> a.up_to(b) && !b.up_to(a),
{
}

/// The time from one reading of a clock to a later one is their difference, and none to an
/// earlier one.
pub proof fn lemma_time_between(a: Instant, b: Instant)
    ensures
        a.nanos <= b.nanos ==> b.after(a) == b.nanos - a.nanos && a.after(b) == 0,
{
}

} // verus!
