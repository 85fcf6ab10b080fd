//! Points in time and spans of time, as whole numbers of nanoseconds.

use vstd::prelude::*;

verus! {

/// Nanoseconds in one second.
pub const NANOS_PER_SEC: u32 = 1_000_000_000;

/// Nanoseconds in one millisecond.
pub const NANOS_PER_MILLI: u32 = 1_000_000;

/// A span of time: whole seconds, and the nanoseconds beyond them.
///
/// The view of a span is its length in nanoseconds.
#[derive(Clone, Copy, Debug, PartialEq, Eq, Structural)]
pub struct Duration {
    secs: u64,
    nanos: u32,
}

impl View for Duration {
    type V = nat;

    closed spec fn view(&self) -> nat {
        (self.secs * NANOS_PER_SEC + self.nanos) as nat
    }
}

impl Duration {
    /// The nanoseconds never amount to a second of their own.
    #[verifier::type_invariant]
    pub closed spec fn well_formed(self) -> bool {
        self.nanos < NANOS_PER_SEC
    }

    /// The length of the longest span, in nanoseconds.
    pub open spec fn longest() -> nat {
        (u64::MAX * NANOS_PER_SEC + (NANOS_PER_SEC - 1)) as nat
    }

    /// No span is longer than the longest one.
    pub proof fn lemma_longest(self)
        requires
            self.well_formed(),
        ensures
            self@ <= Duration::longest(),
    {
    }

    /// The span of `secs` seconds and `nanos` nanoseconds.
    pub fn new(secs: u64, nanos: u32) -> (duration: Duration)
        requires
            nanos < NANOS_PER_SEC,
        ensures
            duration@ == secs * NANOS_PER_SEC + nanos,
    {
        Duration { secs, nanos }
    }

    /// The span of `secs` seconds.
    pub fn from_secs(secs: u64) -> (duration: Duration)
        ensures
            duration@ == secs * NANOS_PER_SEC,
    {
        Duration { secs, nanos: 0 }
    }

    /// The span of `millis` milliseconds.
    pub fn from_millis(millis: u64) -> (duration: Duration)
        ensures
            duration@ == millis * NANOS_PER_MILLI,
    {
        let nanos: u32 = (millis % 1000) as u32 * NANOS_PER_MILLI;
        Duration { secs: millis / 1000, nanos }
    }

    /// Whether the span is empty.
    pub fn is_zero(&self) -> (zero: bool)
        ensures
            zero == (self@ == 0),
    {
        self.secs == 0 && self.nanos == 0
    }

    /// The whole seconds of the span.
    pub fn as_secs(&self) -> (secs: u64)
        ensures
            secs == self@ / NANOS_PER_SEC as nat,
    {
        proof {
            use_type_invariant(self);
        }
        self.secs
    }

    /// The whole milliseconds of the span beyond its whole seconds.
    pub fn subsec_millis(&self) -> (millis: u32)
        ensures
            millis == self@ % (NANOS_PER_SEC as nat) / NANOS_PER_MILLI as nat,
    {
        proof {
            use_type_invariant(self);
        }
        self.nanos / NANOS_PER_MILLI
    }

    /// The length of the span in nanoseconds.
    pub fn as_nanos(&self) -> (nanos: u128)
        ensures
            nanos == self@,
    {
        proof {
            use_type_invariant(self);
            self.lemma_longest();
        }
        self.secs as u128 * NANOS_PER_SEC as u128 + self.nanos as u128
    }
}

/// A point in time, counted in nanoseconds from the origin of a clock.
#[derive(Clone, Copy, Debug, PartialEq, Eq, Structural)]
pub struct Instant {
    pub nanos: u128,
}

impl Instant {
    /// The point in time `duration` after this one.
    pub fn plus(self, duration: Duration) -> (later: Instant)
        requires
            self.nanos + duration@ <= u128::MAX,
        ensures
            later.nanos == self.nanos + duration@,
    {
        Instant { nanos: self.nanos + duration.as_nanos() }
    }
}

} // verus!
