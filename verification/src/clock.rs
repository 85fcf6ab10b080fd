//! The clock that timeouts are measured by.

use crate::time::{Duration, Instant};
use tokio::time::Instant as Reading;
use vstd::prelude::*;

verus! {

/// The monotonic clock reading of `tokio`.
#[verifier::external_type_specification]
#[verifier::external_body]
pub struct ExReading(Reading);

/// A clock, which counts from the moment it was made.
pub struct Clock {
    origin: Reading,
}

/// Calls `tokio::time::Instant::now`, the current reading of the monotonic clock. Nothing is
/// claimed of it: it depends on the time of the call.
#[verifier::external_body]
fn current_reading() -> (reading: Reading) {
    Reading::now()
}

/// Calls `tokio::time::Instant::elapsed`, the span of time from a reading to the present,
/// which is zero where the reading lies ahead. How long it is depends on the time of the call;
/// like every span it is no longer than the longest one.
#[verifier::external_body]
fn nanos_since(reading: &Reading) -> (nanos: u128)
    ensures
        nanos <= Duration::longest(),
{
    reading.elapsed().as_nanos()
}

/// What a clock may show: no more nanoseconds than the longest span has.
pub open spec fn may_show(now: Instant) -> bool {
    now.nanos <= Duration::longest()
}

impl Clock {
    /// Whether the clock counts from what may have been a current reading.
    pub closed spec fn started(self) -> bool {
        call_ensures(current_reading, (), self.origin)
    }

    /// A clock that starts to count at the time of the call.
    pub fn new() -> (clock: Clock)
        ensures
            clock.started(),
    {
        Clock { origin: current_reading() }
    }

    /// Whether `now` may come of a reading of this clock.
    pub closed spec fn shows(self, now: Instant) -> bool {
        call_ensures(nanos_since, (&self.origin,), now.nanos)
    }

    /// What the clock shows at the time of the call.
    pub fn now(&self) -> (now: Instant)
        ensures
            self.shows(now),
            may_show(now),
    {
        Instant { nanos: nanos_since(&self.origin) }
    }
}

/// A clock shows the nanoseconds that have passed since it was made, neither more nor fewer: what
/// it shows is, number for number, what may be measured from a reading that was current when the
/// clock was made.
proof fn law_clock_counts_nanoseconds(clock: Clock, now: Instant)
    requires
        call_ensures(Clock::new, (), clock),
        call_ensures(Clock::now, (&clock,), now),
    ensures
        call_ensures(current_reading, (), clock.origin),
        call_ensures(nanos_since, (&clock.origin,), now.nanos),
{
}

/// Whatever a clock shows has been measured from its own origin, and is no longer than a span can
/// be.
proof fn law_clock_is_read_from_its_origin(clock: Clock, now: Instant)
    requires
        call_ensures(Clock::now, (&clock,), now) || clock.shows(now),
    ensures
        call_ensures(nanos_since, (&clock.origin,), now.nanos),
        now.nanos <= u64::MAX * 1_000_000_000 + 999_999_999,
{
}

} // verus!
