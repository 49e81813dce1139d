//! Time on a monotonic clock, in nanoseconds.

use vstd::prelude::*;

verus! {

/// A length of time.
#[derive(Debug, Clone, Copy, PartialEq, Eq, Structural)]
pub struct Duration {
    pub nanos: u128,
}

/// A reading of a monotonic clock: the time since the clock's origin.
#[derive(Debug, Clone, Copy, PartialEq, Eq, Structural)]
pub struct Instant {
    pub nanos: u128,
}

/// The nanoseconds of a second.
pub const NANOS_PER_SEC: u128 = 1_000_000_000;

impl Duration {
    pub fn from_secs(secs: u64) -> (d: Self)
        ensures
            d.nanos == secs * NANOS_PER_SEC,
    {
        Self { nanos: secs as u128 * NANOS_PER_SEC }
    }

    pub fn from_nanos(nanos: u128) -> (d: Self)
        ensures
            d.nanos == nanos,
    {
        Self { nanos }
    }
}

impl Instant {
    pub fn from_nanos(nanos: u128) -> (t: Self)
        ensures
            t.nanos == nanos,
    {
        Self { nanos }
    }

    /// The time from `earlier` to this instant, zero where `earlier` is later.
    pub fn saturating_duration_since(self, earlier: Self) -> (d: Duration)
        ensures
            d.nanos == elapsed(earlier, self),
    {
        Duration { nanos: self.nanos.saturating_sub(earlier.nanos) }
    }
}

/// The nanoseconds from `earlier` to `later`, zero where `later` is earlier.
pub open spec fn elapsed(earlier: Instant, later: Instant) -> nat {
    if later.nanos >= earlier.nanos {
        (later.nanos - earlier.nanos) as nat
    } else {
        0
    }
}

impl core::ops::Add<Duration> for Instant {
    type Output = Instant;

    fn add(self, d: Duration) -> Instant {
        Instant { nanos: self.nanos + d.nanos }
    }
}

impl vstd::std_specs::ops::AddSpecImpl<Duration> for Instant {
    open spec fn obeys_add_spec() -> bool {
        true
    }

    open spec fn add_req(self, d: Duration) -> bool {
        self.nanos + d.nanos <= u128::MAX
    }

    open spec fn add_spec(self, d: Duration) -> Instant {
        Instant { nanos: (self.nanos + d.nanos) as u128 }
    }
}

/// Time that is added has passed: an instant moved by a duration is that duration
/// after itself, and no time has passed on the way back.
pub proof fn law_added_time_has_passed(t: Instant, d: Duration)
    requires
        t.nanos + d.nanos <= u128::MAX,
    ensures
        ({
            let later = vstd::std_specs::ops::AddSpec::add_spec(t, d);
            &&& later.nanos == t.nanos + d.nanos
            &&& elapsed(t, later) == d.nanos
            &&& elapsed(later, t) == 0
        }),
{
}

} // verus!
