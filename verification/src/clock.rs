//! Spans of time and the clocks that the library reads.

use std::time::{Instant, SystemTime};
use vstd::prelude::*;

verus! {

pub const NANOS_PER_SECOND: u32 = 1_000_000_000;

/// A span of time: whole seconds and nanoseconds below a second.
#[derive(Debug, Clone, Copy, PartialEq, Eq)]
pub struct Duration {
    secs: u64,
    nanos: u32,
}

impl View for Duration {
    type V = nat;

    /// The span in nanoseconds.
    closed spec fn view(&self) -> nat {
        self.secs as nat * 1_000_000_000 + self.nanos as nat
    }
}

impl Duration {
    #[verifier::type_invariant]
    spec fn wf(self) -> bool {
        self.nanos < NANOS_PER_SECOND
    }

    pub fn from_secs(secs: u64) -> (r: Self)
        ensures
            r@ == secs as nat * 1_000_000_000,
    {
        Duration { secs, nanos: 0 }
    }

    pub fn from_millis(millis: u64) -> (r: Self)
        ensures
            r@ == millis as nat * 1_000_000,
    {
        Duration { secs: millis / 1000, nanos: ((millis % 1000) as u32) * 1_000_000 }
    }

    pub fn from_nanos(nanos: u64) -> (r: Self)
        ensures
            r@ == nanos as nat,
    {
        Duration { secs: nanos / 1_000_000_000, nanos: (nanos % 1_000_000_000) as u32 }
    }

    /// The span in whole seconds.
    pub fn as_secs(&self) -> (r: u64)
        ensures
            r == self@ / 1_000_000_000,
    {
        proof {
            use_type_invariant(self);
        }
        self.secs
    }

    /// The span in nanoseconds.
    pub fn as_nanos(&self) -> (r: u128)
        ensures
            r == self@,
            r <= u64::MAX * 1_000_000_000 + 999_999_999,
    {
        proof {
            use_type_invariant(self);
        }
        self.secs as u128 * 1_000_000_000 + self.nanos as u128
    }

    /// The span from an earlier point to this one, both counted from the same
    /// start; none where that point is later.
    pub fn since(&self, earlier: &Duration) -> (r: Duration)
        ensures
            r@ == (if self@ >= earlier@ {
                (self@ - earlier@) as nat
            } else {
                0
            }),
    {
        let here = self.as_nanos();
        let there = earlier.as_nanos();
        if here < there {
            return Duration { secs: 0, nanos: 0 };
        }
        let span = here - there;
        let secs = span / 1_000_000_000;
        let nanos = span % 1_000_000_000;
        Duration { secs: secs as u64, nanos: nanos as u32 }
    }

    /// The span is longer than the other.
    pub fn exceeds(&self, other: &Duration) -> (r: bool)
        ensures
            r == (self@ > other@),
    {
        self.as_nanos() > other.as_nanos()
    }
}

#[verifier::external_type_specification]
#[verifier::external_body]
pub struct ExInstant(Instant);

#[verifier::external_type_specification]
#[verifier::external_body]
pub struct ExSystemTime(SystemTime);

/// Calls `Instant::now`; what the clock shows is not known.
#[verifier::external_body]
pub(crate) fn instant_now() -> Instant {
    Instant::now()
}

/// Calls `Instant::elapsed` and takes the whole seconds; how long ago the
/// instant was is not known.
#[verifier::external_body]
pub(crate) fn seconds_since(start: &Instant) -> u64 {
    start.elapsed().as_secs()
}

/// Calls `Instant::elapsed`; how long ago the instant was is not known.
#[verifier::external_body]
pub(crate) fn age_of(start: &Instant) -> Duration {
    let elapsed = start.elapsed();
    Duration { secs: elapsed.as_secs(), nanos: elapsed.subsec_nanos() }
}

/// Calls `SystemTime::now`; what the clock shows is not known.
#[verifier::external_body]
pub(crate) fn system_time_now() -> SystemTime {
    SystemTime::now()
}

/// Calls `SystemTime::duration_since` with the start of 1970 and takes the
/// whole seconds, zero for a time before it; the time itself is not known.
#[verifier::external_body]
pub(crate) fn unix_seconds(time: &SystemTime) -> u64 {
    time.duration_since(SystemTime::UNIX_EPOCH).unwrap_or_default().as_secs()
}

} // verus!
