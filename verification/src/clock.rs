//! The monotonic clock by which token buckets refill.

use std::time::Duration;
use std::time::Instant;
use vstd::prelude::*;

verus! {

#[verifier::external_type_specification]
#[verifier::external_body]
pub struct ExInstant(Instant);

/// Calls `std::time::Instant::now`. Nothing is known of the instant.
#[verifier::external_body]
fn instant_now() -> Instant {
    Instant::now()
}

/// Calls `std::time::Instant::elapsed`: the time since `start` on the
/// monotonic clock. Nothing is known of its length.
#[verifier::external_body]
fn instant_elapsed(start: &Instant) -> Duration {
    start.elapsed()
}

/// Calls `std::time::Duration::as_micros`. A duration is opaque here, so
/// nothing is said of the number.
#[verifier::external_body]
fn duration_micros(duration: &Duration) -> u128 {
    duration.as_micros()
}

/// A clock that counts microseconds from the moment it was made.
pub struct Clock {
    start: Instant,
}

impl Clock {
    /// A clock that starts now.
    pub fn new() -> Clock {
        Clock { start: instant_now() }
    }

    /// Microseconds since the clock was made, or `u64::MAX` if there are
    /// more than fit.
    pub fn now_micros(&self) -> u64 {
        let elapsed = instant_elapsed(&self.start);
        reading(duration_micros(&elapsed))
    }
}

/// The reading for a count of microseconds: the count itself, or
/// `u64::MAX` if it does not fit.
pub open spec fn spec_reading(micros: u128) -> u64 {
    if micros > u64::MAX {
        u64::MAX
    } else {
        micros as u64
    }
}

/// Computes [`spec_reading`]: what a clock shows when `micros`
/// microseconds have passed since it was made.
pub fn reading(micros: u128) -> (shown: u64)
    ensures
        shown == spec_reading(micros),
{
    if micros > u64::MAX as u128 {
        u64::MAX
    } else {
        micros as u64
    }
}

} // verus!
