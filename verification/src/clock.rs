//! The clock by which stored values expire.

use vstd::prelude::*;

verus! {

/// `std::time::Instant`, a reading of the monotonic clock. Nothing is
/// known of what a value of it holds.
#[verifier::external_type_specification]
#[verifier::external_body]
pub struct ExInstant(std::time::Instant);

/// `Instant::now` reads the monotonic clock. Nothing is claimed of the
/// reading.
pub assume_specification[ std::time::Instant::now ]() -> (r: std::time::Instant);

/// `Instant::elapsed` gives the time that has passed since the instant
/// was read. Nothing is claimed of it.
pub assume_specification[ std::time::Instant::elapsed ](instant: &std::time::Instant) -> (r:
    std::time::Duration);

/// `Duration::as_nanos` gives the whole nanoseconds of a duration.
/// Nothing is claimed of their number.
pub assume_specification[ std::time::Duration::as_nanos ](duration: &std::time::Duration) -> (r:
    u128);

/// A clock that counts nanoseconds from the moment it was started.
///
/// Nothing is known beforehand of what the clock reads. What is served
/// at a reading is stated for every reading.
#[derive(Debug, Clone, Copy)]
pub struct Clock {
    origin: std::time::Instant,
}

impl Clock {
    /// Starts a clock.
    pub fn start() -> Clock {
        Clock { origin: std::time::Instant::now() }
    }

    /// Nanoseconds since the clock was started.
    pub fn now(&self) -> u128 {
        self.origin.elapsed().as_nanos()
    }
}

} // verus!
