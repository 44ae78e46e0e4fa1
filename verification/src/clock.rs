//! The clock a store reads its instants from.

use vstd::prelude::*;
use std::time::{Duration, Instant};

verus! {

/// `std::time::Instant`, a reading of the monotonic clock. Nothing inside it
/// is visible to a proof.
#[verifier::external_type_specification]
#[verifier::external_body]
pub struct ExInstant(Instant);

/// `Instant::now` reads the monotonic clock. Nothing is claimed of the reading.
pub assume_specification[ Instant::now ]() -> (reading: Instant)
;

/// `Instant::saturating_duration_since` measures the time from `earlier` to
/// `later`. Nothing is claimed of the measure.
pub assume_specification[ Instant::saturating_duration_since ](
    later: &Instant,
    earlier: Instant,
) -> (elapsed: Duration)
;

/// `Duration::as_secs` gives the whole seconds of a duration. Nothing is
/// claimed of their number.
pub assume_specification[ Duration::as_secs ](duration: &Duration) -> (seconds: u64)
;

/// A stopwatch: instants are whole seconds since it was started.
#[derive(Clone, Copy, Debug)]
pub struct Clock {
    origin: Instant,
}

impl Clock {
    /// A clock that starts counting now.
    pub fn start() -> (clock: Clock) {
        Clock { origin: Instant::now() }
    }

    /// The whole seconds gone by since the clock was started.
    pub fn seconds(&self) -> (now: u64) {
        Instant::now().saturating_duration_since(self.origin).as_secs()
    }
}

} // verus!
