use std::time::Instant;
use vstd::prelude::*;

verus! {

/// A point on the process's monotonic clock.
#[verifier::external_type_specification]
#[verifier::external_body]
pub struct ExInstant(Instant);

/// Relies on `std::time::Instant::now`: a reading of the monotonic clock.
#[verifier::external_body]
pub(crate) fn clock_now() -> Instant {
    Instant::now()
}

/// Relies on `std::time::Instant::elapsed`: the whole milliseconds that went by
/// since `start`.  The reading depends on the clock, so nothing is promised of it.
#[verifier::external_body]
pub(crate) fn elapsed_millis(start: &Instant) -> u64 {
    start.elapsed().as_millis() as u64
}

} // verus!
