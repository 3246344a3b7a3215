//! Wall-clock measurement of how long a match took.

use vstd::prelude::*;

verus! {

/// std's monotonic clock reading.
#[verifier::external_type_specification]
#[verifier::external_body]
pub struct ExInstant(std::time::Instant);

/// Reads the monotonic clock (`std::time::Instant::now`); nothing is promised of the reading.
#[verifier::external_body]
pub(crate) fn clock_now() -> std::time::Instant {
    std::time::Instant::now()
}

/// Time passed since `start` (`std::time::Instant::elapsed`); it depends on the clock, so nothing is promised.
#[verifier::external_body]
pub(crate) fn elapsed_since(start: &std::time::Instant) -> std::time::Duration {
    start.elapsed()
}

/// Whole microseconds of a span (`std::time::Duration::as_micros`), truncated to 64 bits.
#[verifier::external_body]
pub(crate) fn duration_micros(d: std::time::Duration) -> u64 {
    d.as_micros() as u64
}

/// Microseconds passed since `start`.
pub(crate) fn micros_since(start: &std::time::Instant) -> u64 {
    duration_micros(elapsed_since(start))
}

} // verus!
