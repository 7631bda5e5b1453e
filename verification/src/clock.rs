//! Monotonic timing for the measurement harness.  Nothing can be promised of
//! a clock reading, so these wrappers carry no contract: every caller must
//! hold for whatever value comes back.

use vstd::prelude::*;

verus! {

#[verifier::external_type_specification]
#[verifier::external_body]
pub struct ExInstant(std::time::Instant);

/// Relies on std::time::Instant::now: an opaque monotonic clock reading.
#[verifier::external_body]
pub fn now() -> std::time::Instant {
    std::time::Instant::now()
}

/// Relies on std::time::Instant::elapsed: microseconds since `start`.
#[verifier::external_body]
pub fn elapsed_micros(start: &std::time::Instant) -> u128 {
    start.elapsed().as_micros()
}

} // verus!
