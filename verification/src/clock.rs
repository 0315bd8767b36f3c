//! Monotonic wall-clock readings for the search timeout.  Time is
//! nondeterministic, so nothing is assumed about the values read; the
//! search's contract holds whatever the clock says.

use vstd::prelude::*;

verus! {

#[verifier::external_type_specification]
#[verifier::external_body]
pub struct ExInstant(std::time::Instant);

/// Relies on std::time::Instant::now: a reading of the monotonic clock.
#[verifier::external_body]
pub(crate) fn clock_now() -> std::time::Instant {
    std::time::Instant::now()
}

/// Relies on std::time::Instant::elapsed: the time since `start`, converted
/// to whole milliseconds (saturating at the top of `u64`).
#[verifier::external_body]
pub(crate) fn clock_elapsed_ms(start: &std::time::Instant) -> u64 {
    u64::try_from(start.elapsed().as_millis()).unwrap_or(u64::MAX)
}

} // verus!
