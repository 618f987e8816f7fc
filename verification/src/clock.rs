use vstd::prelude::*;

verus! {

#[verifier::external_type_specification]
#[verifier::external_body]
pub struct ExInstant(std::time::Instant);

/// `std::time::Instant::now`: the current time of the monotonic clock. Nothing is
/// claimed of the value.
#[verifier::external_body]
pub(crate) fn instant_now() -> std::time::Instant {
    std::time::Instant::now()
}

/// `std::time::Instant::elapsed`: the time since the instant. Nothing is claimed of the
/// value, which depends on the clock.
#[verifier::external_body]
pub(crate) fn instant_elapsed(instant: &std::time::Instant) -> core::time::Duration {
    instant.elapsed()
}

/// `core::time::Duration::as_millis`: whole milliseconds of a duration. The duration is
/// opaque here, so nothing is claimed of the value.
#[verifier::external_body]
pub(crate) fn duration_as_millis(duration: &core::time::Duration) -> u128 {
    duration.as_millis()
}

} // verus!
