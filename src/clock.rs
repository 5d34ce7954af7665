//! The wall clock, as the search reads it.

use std::time::{Duration, Instant};
use vstd::prelude::*;

verus! {

/// `std::time::Instant`, carried through as an opaque value.
#[verifier::external_type_specification]
#[verifier::external_body]
pub struct ExInstant(std::time::Instant);

/// Relies on `std::time::Instant::now`: the current instant. Nothing is
/// promised about which instant it is.
#[verifier::external_body]
pub(crate) fn now() -> Instant {
    Instant::now()
}

/// Relies on `std::time::Instant::elapsed`: the time since `start`, in whole
/// nanoseconds. It depends on the clock, so nothing is promised about it.
#[verifier::external_body]
pub(crate) fn elapsed_nanos(start: &Instant) -> u128 {
    start.elapsed().as_nanos()
}

/// Relies on `std::time::Duration::as_nanos`: the length of `d` in whole
/// nanoseconds.
#[verifier::external_body]
pub(crate) fn duration_nanos(d: &Duration) -> u128 {
    d.as_nanos()
}

/// Relies on `std::time::Duration::from_millis`: a duration of `ms`
/// milliseconds.
#[verifier::external_body]
pub(crate) fn from_millis(ms: u64) -> Duration {
    Duration::from_millis(ms)
}

/// Whether at least `limit` has passed since `start`.
pub(crate) fn time_is_up(start: &Instant, limit: &Duration) -> bool {
    elapsed_nanos(start) >= duration_nanos(limit)
}

} // verus!
