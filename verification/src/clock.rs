//! Readings of the monotonic clock, in microseconds since an origin.
use vstd::prelude::*;

verus! {

#[verifier::external_type_specification]
#[verifier::external_body]
pub struct ExInstant(std::time::Instant);

/// `std::time::Instant::now`: a reading of the monotonic clock. Nothing is
/// promised of it beyond its type.
#[verifier::external_body]
pub(crate) fn instant_now() -> std::time::Instant {
    std::time::Instant::now()
}

/// `std::time::Instant::elapsed`: the time since `origin`. It depends on
/// when it is called, so nothing is promised of it.
#[verifier::external_body]
fn elapsed_since(origin: &std::time::Instant) -> std::time::Duration {
    origin.elapsed()
}

/// `std::time::Duration::as_micros`: the whole microseconds of `d`. A
/// duration is opaque here, so nothing is stated of the number.
#[verifier::external_body]
fn whole_micros(d: &std::time::Duration) -> u128 {
    d.as_micros()
}

/// Whole microseconds since `origin`, at most `u64::MAX`.
pub(crate) fn micros_since(origin: &std::time::Instant) -> u64 {
    let m = whole_micros(&elapsed_since(origin));
    if m > u64::MAX as u128 { u64::MAX } else { m as u64 }
}

} // verus!
