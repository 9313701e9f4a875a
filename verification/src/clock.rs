use std::time::{Duration, Instant};

use vstd::prelude::*;

verus! {

/// `std::time::Instant`, a reading of the monotonic clock; nothing inside it
/// is visible to proofs.
#[verifier::external_type_specification]
#[verifier::external_body]
pub struct ExInstant(Instant);

/// The `Duration` that `Duration::from_nanos` makes of `nanos` nanoseconds.
pub uninterp spec fn duration_of_nanos(nanos: u64) -> Duration;

/// `Instant::now`: the current reading of the monotonic clock. Nothing is
/// stated of it, since it depends on the time at which it is called.
#[verifier::external_body]
pub(crate) fn instant_now() -> Instant {
    Instant::now()
}

/// `Instant::elapsed`: the time from `origin` to now. Nothing is stated of
/// it, since it depends on the time at which it is called.
#[verifier::external_body]
pub(crate) fn instant_elapsed(origin: &Instant) -> Duration {
    origin.elapsed()
}

/// `Duration::as_nanos`: the whole nanoseconds in `d`. Nothing is stated:
/// a `Duration` has no view here over which its value could be named, and
/// the only durations read this way are clock readings.
#[verifier::external_body]
pub(crate) fn duration_as_nanos(d: &Duration) -> u128 {
    d.as_nanos()
}

/// `Duration::from_nanos`: the duration of `nanos` nanoseconds, which is a
/// function of `nanos` alone.
#[verifier::external_body]
pub(crate) fn duration_from_nanos(nanos: u64) -> (d: Duration)
    ensures
        d == duration_of_nanos(nanos),
{
    Duration::from_nanos(nanos)
}

} // verus!
