//! Monotonic time from `std::time`: the only source of timing measurements in the library.
use std::time::{Duration, Instant, SystemTime, UNIX_EPOCH};
use vstd::prelude::*;

verus! {

#[verifier::external_type_specification]
#[verifier::external_body]
pub struct ExInstant(Instant);

#[verifier::external_type_specification]
#[verifier::external_body]
pub struct ExSystemTime(SystemTime);

/// The length of a duration in whole nanoseconds, as `Duration::as_nanos` returns it.
pub uninterp spec fn duration_nanos(d: Duration) -> u128;

/// Calls `std::time::Instant::now`. Nothing is claimed of the instant it returns.
#[verifier::external_body]
pub(crate) fn now() -> Instant {
    Instant::now()
}

/// Calls `Instant::elapsed`: the time since `start`. Nothing is claimed of it.
#[verifier::external_body]
pub(crate) fn elapsed(start: &Instant) -> Duration {
    start.elapsed()
}

/// Calls `std::time::SystemTime::now`. Nothing is claimed of the time it returns.
#[verifier::external_body]
pub(crate) fn system_now() -> SystemTime {
    SystemTime::now()
}

/// Calls `SystemTime::duration_since(UNIX_EPOCH)`, with a zero duration for a time before
/// the epoch. Nothing is claimed of the duration.
#[verifier::external_body]
pub(crate) fn since_unix_epoch(t: &SystemTime) -> Duration {
    t.duration_since(UNIX_EPOCH).unwrap_or_default()
}

/// Calls `Duration::as_nanos`, which depends on the duration alone.
#[verifier::external_body]
pub(crate) fn nanos(d: &Duration) -> (r: u128)
    ensures
        r == duration_nanos(*d),
{
    d.as_nanos()
}

/// Calls `Duration::as_millis` and keeps the low 64 bits, as a cast to `u64` does.
#[verifier::external_body]
pub(crate) fn millis_u64(d: &Duration) -> (r: u64)
    ensures
        r == (duration_nanos(*d) / 1_000_000) as u64,
{
    d.as_millis() as u64
}

} // verus!
