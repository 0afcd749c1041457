//! The system's clocks.

use std::time::Instant;
use vstd::prelude::*;

verus! {

/// A reading of the clock that never goes back. Nothing is known of what it holds.
#[verifier::external_type_specification]
#[verifier::external_body]
pub struct ExInstant(std::time::Instant);

/// `std::time::Instant::now`. Nothing is stated of the result, which is the time.
#[verifier::external_body]
pub(crate) fn instant_now() -> (now: Instant) {
    Instant::now()
}

/// Whether a reading of the clock gave `nanos` as the nanoseconds since `start`. Several
/// readings give several such numbers.
pub uninterp spec fn has_passed(start: Instant, nanos: u128) -> bool;

/// `std::time::Instant::elapsed`, in nanoseconds. It is stated only that the result is a
/// reading of the clock from `start` on; which one depends on the time.
#[verifier::external_body]
pub(crate) fn nanos_since(start: &Instant) -> (nanos: u128)
    ensures
        has_passed(*start, nanos),
{
    start.elapsed().as_nanos()
}

/// Whether a reading of the system's clock gave `seconds` as the seconds since the Unix epoch.
/// Several readings give several such numbers.
pub uninterp spec fn is_epoch_reading(seconds: Option<u64>) -> bool;

/// `std::time::SystemTime::elapsed` of the Unix epoch, in whole seconds; nothing where the
/// system's clock stands before the epoch. It is stated only that the result is a reading of
/// the clock; which one depends on the time.
#[verifier::external_body]
pub(crate) fn seconds_since_epoch() -> (seconds: Option<u64>)
    ensures
        is_epoch_reading(seconds),
{
    std::time::UNIX_EPOCH.elapsed().ok().map(|since| since.as_secs())
}

/// The Unix timestamp for a reading of the system's clock: the seconds since the epoch, or
/// zero for a clock that stands before it.
pub open spec fn timestamp_of(seconds: Option<u64>) -> i64 {
    match seconds {
        Some(s) => s as i64,
        None => 0,
    }
}

/// The Unix timestamp for a reading of the system's clock.
pub fn unix_timestamp(seconds: Option<u64>) -> (timestamp: i64)
    ensures
        timestamp == timestamp_of(seconds),
{
    match seconds {
        Some(s) => s as i64,
        None => 0,
    }
}

} // verus!
