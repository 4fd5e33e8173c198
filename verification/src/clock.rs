//! The two clocks of a recording: a monotonic one for elapsed times, and the
//! wall clock for the date of the session.

use std::time::{Duration, Instant, SystemTime, SystemTimeError};
use vstd::prelude::*;

verus! {

/// `std::time::Instant`, carried through unread.
#[verifier::external_type_specification]
#[verifier::external_body]
pub struct ExInstant(Instant);

/// `std::time::SystemTime`, carried through unread.
#[verifier::external_type_specification]
#[verifier::external_body]
pub struct ExSystemTime(SystemTime);

/// `std::time::SystemTimeError`, carried through unread.
#[verifier::external_type_specification]
#[verifier::external_body]
pub struct ExSystemTimeError(SystemTimeError);

/// `Instant::now`: a sample of the monotonic clock. Nothing is claimed of it.
pub assume_specification[ Instant::now ]() -> Instant;

/// `Instant::elapsed`: the time since the sample was taken. Nothing is
/// claimed of it.
pub assume_specification[ Instant::elapsed ](start: &Instant) -> Duration;

/// `Duration::as_millis`: the whole milliseconds of a duration. Nothing is
/// claimed of it.
pub assume_specification[ Duration::as_millis ](duration: &Duration) -> u128;

/// `SystemTime::now`: a sample of the wall clock. Nothing is claimed of it.
pub assume_specification[ SystemTime::now ]() -> SystemTime;

/// `SystemTime::duration_since`: the time from `earlier` to the sample, or an
/// error where `earlier` is the later of the two. Nothing is claimed of it.
pub assume_specification[ SystemTime::duration_since ](
    time: &SystemTime,
    earlier: SystemTime,
) -> Result<Duration, SystemTimeError>;

/// The constant `std::time::UNIX_EPOCH`, the start of the wall clock's count.
#[verifier::external_body]
fn unix_epoch() -> SystemTime {
    std::time::UNIX_EPOCH
}

/// Milliseconds since `start` on the monotonic clock.
pub(crate) fn elapsed_millis(start: &Instant) -> u128 {
    start.elapsed().as_millis()
}

/// Milliseconds from the Unix epoch to now on the wall clock, or `None`
/// where the wall clock stands before the epoch.
pub(crate) fn unix_millis() -> Option<u128> {
    match SystemTime::now().duration_since(unix_epoch()) {
        Ok(since_epoch) => Some(since_epoch.as_millis()),
        Err(_) => None,
    }
}

} // verus!
