//! The clocks of the machine.

use std::time::{Duration, Instant, SystemTime, SystemTimeError, UNIX_EPOCH};
use vstd::prelude::*;

verus! {

/// A reading of the wall clock.
#[verifier::external_type_specification]
#[verifier::external_body]
pub struct ExSystemTime(SystemTime);

/// Why two readings of the wall clock have no distance: the second is earlier.
#[verifier::external_type_specification]
#[verifier::external_body]
pub struct ExSystemTimeError(SystemTimeError);

/// A reading of the monotonic clock.
#[verifier::external_type_specification]
#[verifier::external_body]
pub struct ExInstant(Instant);

/// `SystemTime::now` reads the wall clock; nothing is claimed of the reading.
pub assume_specification[ SystemTime::now ]() -> (now: SystemTime)
;

/// `SystemTime::duration_since`, taken from the Unix epoch. The span depends on
/// the clock, so nothing is claimed of it.
#[verifier::external_body]
fn since_epoch(now: SystemTime) -> (span: Result<Duration, SystemTimeError>) {
    now.duration_since(UNIX_EPOCH)
}

/// `Duration::as_secs`, the whole seconds of a span; nothing is claimed of the
/// number, since the span comes from a clock.
pub assume_specification[ Duration::as_secs ](span: &Duration) -> (secs: u64)
;

/// `Duration::as_nanos`, the nanoseconds of a span; nothing is claimed of the
/// number, since the span comes from a clock.
pub assume_specification[ Duration::as_nanos ](span: &Duration) -> (nanos: u128)
;

/// `Instant::now` reads the monotonic clock; nothing is claimed of the reading.
pub assume_specification[ Instant::now ]() -> (now: Instant)
;

/// `Instant::elapsed`, the time since an earlier reading; nothing is claimed of
/// the span.
pub assume_specification[ Instant::elapsed ](start: &Instant) -> (span: Duration)
;

/// The seconds since the epoch, or zero for a clock that stands before it.
pub fn seconds_or_zero(since_epoch: Option<u64>) -> (secs: u64)
    ensures
        since_epoch matches Some(s) ==> secs == s,
        since_epoch is None ==> secs == 0,
{
    match since_epoch {
        Some(s) => s,
        None => 0,
    }
}

/// The wall clock in whole seconds since the Unix epoch, zero before it. The
/// value is whatever the machine's clock says.
pub fn now_secs() -> (secs: u64) {
    let span = match since_epoch(SystemTime::now()) {
        Ok(d) => Some(d.as_secs()),
        Err(_) => None,
    };
    seconds_or_zero(span)
}

/// The nanoseconds that the monotonic clock has run since `start`.
pub fn nanos_since(start: &Instant) -> (nanos: u128) {
    start.elapsed().as_nanos()
}

} // verus!
