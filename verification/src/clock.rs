//! The wall clock, in whole seconds and in nanoseconds, and the arithmetic on its
//! readings.

use std::time::Duration;
use std::time::SystemTime;
use std::time::SystemTimeError;
use vstd::prelude::*;

verus! {

/// A reading of the system clock.
#[verifier::external_type_specification]
#[verifier::external_body]
pub struct ExSystemTime(std::time::SystemTime);

/// The error of a clock that stands before the moment it is compared with.
#[verifier::external_type_specification]
#[verifier::external_body]
pub struct ExSystemTimeError(std::time::SystemTimeError);

/// Where in time a reading lies: nanoseconds after the Unix epoch, below zero for a
/// reading before it.
pub uninterp spec fn instant_nanos(reading: SystemTime) -> int;

/// How long a span is, in nanoseconds.
pub uninterp spec fn span_nanos(span: Duration) -> nat;

/// `SystemTime::now`. Nothing is claimed of the reading: it is whatever the clock shows.
pub assume_specification[ SystemTime::now ]() -> (now: SystemTime)
;

/// `SystemTime::duration_since`: the time from `earlier` to `now`, and an error exactly
/// where `earlier` is the later of the two.
pub assume_specification[ SystemTime::duration_since ](
    now: &SystemTime,
    earlier: SystemTime,
) -> (span: Result<Duration, SystemTimeError>)
    ensures
        match span {
            Ok(d) => span_nanos(d) == instant_nanos(*now) - instant_nanos(earlier),
            Err(_) => instant_nanos(*now) < instant_nanos(earlier),
        },
;

/// `Duration::as_secs`: the whole seconds of the span.
pub assume_specification[ Duration::as_secs ](span: &Duration) -> (secs: u64)
    ensures
        secs == span_nanos(*span) / 1_000_000_000,
;

/// `Duration::as_nanos`: the nanoseconds of the span.
pub assume_specification[ Duration::as_nanos ](span: &Duration) -> (nanos: u128)
    ensures
        nanos == span_nanos(*span),
;

/// The constant `SystemTime::UNIX_EPOCH`, from which readings are counted.
#[verifier::external_body]
fn unix_epoch() -> (epoch: SystemTime)
    ensures
        instant_nanos(epoch) == 0,
{
    SystemTime::UNIX_EPOCH
}

/// `later - earlier`, and zero where the clock went back.
pub open spec fn elapsed(later: int, earlier: int) -> int {
    if later >= earlier {
        later - earlier
    } else {
        0
    }
}

/// The nanoseconds from the Unix epoch to a reading, and zero for a reading before it.
pub open spec fn unix_nanos(reading: SystemTime) -> int {
    if instant_nanos(reading) < 0 {
        0
    } else {
        instant_nanos(reading)
    }
}

/// The Unix time of a reading: the whole seconds since the epoch, and zero for a
/// reading before it.
pub open spec fn unix_time(reading: SystemTime) -> int {
    unix_nanos(reading) / 1_000_000_000
}

/// The Unix time of a reading.
pub fn unix_time_of(reading: &SystemTime) -> (secs: u64)
    ensures
        secs == unix_time(*reading),
{
    match reading.duration_since(unix_epoch()) {
        Ok(span) => span.as_secs(),
        Err(_) => 0,
    }
}

/// The nanoseconds from the Unix epoch to a reading.
pub fn unix_nanos_of(reading: &SystemTime) -> (nanos: u128)
    ensures
        nanos == unix_nanos(*reading),
{
    match reading.duration_since(unix_epoch()) {
        Ok(span) => span.as_nanos(),
        Err(_) => 0,
    }
}

/// The current Unix time in whole seconds: that of a reading of the system clock. Which
/// reading it is rests on the clock, so no clause bounds it.
pub fn now_unix() -> (secs: u64)
    ensures
        exists|reading: SystemTime| secs == #[trigger] unix_time(reading),
{
    let reading = SystemTime::now();
    unix_time_of(&reading)
}

/// The nanoseconds from the Unix epoch to a reading of the system clock.
pub fn now_nanos() -> (nanos: u128)
    ensures
        exists|reading: SystemTime| nanos == #[trigger] unix_nanos(reading),
{
    let reading = SystemTime::now();
    unix_nanos_of(&reading)
}

/// The whole seconds of a time in nanoseconds, in 64 bits.
pub open spec fn secs(nanos: u128) -> u64 {
    (nanos / 1_000_000_000) as u64
}

pub fn whole_secs(nanos: u128) -> (r: u64)
    ensures
        r == secs(nanos),
{
    (nanos / 1_000_000_000) as u64
}

} // verus!
