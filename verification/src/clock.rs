//! Where the time comes from.
use std::time::{Duration, SystemTime, SystemTimeError, UNIX_EPOCH};
use vstd::prelude::*;

verus! {

/// A reading of the system's clock.
#[verifier::external_type_specification]
#[verifier::external_body]
pub struct ExSystemTime(SystemTime);

/// How far a reading lies before the one it was measured from.
#[verifier::external_type_specification]
#[verifier::external_body]
pub struct ExSystemTimeError(SystemTimeError);

/// `SystemTime::now`: nothing is said of what the clock shows.
#[verifier::external_body]
fn system_time() -> SystemTime {
    SystemTime::now()
}

/// `SystemTime::duration_since`, measured from `UNIX_EPOCH`: nothing is said
/// of how far from it a reading lies, nor on which side.
#[verifier::external_body]
fn since_epoch(reading: SystemTime) -> Result<Duration, SystemTimeError> {
    reading.duration_since(UNIX_EPOCH)
}

/// `Duration::as_secs`: nothing is said of how long a duration is.
pub assume_specification[ Duration::as_secs ](duration: &Duration) -> u64;

/// The time when the clock lies `since` seconds after the Unix epoch, kept to
/// what a signed time holds, and zero when it lies before it.
pub open spec fn counted(since: Option<u64>) -> int {
    match since {
        Some(since) => if since <= i64::MAX {
            since as int
        } else {
            i64::MAX as int
        },
        None => 0,
    }
}

/// The system's clock may have been read, and its reading measured from the
/// Unix epoch, with `since` as the outcome: whole seconds after the epoch, or
/// that it lies before it.
pub closed spec fn is_measured(since: Option<u64>) -> bool {
    exists|reading: SystemTime, measured: Result<Duration, SystemTimeError>|
        {
            &&& #[trigger] call_ensures(system_time, (), reading)
            &&& #[trigger] call_ensures(since_epoch, (reading,), measured)
            &&& match (measured, since) {
                (Ok(duration), Some(seconds)) => call_ensures(
                    Duration::as_secs,
                    (&duration,),
                    seconds,
                ),
                (Err(_), None) => true,
                _ => false,
            }
        }
}

/// What is measured is what the clock's reading is measured to be, to the
/// second.
proof fn law_a_measurement_is_a_readings(since: Option<u64>)
    ensures
        since matches Some(seconds) ==> (is_measured(since) <==> exists|
            reading: SystemTime,
            duration: Duration,
        |
            {
                &&& call_ensures(system_time, (), reading)
                &&& #[trigger] call_ensures(
                    since_epoch,
                    (reading,),
                    Ok::<Duration, SystemTimeError>(duration),
                )
                &&& call_ensures(Duration::as_secs, (&duration,), seconds)
            }),
        since is None ==> (is_measured(since) <==> exists|
            reading: SystemTime,
            error: SystemTimeError,
        |
            {
                &&& call_ensures(system_time, (), reading)
                &&& #[trigger] call_ensures(
                    since_epoch,
                    (reading,),
                    Err::<Duration, SystemTimeError>(error),
                )
            }),
{
    if is_measured(since) {
        let (reading, measured) = choose|
            reading: SystemTime,
            measured: Result<Duration, SystemTimeError>,
        |
            {
                &&& #[trigger] call_ensures(system_time, (), reading)
                &&& #[trigger] call_ensures(since_epoch, (reading,), measured)
                &&& match (measured, since) {
                    (Ok(duration), Some(seconds)) => call_ensures(
                        Duration::as_secs,
                        (&duration,),
                        seconds,
                    ),
                    (Err(_), None) => true,
                    _ => false,
                }
            };
        match measured {
            Ok(duration) => {
                assert(call_ensures(
                    since_epoch,
                    (reading,),
                    Ok::<Duration, SystemTimeError>(duration),
                ));
            },
            Err(error) => {
                assert(call_ensures(
                    since_epoch,
                    (reading,),
                    Err::<Duration, SystemTimeError>(error),
                ));
            },
        }
    }
}

/// `seconds` is a time the system's clock may show.
pub open spec fn is_system_time(seconds: i64) -> bool {
    exists|since: Option<u64>| #[trigger] is_measured(since) && seconds == counted(since)
}

/// No time the system's clock shows is before the epoch.
pub proof fn law_the_system_clock_is_never_before_the_epoch(seconds: i64)
    ensures
        is_system_time(seconds) ==> 0 <= seconds,
{
}

/// What the time is when the clock lies `since` seconds after the Unix epoch,
/// kept to what a signed time holds, and zero when it lies before it.
pub fn seconds_after_epoch(since: Option<u64>) -> (seconds: i64)
    ensures
        seconds == counted(since),
        since matches Some(since) ==> (since <= i64::MAX ==> seconds == since),
        since matches Some(since) ==> (since > i64::MAX ==> seconds == i64::MAX),
        since is None ==> seconds == 0,
{
    match since {
        Some(since) => if since <= i64::MAX as u64 {
            since as i64
        } else {
            i64::MAX
        },
        None => 0,
    }
}

/// How far the system's clock lies after the Unix epoch, in whole seconds,
/// where it does not lie before it.
fn measure() -> (since: Option<u64>)
    ensures
        is_measured(since),
{
    match since_epoch(system_time()) {
        Ok(duration) => Some(duration.as_secs()),
        Err(_) => None,
    }
}

/// Seconds since the Unix epoch, now; zero where the clock is before it.
#[must_use]
pub fn now() -> (seconds: i64)
    ensures
        is_system_time(seconds),
        0 <= seconds,
{
    seconds_after_epoch(measure())
}

/// A source of the time, in seconds since the Unix epoch.
pub trait Clock: Send + Sync {
    /// The clock can be read.
    spec fn ready(&self) -> bool;

    /// `seconds` is a time the clock may show.
    spec fn shows(&self, seconds: i64) -> bool;

    /// The time.
    fn read(&self) -> (seconds: i64)
        requires
            self.ready(),
        ensures
            self.shows(seconds),
    ;
}

/// The system's clock.
pub struct SystemClock;

impl Clock for SystemClock {
    open spec fn ready(&self) -> bool {
        true
    }

    open spec fn shows(&self, seconds: i64) -> bool {
        is_system_time(seconds)
    }

    fn read(&self) -> (seconds: i64) {
        now()
    }
}

/// A clock that is whatever a function answers.
pub struct FnClock<F>(pub F);

impl<F: Fn() -> i64 + Send + Sync> Clock for FnClock<F> {
    open spec fn ready(&self) -> bool {
        call_requires(self.0, ())
    }

    open spec fn shows(&self, seconds: i64) -> bool {
        call_ensures(self.0, (), seconds)
    }

    fn read(&self) -> (seconds: i64) {
        (self.0)()
    }
}

} // verus!
