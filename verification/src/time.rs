//! Points in time and spans of time on the library's clock, in nanoseconds.

use std::time::Duration as StdDuration;
use std::time::{SystemTime, SystemTimeError, UNIX_EPOCH};
use vstd::prelude::*;

verus! {

/// Nanoseconds in one second.
pub const NANOS_PER_SEC: u128 = 1_000_000_000;

/// The latest instant that the clock holds, as `std::time::Instant` does: `i64::MAX` seconds and
/// 999_999_999 nanoseconds after its origin.
pub const MAX_INSTANT_NANOS: u128 = 9_223_372_036_854_775_807_999_999_999;

/// The longest span, as `std::time::Duration::MAX`: `u64::MAX` seconds and 999_999_999
/// nanoseconds.
pub const MAX_DURATION_NANOS: u128 = 18_446_744_073_709_551_615_999_999_999;

/// A point in time, counted in nanoseconds since the clock's origin.
#[derive(Clone, Copy, Debug, PartialEq, Eq, Hash, PartialOrd, Ord, Structural)]
pub struct Instant {
    pub nanos: u128,
}

/// A span of time, counted in nanoseconds.
#[derive(Clone, Copy, Debug, PartialEq, Eq, Hash, PartialOrd, Ord, Structural)]
pub struct Duration {
    pub nanos: u128,
}

/// Whole seconds in `nanos`, rounded up.
pub open spec fn ceil_secs(nanos: nat) -> nat {
    if nanos % (NANOS_PER_SEC as nat) == 0 {
        nanos / (NANOS_PER_SEC as nat)
    } else {
        nanos / (NANOS_PER_SEC as nat) + 1
    }
}

/// The instant `secs` seconds after `start`, if it lies within the clock's range.
pub open spec fn spec_add_secs(start: Instant, secs: u64) -> Option<Instant> {
    let total = start.nanos + secs * NANOS_PER_SEC;
    if total <= MAX_INSTANT_NANOS {
        Some(Instant { nanos: total as u128 })
    } else {
        None
    }
}

impl Duration {
    /// A span of zero length.
    pub fn zero() -> (r: Duration)
        ensures
            r.nanos == 0,
    {
        Duration { nanos: 0 }
    }

    /// The longest span, `u64::MAX` seconds and 999_999_999 nanoseconds.
    pub fn longest() -> (r: Duration)
        ensures
            r.nanos == MAX_DURATION_NANOS,
    {
        Duration { nanos: MAX_DURATION_NANOS }
    }

    /// A span of `nanos` nanoseconds.
    pub fn from_nanos(nanos: u128) -> (r: Duration)
        ensures
            r.nanos == nanos,
    {
        Duration { nanos }
    }

    /// A span of `secs` seconds.
    pub fn from_secs(secs: u64) -> (r: Duration)
        ensures
            r.nanos == secs * NANOS_PER_SEC,
    {
        assert(secs * NANOS_PER_SEC <= u64::MAX * NANOS_PER_SEC) by (nonlinear_arith)
            requires
                secs <= u64::MAX,
        ;
        Duration { nanos: secs as u128 * NANOS_PER_SEC }
    }

    /// Whole seconds in this span, rounded down, held to `u64::MAX` (which no span up to the
    /// longest one exceeds).
    pub fn as_secs(&self) -> (r: u64)
        ensures
            r == clamp((self.nanos / NANOS_PER_SEC) as int, 0, u64::MAX as int),
    {
        let secs = self.nanos / NANOS_PER_SEC;
        if secs > u64::MAX as u128 {
            u64::MAX
        } else {
            secs as u64
        }
    }

    /// The part of this span below one second, in nanoseconds.
    pub fn subsec_nanos(&self) -> (r: u32)
        ensures
            r == self.nanos % NANOS_PER_SEC,
    {
        (self.nanos % NANOS_PER_SEC) as u32
    }
}

impl Instant {
    /// The instant `nanos` nanoseconds after the clock's origin.
    pub fn from_nanos(nanos: u128) -> (r: Instant)
        ensures
            r.nanos == nanos,
    {
        Instant { nanos }
    }

    /// The instant `d` after this one, or `None` if it lies beyond the clock's range.
    pub fn checked_add(self, d: Duration) -> (r: Option<Instant>)
        ensures
            self.nanos + d.nanos <= MAX_INSTANT_NANOS ==> r == Some(Instant { nanos: (self.nanos + d.nanos) as u128 }),
            self.nanos + d.nanos > MAX_INSTANT_NANOS ==> r is None,
    {
        match self.nanos.checked_add(d.nanos) {
            Some(nanos) => if nanos <= MAX_INSTANT_NANOS {
                Some(Instant { nanos })
            } else {
                None
            },
            None => None,
        }
    }

    /// The instant `secs` seconds after this one, or `None` if it lies beyond the clock's range.
    pub fn checked_add_secs(self, secs: u64) -> (r: Option<Instant>)
        ensures
            r == spec_add_secs(self, secs),
    {
        self.checked_add(Duration::from_secs(secs))
    }

    /// The instant that a reading of the system clock stands for: its offset from the Unix epoch
    /// in nanoseconds, held to the clock's range (a reading before the epoch gives the origin, one
    /// beyond the range its last instant).
    pub fn from_reading(reading: ClockReading) -> (r: Instant)
        ensures
            r.nanos == clamp(reading_offset(reading), 0, MAX_INSTANT_NANOS as int),
    {
        if reading.before_epoch {
            Instant { nanos: 0 }
        } else {
            let n = total_nanos(reading.secs, reading.subsec_nanos);
            if n > MAX_INSTANT_NANOS {
                Instant { nanos: MAX_INSTANT_NANOS }
            } else {
                Instant { nanos: n }
            }
        }
    }

    /// The current time on the library's clock, read from the system clock.
    ///
    /// Two calls may give any two values: only that the result lies within the clock's range is
    /// promised.
    pub fn now() -> (r: Instant)
        ensures
            r.nanos <= MAX_INSTANT_NANOS,
    {
        Instant::from_reading(read_system_clock())
    }
}

/// `x` held to the range from `lo` to `hi`.
pub open spec fn clamp(x: int, lo: int, hi: int) -> int {
    if x < lo {
        lo
    } else if x > hi {
        hi
    } else {
        x
    }
}

/// A reading of the system clock: its distance from the Unix epoch, in whole seconds and the
/// nanoseconds below one second, and whether it lies before the epoch.
#[derive(Clone, Copy, Debug, PartialEq, Eq, Structural)]
pub struct ClockReading {
    /// Whether the reading lies before the epoch.
    pub before_epoch: bool,
    /// Whole seconds between the reading and the epoch.
    pub secs: u64,
    /// Nanoseconds below one second between the reading and the epoch.
    pub subsec_nanos: u32,
}

/// The distance of a reading from the epoch, in nanoseconds.
pub open spec fn reading_distance(reading: ClockReading) -> int {
    reading.secs * NANOS_PER_SEC + reading.subsec_nanos
}

/// The signed offset of a reading from the epoch, in nanoseconds: negative before the epoch.
pub open spec fn reading_offset(reading: ClockReading) -> int {
    if reading.before_epoch {
        -reading_distance(reading)
    } else {
        reading_distance(reading)
    }
}

/// Returns `secs` seconds and `subsec_nanos` nanoseconds in nanoseconds.
pub fn total_nanos(secs: u64, subsec_nanos: u32) -> (r: u128)
    ensures
        r == secs * NANOS_PER_SEC + subsec_nanos,
{
    assert(secs * NANOS_PER_SEC + subsec_nanos <= u64::MAX * NANOS_PER_SEC + u32::MAX) by (nonlinear_arith)
        requires
            secs <= u64::MAX,
            subsec_nanos <= u32::MAX,
    ;
    secs as u128 * NANOS_PER_SEC + subsec_nanos as u128
}

/// Reads the system clock, relative to the Unix epoch.
///
/// Which reading comes back depends on the machine's clock: only that the nanoseconds below one
/// second are below one second is promised.
pub fn read_system_clock() -> (r: ClockReading)
    ensures
        r.subsec_nanos < NANOS_PER_SEC,
{
    let t = system_time_now();
    match duration_since_epoch(&t) {
        Ok(d) => ClockReading {
            before_epoch: false,
            secs: std_duration_secs(&d),
            subsec_nanos: std_duration_subsec_nanos(&d),
        },
        Err(e) => {
            let d = time_error_duration(&e);
            ClockReading {
                before_epoch: true,
                secs: std_duration_secs(&d),
                subsec_nanos: std_duration_subsec_nanos(&d),
            }
        },
    }
}

#[verifier::external_type_specification]
#[verifier::external_body]
pub struct ExSystemTime(SystemTime);

#[verifier::external_type_specification]
#[verifier::external_body]
pub struct ExSystemTimeError(SystemTimeError);

/// Calls `std::time::SystemTime::now`; nothing is claimed of the reading.
#[verifier::external_body]
fn system_time_now() -> (r: SystemTime) {
    SystemTime::now()
}

/// Calls `SystemTime::duration_since` with the Unix epoch: the span since the epoch, or, for a
/// time before the epoch, an error that holds the span back to it. Which of the two comes back,
/// and the span, depend on the reading held in `t` and are left unsaid.
#[verifier::external_body]
fn duration_since_epoch(t: &SystemTime) -> (r: Result<StdDuration, SystemTimeError>) {
    t.duration_since(UNIX_EPOCH)
}

/// Calls `SystemTimeError::duration`, the span by which the time lay before the epoch; nothing is
/// claimed of it.
#[verifier::external_body]
fn time_error_duration(e: &SystemTimeError) -> (r: StdDuration) {
    e.duration()
}

/// Calls `std::time::Duration::as_secs`, the whole seconds of the span; nothing is claimed of
/// them.
#[verifier::external_body]
fn std_duration_secs(d: &StdDuration) -> (r: u64) {
    d.as_secs()
}

/// Calls `std::time::Duration::subsec_nanos`, the part of the span below one second; std
/// documents it as below one second, which is all that is claimed.
#[verifier::external_body]
fn std_duration_subsec_nanos(d: &StdDuration) -> (r: u32)
    ensures
        r < NANOS_PER_SEC,
{
    d.subsec_nanos()
}

} // verus!
