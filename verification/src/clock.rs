//! The current calendar time, read from the system clock.

use vstd::prelude::*;

verus! {

/// The calendar fields of an instant in UTC.
#[derive(Debug, Clone, Copy, PartialEq, Eq, Structural)]
pub struct ClockReading {
    pub year: i32,
    pub month0: u32,
    pub day: u32,
    pub hour: u32,
    pub minute: u32,
    pub second: u32,
}

/// A reading whose fields lie in the ranges `chrono` gives them.
pub open spec fn reading_wf(r: ClockReading) -> bool {
    &&& r.month0 < 12
    &&& 1 <= r.day <= 31
    &&& r.hour < 24
    &&& r.minute < 60
    &&& r.second < 60
}

/// Reads the current time with `chrono::Utc::now()` and takes its fields
/// with `Datelike::{year, month0, day}` and `Timelike::{hour, minute,
/// second}`. Claims only the ranges that `chrono` documents for them:
/// month from 0 to 11, day from 1 to 31, hour from 0 to 23, minute and
/// second from 0 to 59. Which instant is read is not stated.
#[verifier::external_body]
pub(crate) fn utc_now() -> (r: ClockReading)
    ensures
        reading_wf(r),
{
    let now = chrono::Utc::now();
    ClockReading {
        year: chrono::Datelike::year(&now),
        month0: chrono::Datelike::month0(&now),
        day: chrono::Datelike::day(&now),
        hour: chrono::Timelike::hour(&now),
        minute: chrono::Timelike::minute(&now),
        second: chrono::Timelike::second(&now),
    }
}

} // verus!
