//! The date at an offset from universal time.
//!
//! An offset is given in whole hours. The calendar is kept by chrono: the
//! library decides which offset is asked for, and what becomes of the date
//! that chrono gives.

use vstd::prelude::*;

verus! {

/// The seconds of an offset of `hours` hours, where they fit in 32 bits.
pub open spec fn seconds_of(hours: i64) -> Option<i32> {
    if i32::MIN <= hours * 3600 <= i32::MAX {
        Some((hours * 3600) as i32)
    } else {
        None
    }
}

/// A calendar date.
#[derive(Clone, Copy, Debug, PartialEq, Eq, Structural)]
pub struct Date {
    pub year: i32,
    pub month: u8,
    pub day: u8,
}

/// The date of year, month and day, where the month and the day fit in
/// eight bits.
pub open spec fn narrowed(year: i32, month: u32, day: u32) -> Option<Date> {
    if month <= u8::MAX && day <= u8::MAX {
        Some(Date { year, month: month as u8, day: day as u8 })
    } else {
        None
    }
}

/// What chrono gives as year, month and day for the moment `timestamp`
/// seconds after the start of 1970 in universal time, seen `offset` seconds
/// east of universal time; nothing where chrono takes the timestamp or the
/// offset to be out of range.
pub uninterp spec fn civil_date(timestamp: i64, offset: i32) -> Option<(i32, u32, u32)>;

/// The date of the moment `timestamp`, seen `hours` hours east of universal
/// time.
pub open spec fn date_of(timestamp: i64, hours: i64) -> Option<Date> {
    match seconds_of(hours) {
        Some(seconds) => match civil_date(timestamp, seconds) {
            Some((year, month, day)) => narrowed(year, month, day),
            None => None,
        },
        None => None,
    }
}

/// The seconds of an offset of `hours` hours, or nothing where they do not
/// fit in 32 bits.
pub fn offset_seconds(hours: i64) -> (seconds: Option<i32>)
    ensures
        seconds == seconds_of(hours),
{
    if hours < -596523 || hours > 596523 {
        None
    } else {
        let seconds: i64 = hours * 3600;
        Some(seconds as i32)
    }
}

/// The date of year, month and day, or nothing where the month or the day
/// does not fit in eight bits.
pub fn narrow_date(year: i32, month: u32, day: u32) -> (date: Option<Date>)
    ensures
        date == narrowed(year, month, day),
{
    if month <= 255 && day <= 255 {
        Some(Date { year, month: month as u8, day: day as u8 })
    } else {
        None
    }
}

/// Year, month and day by chrono: `DateTime::from_timestamp` for the moment,
/// `FixedOffset::east_opt` for the offset, `with_timezone` to see the one at
/// the other, and `year`, `month` and `day` of `Datelike` for the result.
/// The offset is taken only strictly between one day west and one day east;
/// months run from 1 to 12 and days from 1 to 31. None of these calls
/// panics, and none reads the clock or the time zone of the machine, so that
/// the result is a function of the two numbers.
#[verifier::external_body]
fn chrono_date(timestamp: i64, offset: i32) -> (date: Option<(i32, u32, u32)>)
    ensures
        date == civil_date(timestamp, offset),
        !(-86_400 < offset < 86_400) ==> date is None,
        date matches Some((_, month, day)) ==> 1 <= month <= 12 && 1 <= day <= 31,
{
    let moment = chrono::DateTime::<chrono::Utc>::from_timestamp(timestamp, 0)?;
    let zone = chrono::FixedOffset::east_opt(offset)?;
    let local = moment.with_timezone(&zone);
    Some(
        (
            chrono::Datelike::year(&local),
            chrono::Datelike::month(&local),
            chrono::Datelike::day(&local),
        ),
    )
}

/// The date of the moment `timestamp`, in seconds after the start of 1970
/// in universal time, seen `hours` hours east of universal time. There is
/// none where the seconds of the offset do not fit in 32 bits, nor where
/// the offset reaches a whole day, nor where chrono cannot hold the moment.
pub fn date_at(timestamp: i64, hours: i64) -> (date: Option<Date>)
    ensures
        date == date_of(timestamp, hours),
        date is Some ==> -24 < hours < 24,
        date matches Some(d) ==> 1 <= d.month <= 12 && 1 <= d.day <= 31,
{
    match offset_seconds(hours) {
        Some(seconds) => match chrono_date(timestamp, seconds) {
            Some((year, month, day)) => narrow_date(year, month, day),
            None => None,
        },
        None => None,
    }
}

} // verus!
