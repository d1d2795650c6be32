//! The calls into the `chrono` crate: calendar fields of the machine's zone.

use chrono::{DateTime, Datelike, Local, Timelike, Utc};
use vstd::prelude::*;

verus! {

/// A date and time of day in the zone of the machine.
#[derive(Debug, Clone, Copy, PartialEq, Eq, Structural)]
pub struct LocalTime {
    pub year: i32,
    pub month: u32,
    pub day: u32,
    pub hour: u32,
    pub minute: u32,
    pub second: u32,
    /// Milliseconds within the second; above 999 in a leap second.
    pub subsec_millis: u32,
    /// One for Monday to seven for Sunday.
    pub weekday: u32,
}

impl LocalTime {
    pub open spec fn in_range(self) -> bool {
        &&& 1 <= self.month <= 12
        &&& 1 <= self.day <= 31
        &&& self.hour <= 23
        &&& self.minute <= 59
        &&& self.second <= 59
        &&& self.subsec_millis <= 1999
        &&& 1 <= self.weekday <= 7
    }

    /// The number of the day, with the first of January 1970 as day zero.
    pub open spec fn day_number(self) -> int {
        let year = if self.month <= 2 {
            self.year - 1
        } else {
            self.year as int
        };
        365 * year + year / 4 - year / 100 + year / 400 + (153 * ((self.month + 9) % 12) + 2) / 5
            + self.day - 719_469
    }

    /// The day of the week is that of the date.
    pub open spec fn on_its_weekday(self) -> bool {
        self.weekday == (self.day_number() + 3) % 7 + 1
    }

    /// The seconds that a clock of this zone counts since 1970.
    pub open spec fn seconds(self) -> int {
        self.day_number() * 86_400 + self.hour * 3_600 + self.minute * 60 + self.second
    }

    /// The fields are those of a moment, in a zone that is less than a day ahead
    /// or behind.
    pub open spec fn stands_for(self, unix_millis: int) -> bool {
        &&& self.in_range()
        &&& self.on_its_weekday()
        &&& self.subsec_millis == unix_millis % 1000
        &&& -86_400 < self.seconds() - unix_millis / 1000 < 86_400
    }
}

/// The milliseconds that the calendar has a date for: those of the years
/// -262143 to 262142.
pub open spec fn has_date(unix_millis: int) -> bool {
    -8_334_601_228_800_000 <= unix_millis <= 8_210_266_876_799_999
}

/// Calls `chrono::Local::now` and reads the calendar fields. Claimed: the
/// ranges of the fields, and that the day of the week is that of the date.
#[verifier::external_body]
pub(crate) fn local_now() -> (result: LocalTime)
    ensures
        result.in_range(),
        result.on_its_weekday(),
{
    let now = Local::now();
    LocalTime {
        year: now.year(),
        month: now.month(),
        day: now.day(),
        hour: now.hour(),
        minute: now.minute(),
        second: now.second(),
        subsec_millis: now.timestamp_subsec_millis(),
        weekday: now.weekday().number_from_monday(),
    }
}

/// Calls `chrono::DateTime::<Utc>::from_timestamp_millis` and reads the
/// calendar fields in the zone of the machine. Claimed: which milliseconds have
/// a date, and that the fields are those of the moment. How far the zone is from
/// universal time depends on the machine and is not claimed.
#[verifier::external_body]
pub(crate) fn local_from_millis(unix_millis: i64) -> (result: Option<LocalTime>)
    ensures
        result is Some == has_date(unix_millis as int),
        result matches Some(time) ==> time.stands_for(unix_millis as int),
{
    let time = DateTime::<Utc>::from_timestamp_millis(unix_millis)?.with_timezone(&Local);
    Some(LocalTime {
        year: time.year(),
        month: time.month(),
        day: time.day(),
        hour: time.hour(),
        minute: time.minute(),
        second: time.second(),
        subsec_millis: time.timestamp_subsec_millis(),
        weekday: time.weekday().number_from_monday(),
    })
}

/// The days of a month.
pub open spec fn month_days(year: int, month: int) -> int {
    if month == 2 {
        if year % 4 == 0 && (year % 100 != 0 || year % 400 == 0) {
            29
        } else {
            28
        }
    } else if month == 4 || month == 6 || month == 9 || month == 11 {
        30
    } else {
        31
    }
}

/// Days are counted one by one: within a month by the day, and the first of a
/// month follows the last of the one before it. The count begins with the first
/// day of 1970, which was a Thursday.
pub proof fn law_days_are_counted_one_by_one(one: LocalTime, other: LocalTime)
    requires
        one.in_range(),
        other.in_range(),
    ensures
        one.year == other.year && one.month == other.month ==> one.day_number() - other.day_number()
            == one.day - other.day,
        one.year == other.year && one.month + 1 == other.month && one.day == month_days(
            one.year as int,
            one.month as int,
        ) && other.day == 1 ==> other.day_number() == one.day_number() + 1,
        one.year + 1 == other.year && one.month == 12 && one.day == 31 && other.month == 1
            && other.day == 1 ==> other.day_number() == one.day_number() + 1,
        one.year == 1970 && one.month == 1 && one.day == 1 ==> one.day_number() == 0 && (
        one.on_its_weekday() <==> one.weekday == 4),
{
}

/// Seconds are counted from the same day on, and what a time stands for is that
/// moment to the millisecond, less than a day ahead or behind.
pub proof fn law_seconds_are_counted_from_1970(value: LocalTime, unix_millis: int)
    ensures
        value.seconds() == 86400 * value.day_number() + 3600 * value.hour + 60 * value.minute
            + value.second,
        value.stands_for(unix_millis) ==> value.in_range() && value.subsec_millis == unix_millis
            % 1000 && -86400 < value.seconds() - unix_millis / 1000 < 86400,
{
}

} // verus!
