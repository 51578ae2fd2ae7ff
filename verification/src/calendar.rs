//! Calendar values as plain integers, and the calls into `chrono` that
//! parse them, convert them to Unix seconds and shift them by whole days.
//!
//! Dates are proleptic Gregorian, in the range `chrono` supports: from
//! year -262143 to year 262142.

use vstd::prelude::*;

use chrono::{Datelike, Timelike};

verus! {

/// A calendar date.
#[derive(Debug, Clone, Copy, PartialEq, Eq, Structural)]
pub struct CivilDate {
    pub year: i32,
    pub month: u32,
    pub day: u32,
}

/// A calendar date with a wall-clock time. A `nanosecond` of one billion
/// or more marks a leap second, and only follows second 59.
#[derive(Debug, Clone, Copy, PartialEq, Eq, Structural)]
pub struct CivilDateTime {
    pub date: CivilDate,
    pub hour: u32,
    pub minute: u32,
    pub second: u32,
    pub nanosecond: u32,
}

/// The earliest year `chrono` represents.
pub const MIN_YEAR: i32 = -262143;

/// The latest year `chrono` represents.
pub const MAX_YEAR: i32 = 262142;

/// Unix seconds of the earliest representable instant, -262143-01-01T00:00:00.
pub const MIN_UNIX_SECONDS: i64 = -8334601228800;

/// Unix seconds of the latest representable second, 262142-12-31T23:59:59.
pub const MAX_UNIX_SECONDS: i64 = 8210266876799;

pub open spec fn is_leap_year(y: int) -> bool {
    (y % 4 == 0 && y % 100 != 0) || y % 400 == 0
}

pub open spec fn days_in_month(y: int, m: int) -> int {
    if m == 2 {
        if is_leap_year(y) {
            29
        } else {
            28
        }
    } else if m == 4 || m == 6 || m == 9 || m == 11 {
        30
    } else {
        31
    }
}

/// Days of the year `y` before the first of month `m`.
pub open spec fn days_before_month(y: int, m: int) -> int {
    let common: int = if m == 1 {
        0
    } else if m == 2 {
        31
    } else if m == 3 {
        59
    } else if m == 4 {
        90
    } else if m == 5 {
        120
    } else if m == 6 {
        151
    } else if m == 7 {
        181
    } else if m == 8 {
        212
    } else if m == 9 {
        243
    } else if m == 10 {
        273
    } else if m == 11 {
        304
    } else {
        334
    };
    common + if is_leap_year(y) && m > 2 {
        1int
    } else {
        0int
    }
}

/// A count of leap years whose differences give the leap years in a span:
/// `leap_count(b) - leap_count(a)` is the number of leap years `y` with `a < y <= b`.
pub open spec fn leap_count(y: int) -> int {
    y / 4 - y / 100 + y / 400
}

/// Days from 1970-01-01 to the given date (negative before it).
pub open spec fn days_from_epoch(y: int, m: int, d: int) -> int {
    365 * (y - 1970) + (leap_count(y - 1) - leap_count(1969)) + days_before_month(y, m) + d - 1
}

impl CivilDate {
    /// An existing date within the supported years.
    pub open spec fn valid(self) -> bool {
        &&& MIN_YEAR <= self.year <= MAX_YEAR
        &&& 1 <= self.month <= 12
        &&& 1 <= self.day <= days_in_month(self.year as int, self.month as int)
    }
}

impl CivilDateTime {
    /// An existing date and a wall-clock time, a leap second only after second 59.
    pub open spec fn valid(self) -> bool {
        &&& self.date.valid()
        &&& self.hour < 24
        &&& self.minute < 60
        &&& self.second < 60
        &&& self.nanosecond < 2_000_000_000
        &&& (self.nanosecond >= 1_000_000_000 ==> self.second == 59)
    }

    /// The date part.
    pub fn date(&self) -> (r: CivilDate)
        ensures
            r == self.date,
    {
        self.date
    }

    pub fn hour(&self) -> (r: u32)
        ensures
            r == self.hour,
    {
        self.hour
    }

    pub fn minute(&self) -> (r: u32)
        ensures
            r == self.minute,
    {
        self.minute
    }

    pub fn second(&self) -> (r: u32)
        ensures
            r == self.second,
    {
        self.second
    }
}

/// Seconds since 1970-01-01T00:00:00 of a date-time read as UTC; a leap
/// second counts as the second before it.
pub open spec fn unix_seconds(t: CivilDateTime) -> int {
    days_from_epoch(t.date.year as int, t.date.month as int, t.date.day as int) * 86400 + t.hour * 3600
        + t.minute * 60 + t.second
}

/// The date at 00:00:00.
pub open spec fn at_midnight_spec(d: CivilDate) -> CivilDateTime {
    CivilDateTime { date: d, hour: 0, minute: 0, second: 0, nanosecond: 0 }
}

/// The date at 00:00:00.
pub fn at_midnight(d: CivilDate) -> (r: CivilDateTime)
    ensures
        r == at_midnight_spec(d),
{
    CivilDateTime { date: d, hour: 0, minute: 0, second: 0, nanosecond: 0 }
}

/// What `chrono::NaiveDateTime::parse_from_str` makes of `input` under `format`.
pub uninterp spec fn naive_datetime_parse(input: Seq<char>, format: Seq<char>) -> Option<CivilDateTime>;

/// What `chrono::NaiveDate::parse_from_str` makes of `input` under `format`.
pub uninterp spec fn naive_date_parse(input: Seq<char>, format: Seq<char>) -> Option<CivilDate>;

impl CivilDateTime {
    /// Seconds since 1970-01-01T00:00:00 of this date-time read as UTC.
    pub fn timestamp(&self) -> (r: i64)
        requires
            self.valid(),
        ensures
            r == unix_seconds(*self),
    {
        chrono_timestamp(self)
    }
}

/// `chrono::NaiveDateTime::parse_from_str`; a parsed value is always a
/// valid date-time.
#[verifier::external_body]
pub(crate) fn parse_naive_datetime(input: &str, format: &str) -> (r: Option<CivilDateTime>)
    ensures
        r == naive_datetime_parse(input@, format@),
        r matches Some(t) ==> t.valid(),
{
    match chrono::NaiveDateTime::parse_from_str(input, format) {
        Ok(v) => Some(CivilDateTime {
            date: CivilDate { year: v.year(), month: v.month(), day: v.day() },
            hour: v.hour(),
            minute: v.minute(),
            second: v.second(),
            nanosecond: v.nanosecond(),
        }),
        Err(_) => None,
    }
}

/// `chrono::NaiveDate::parse_from_str`; a parsed value is always a valid date.
#[verifier::external_body]
pub(crate) fn parse_naive_date(input: &str, format: &str) -> (r: Option<CivilDate>)
    ensures
        r == naive_date_parse(input@, format@),
        r matches Some(d) ==> d.valid(),
{
    match chrono::NaiveDate::parse_from_str(input, format) {
        Ok(v) => Some(CivilDate { year: v.year(), month: v.month(), day: v.day() }),
        Err(_) => None,
    }
}

/// `NaiveDateTime::and_utc().timestamp()`: the Unix seconds of a valid
/// date-time.
#[verifier::external_body]
pub(crate) fn chrono_timestamp(t: &CivilDateTime) -> (r: i64)
    requires
        t.valid(),
    ensures
        r == unix_seconds(*t),
{
    let date = chrono::NaiveDate::from_ymd_opt(t.date.year, t.date.month, t.date.day).expect("valid date");
    let value = date.and_hms_nano_opt(t.hour, t.minute, t.second, t.nanosecond).expect("valid time");
    value.and_utc().timestamp()
}

/// `NaiveDateTime + TimeDelta::days(days)` for `days >= 0` whose result
/// stays representable: the Unix seconds grow by exactly `86400 * days`
/// (a leap second is left for the second before it).
#[verifier::external_body]
pub(crate) fn chrono_add_days(t: &CivilDateTime, days: i64) -> (r: CivilDateTime)
    requires
        t.valid(),
        0 <= days,
        unix_seconds(*t) + 86400 * days <= MAX_UNIX_SECONDS,
    ensures
        r.valid(),
        unix_seconds(r) == unix_seconds(*t) + 86400 * days,
{
    let date = chrono::NaiveDate::from_ymd_opt(t.date.year, t.date.month, t.date.day).expect("valid date");
    let v = date.and_hms_nano_opt(t.hour, t.minute, t.second, t.nanosecond).expect("valid time")
        + chrono::TimeDelta::days(days);
    CivilDateTime {
        date: CivilDate { year: v.year(), month: v.month(), day: v.day() },
        hour: v.hour(),
        minute: v.minute(),
        second: v.second(),
        nanosecond: v.nanosecond(),
    }
}

/// `DateTime::from_timestamp(seconds, 0)` read as a naive UTC value: a
/// value exactly when `seconds` is representable, with those Unix seconds
/// and no fraction.
#[verifier::external_body]
pub(crate) fn chrono_from_timestamp(seconds: i64) -> (r: Option<CivilDateTime>)
    ensures
        r is Some <==> MIN_UNIX_SECONDS <= seconds <= MAX_UNIX_SECONDS,
        r matches Some(t) ==> t.valid() && unix_seconds(t) == seconds && t.nanosecond == 0,
{
    match chrono::DateTime::from_timestamp(seconds, 0) {
        Some(d) => {
            let v = d.naive_utc();
            Some(CivilDateTime {
                date: CivilDate { year: v.year(), month: v.month(), day: v.day() },
                hour: v.hour(),
                minute: v.minute(),
                second: v.second(),
                nanosecond: v.nanosecond(),
            })
        },
        None => None,
    }
}

} // verus!
