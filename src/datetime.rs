//! Naive (time-zone free) calendar date and time of day.
use chrono::format::ParseError as DateTextError;
use chrono::{Datelike, Timelike};
use vstd::prelude::*;

verus! {

/// Smallest and largest years that the calendar accepts.
pub const MIN_YEAR: i32 = -262143;

pub const MAX_YEAR: i32 = 262142;

pub open spec fn is_leap_year(y: int) -> bool {
    (y % 4 == 0 && y % 100 != 0) || y % 400 == 0
}

pub open spec fn days_in_month(y: int, m: int) -> int {
    if m == 2 {
        if is_leap_year(y) {
            29
        } else {
            28
        }
    } else if m == 4 || m == 6 || m == 9 || m == 11 {
        30
    } else {
        31
    }
}

/// A day of the proleptic Gregorian calendar within the supported years.
pub open spec fn date_valid(y: int, m: int, d: int) -> bool {
    MIN_YEAR <= y <= MAX_YEAR && 1 <= m <= 12 && 1 <= d <= days_in_month(y, m)
}

/// A time of day; a leap second is written as second 59 with an overlong fraction.
pub open spec fn time_valid(h: int, mi: int, s: int, n: int) -> bool {
    0 <= h < 24 && 0 <= mi < 60 && 0 <= s < 60 && 0 <= n && (n < 1_000_000_000 || (s == 59
        && n < 2_000_000_000))
}

/// A date and a time of day, without time zone.
#[derive(Clone, Copy, Debug, PartialEq, Eq, Structural)]
pub struct DateTime {
    pub year: i32,
    pub month: u32,
    pub day: u32,
    pub hour: u32,
    pub minute: u32,
    pub second: u32,
    pub nano: u32,
}

impl DateTime {
    pub open spec fn valid(self) -> bool {
        date_valid(self.year as int, self.month as int, self.day as int) && time_valid(
            self.hour as int,
            self.minute as int,
            self.second as int,
            self.nano as int,
        )
    }

    /// `self` comes strictly before `other`: the fields compared in order, most
    /// significant first.
    pub open spec fn is_before(self, o: DateTime) -> bool {
        if self.year != o.year {
            self.year < o.year
        } else if self.month != o.month {
            self.month < o.month
        } else if self.day != o.day {
            self.day < o.day
        } else if self.hour != o.hour {
            self.hour < o.hour
        } else if self.minute != o.minute {
            self.minute < o.minute
        } else if self.second != o.second {
            self.second < o.second
        } else {
            self.nano < o.nano
        }
    }

    /// The value, or `None` where the fields name no valid date and time.
    pub fn new(
        year: i32,
        month: u32,
        day: u32,
        hour: u32,
        minute: u32,
        second: u32,
        nano: u32,
    ) -> (r: Option<DateTime>)
        ensures
            r is Some <==> date_valid(year as int, month as int, day as int) && time_valid(
                hour as int,
                minute as int,
                second as int,
                nano as int,
            ),
            r is Some ==> r == Some(
                (DateTime { year, month, day, hour, minute, second, nano }),
            ),
    {
        if date_exists(year, month, day) && hour < 24 && minute < 60 && second < 60 && (nano
            < 1_000_000_000 || (second == 59 && nano < 2_000_000_000)) {
            Some(DateTime { year, month, day, hour, minute, second, nano })
        } else {
            None
        }
    }

    /// `self` comes strictly before `other`.
    pub fn before(&self, o: &DateTime) -> (r: bool)
        ensures
            r == self.is_before(*o),
    {
        if self.year != o.year {
            self.year < o.year
        } else if self.month != o.month {
            self.month < o.month
        } else if self.day != o.day {
            self.day < o.day
        } else if self.hour != o.hour {
            self.hour < o.hour
        } else if self.minute != o.minute {
            self.minute < o.minute
        } else if self.second != o.second {
            self.second < o.second
        } else {
            self.nano < o.nano
        }
    }

    /// The current local date and time, as the system clock gives it.
    pub fn now() -> (r: DateTime)
        ensures
            r.valid(),
    {
        local_now()
    }
}

/// The order of date and time values is transitive.
pub proof fn lemma_before_transitive(a: DateTime, b: DateTime, c: DateTime)
    ensures
        a.is_before(b) && b.is_before(c) ==> a.is_before(c),
        !b.is_before(a) && !c.is_before(b) ==> !c.is_before(a),
{
}

/// The order of date and time values is total: of two different values one comes first.
pub proof fn lemma_before_total(a: DateTime, b: DateTime)
    ensures
        a != b ==> a.is_before(b) || b.is_before(a),
        !(a.is_before(b) && b.is_before(a)),
{
}

/// What chrono's `NaiveDateTime::checked_sub_signed` gives for a shift back by `secs`
/// seconds (`None` where the result leaves the supported range).
pub uninterp spec fn shifted_back(dt: DateTime, secs: int) -> Option<DateTime>;

/// What chrono's `NaiveDateTime::parse_from_str` gives for `text` read as bytes of UTF-8
/// with the format `%Y-%m-%d %H:%M:%S` (`None` where it fails).
pub uninterp spec fn parsed_date_time(text: Seq<u8>) -> Option<DateTime>;

#[verifier::external_type_specification]
#[verifier::external_body]
pub struct ExDateTextError(DateTextError);

/// Relies on chrono's `NaiveDate::from_ymd_opt`: `Some` exactly for an existing
/// day of the proleptic Gregorian calendar between its smallest and largest year.
#[verifier::external_body]
fn date_exists(year: i32, month: u32, day: u32) -> (r: bool)
    ensures
        r == date_valid(year as int, month as int, day as int),
{
    chrono::NaiveDate::from_ymd_opt(year, month, day).is_some()
}

/// Relies on chrono's `Local::now` and `DateTime::naive_local`: the local wall clock,
/// which is a valid date and time.
#[verifier::external_body]
fn local_now() -> (r: DateTime)
    ensures
        r.valid(),
{
    let n = chrono::Local::now().naive_local();
    DateTime {
        year: n.year(),
        month: n.month(),
        day: n.day(),
        hour: n.hour(),
        minute: n.minute(),
        second: n.second(),
        nano: n.nanosecond(),
    }
}

/// Relies on chrono's `TimeDelta::try_seconds` and `NaiveDateTime::checked_sub_signed`:
/// calendar arithmetic, whose result is a valid date and time where there is one.
#[verifier::external_body]
pub(crate) fn minus_seconds(dt: DateTime, secs: i64) -> (r: Option<DateTime>)
    requires
        dt.valid(),
    ensures
        r == shifted_back(dt, secs as int),
        r matches Some(v) ==> v.valid(),
{
    let base = chrono::NaiveDate::from_ymd_opt(dt.year, dt.month, dt.day)?
        .and_hms_nano_opt(dt.hour, dt.minute, dt.second, dt.nano)?;
    let n = base.checked_sub_signed(chrono::TimeDelta::try_seconds(secs)?)?;
    let (d, t) = (n.date(), n.time());
    Some(DateTime {
        year: d.year(), month: d.month(), day: d.day(),
        hour: t.hour(), minute: t.minute(), second: t.second(), nano: t.nanosecond(),
    })
}

/// Relies on chrono's `NaiveDateTime::parse_from_str` with the format `%Y-%m-%d %H:%M:%S`;
/// what it accepts is a valid date and time.
#[verifier::external_body]
pub(crate) fn parse_date_time(text: &[u8]) -> (r: Result<DateTime, DateTextError>)
    ensures
        r matches Ok(v) ==> parsed_date_time(text@) == Some(v) && v.valid(),
        r is Err ==> parsed_date_time(text@) is None,
{
    let s = String::from_utf8_lossy(text);
    chrono::NaiveDateTime::parse_from_str(&s, "%Y-%m-%d %H:%M:%S").map(|n| DateTime {
        year: n.year(), month: n.month(), day: n.day(),
        hour: n.hour(), minute: n.minute(), second: n.second(), nano: n.nanosecond(),
    })
}

} // verus!
