//! Calendar dates and wall-clock timestamps.
//!
//! Todos carry an optional expiry timestamp with local wall-clock semantics
//! and no timezone. Day and month boundaries are computed in the same
//! calendar the rest of the application uses to label days, so the inclusive
//! day window `[00:00:00, 23:59:59]` and the half-open month window agree
//! with plain field equality on the date; the lemmas at the end of this
//! module prove that agreement.

use vstd::prelude::*;

verus! {

/// A calendar date: year, month (1..=12), day (1..=days in that month).
#[derive(Clone, Copy, PartialEq, Eq, Structural, Debug)]
pub struct Date {
    pub year: i32,
    pub month: u32,
    pub day: u32,
}

/// A wall-clock timestamp with one-second resolution and no timezone.
#[derive(Clone, Copy, PartialEq, Eq, Structural, Debug)]
pub struct DateTime {
    pub date: Date,
    pub hour: u32,
    pub minute: u32,
    pub second: u32,
}

/// Gregorian leap-year rule.
pub open spec fn spec_is_leap_year(year: int) -> bool {
    year % 4 == 0 && (year % 100 != 0 || year % 400 == 0)
}

/// Number of days in a month of the Gregorian calendar.
pub open spec fn spec_days_in_month(year: int, month: int) -> int {
    if month == 2 {
        if spec_is_leap_year(year) {
            29
        } else {
            28
        }
    } else if month == 4 || month == 6 || month == 9 || month == 11 {
        30
    } else {
        31
    }
}

pub fn is_leap_year(year: i32) -> (r: bool)
    ensures
        r == spec_is_leap_year(year as int),
{
    year % 4 == 0 && (year % 100 != 0 || year % 400 == 0)
}

pub fn days_in_month(year: i32, month: u32) -> (r: u32)
    requires
        1 <= month <= 12,
    ensures
        r == spec_days_in_month(year as int, month as int),
{
    if month == 2 {
        if is_leap_year(year) {
            29
        } else {
            28
        }
    } else if month == 4 || month == 6 || month == 9 || month == 11 {
        30
    } else {
        31
    }
}

impl Date {
    /// A date is well formed when it names an existing calendar day.
    pub open spec fn wf(self) -> bool {
        &&& 1 <= self.month <= 12
        &&& 1 <= self.day <= spec_days_in_month(self.year as int, self.month as int)
    }

    pub fn is_valid(&self) -> (r: bool)
        ensures
            r == self.wf(),
    {
        1 <= self.month && self.month <= 12 && 1 <= self.day && self.day <= days_in_month(
            self.year,
            self.month,
        )
    }
}

impl DateTime {
    /// A timestamp is well formed when its date exists and its time of day
    /// is within a day.
    pub open spec fn wf(self) -> bool {
        &&& self.date.wf()
        &&& self.hour <= 23
        &&& self.minute <= 59
        &&& self.second <= 59
    }

    pub fn is_valid(&self) -> (r: bool)
        ensures
            r == self.wf(),
    {
        self.date.is_valid() && self.hour <= 23 && self.minute <= 59 && self.second <= 59
    }
}

/// Chronological order on dates: lexicographic on (year, month, day).
pub open spec fn spec_date_le(a: Date, b: Date) -> bool {
    if a.year != b.year {
        a.year < b.year
    } else if a.month != b.month {
        a.month < b.month
    } else {
        a.day <= b.day
    }
}

/// Chronological order on timestamps: lexicographic on
/// (year, month, day, hour, minute, second).
pub open spec fn spec_dt_le(a: DateTime, b: DateTime) -> bool {
    if a.date.year != b.date.year {
        a.date.year < b.date.year
    } else if a.date.month != b.date.month {
        a.date.month < b.date.month
    } else if a.date.day != b.date.day {
        a.date.day < b.date.day
    } else if a.hour != b.hour {
        a.hour < b.hour
    } else if a.minute != b.minute {
        a.minute < b.minute
    } else {
        a.second <= b.second
    }
}

/// Strictly earlier.
pub open spec fn spec_dt_lt(a: DateTime, b: DateTime) -> bool {
    spec_dt_le(a, b) && a != b
}

impl Date {
    pub fn le(&self, other: &Date) -> (r: bool)
        ensures
            r == spec_date_le(*self, *other),
    {
        if self.year != other.year {
            self.year < other.year
        } else if self.month != other.month {
            self.month < other.month
        } else {
            self.day <= other.day
        }
    }
}

impl DateTime {
    pub fn le(&self, other: &DateTime) -> (r: bool)
        ensures
            r == spec_dt_le(*self, *other),
    {
        if self.date.year != other.date.year {
            self.date.year < other.date.year
        } else if self.date.month != other.date.month {
            self.date.month < other.date.month
        } else if self.date.day != other.date.day {
            self.date.day < other.date.day
        } else if self.hour != other.hour {
            self.hour < other.hour
        } else if self.minute != other.minute {
            self.minute < other.minute
        } else {
            self.second <= other.second
        }
    }
}

/// First second of a calendar day: `d 00:00:00`.
pub open spec fn spec_day_start(d: Date) -> DateTime {
    DateTime { date: d, hour: 0, minute: 0, second: 0 }
}

/// Last second of a calendar day: `d 23:59:59`.
pub open spec fn spec_day_end(d: Date) -> DateTime {
    DateTime { date: d, hour: 23, minute: 59, second: 59 }
}

pub fn day_start(d: Date) -> (t: DateTime)
    ensures
        t == spec_day_start(d),
{
    DateTime { date: d, hour: 0, minute: 0, second: 0 }
}

pub fn day_end(d: Date) -> (t: DateTime)
    ensures
        t == spec_day_end(d),
{
    DateTime { date: d, hour: 23, minute: 59, second: 59 }
}

/// First instant of a month: the (year, month) pair taken as `01 00:00:00`.
pub open spec fn spec_month_start(year: int, month: int) -> DateTime {
    DateTime {
        date: Date { year: year as i32, month: month as u32, day: 1 },
        hour: 0,
        minute: 0,
        second: 0,
    }
}

/// The (year, month) pair of the following month; December rolls over to
/// January of the next year.
pub open spec fn spec_next_month(year: int, month: int) -> (int, int) {
    if month == 12 {
        (year + 1, 1)
    } else {
        (year, month + 1)
    }
}

pub fn next_month(year: i32, month: u32) -> (r: (i32, u32))
    requires
        1 <= month <= 12,
        year < i32::MAX,
    ensures
        (r.0 as int, r.1 as int) == spec_next_month(year as int, month as int),
{
    if month == 12 {
        (year + 1, 1)
    } else {
        (year, month + 1)
    }
}

/// A well-formed timestamp lies on day `d` exactly when it falls within the
/// inclusive day window `[d 00:00:00, d 23:59:59]`. A todo stamped at the
/// very last second of a day therefore belongs to that day and to no other.
pub proof fn lemma_same_day_iff_within_bounds(t: DateTime, d: Date)
    requires
        t.wf(),
    ensures
        (t.date == d) <==> (spec_dt_le(spec_day_start(d), t) && spec_dt_le(t, spec_day_end(d))),
{
}

/// A well-formed timestamp carries a given (year, month) exactly when it
/// falls within the half-open window from the first instant of that month to
/// the first instant of the next month, December rolling over to January.
pub proof fn lemma_same_month_iff_within_window(t: DateTime, year: int, month: int)
    requires
        t.wf(),
        1 <= month <= 12,
        i32::MIN <= year <= i32::MAX - 1,
    ensures
        (t.date.year == year && t.date.month == month) <==> (spec_dt_le(
            spec_month_start(year, month),
            t,
        ) && spec_dt_lt(t, spec_month_start(spec_next_month(year, month).0, spec_next_month(year, month).1))),
{
}

} // verus!
