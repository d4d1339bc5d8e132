//! Calendar dates of the proleptic Gregorian calendar, from the first day of
//! year 0 to the last day that the chrono backend represents.
//!
//! The date arithmetic itself (month lengths, ordinals, stepping by months
//! and days) is done by chrono; the functions here state what it returns.
use chrono::{Datelike, Months, NaiveDate};
use vstd::prelude::*;

use crate::is_leap;

verus! {

/// The last year that the calendar backend represents.
pub const MAX_DATE_YEAR: u32 = 262142;

/// Number of days in `year`.
pub open spec fn days_in_year(year: int) -> int {
    if is_leap(year) {
        366
    } else {
        365
    }
}

/// Number of days in `month` (1 to 12) of `year`.
pub open spec fn days_in_month(year: int, month: int) -> int {
    if month == 2 {
        if is_leap(year) {
            29
        } else {
            28
        }
    } else if month == 4 || month == 6 || month == 9 || month == 11 {
        30
    } else {
        31
    }
}

/// Number of days of `year` that come before the first day of `month` (1 to 12).
pub open spec fn days_before_month(year: int, month: int) -> int {
    let leap: int = if is_leap(year) {
        1
    } else {
        0
    };
    if month <= 1 {
        0
    } else if month == 2 {
        31
    } else if month == 3 {
        59 + leap
    } else if month == 4 {
        90 + leap
    } else if month == 5 {
        120 + leap
    } else if month == 6 {
        151 + leap
    } else if month == 7 {
        181 + leap
    } else if month == 8 {
        212 + leap
    } else if month == 9 {
        243 + leap
    } else if month == 10 {
        273 + leap
    } else if month == 11 {
        304 + leap
    } else {
        334 + leap
    }
}

/// The month of `year` in which its `ordinal`-th day falls.
pub open spec fn month_of_day(year: int, ordinal: int) -> int {
    if ordinal <= days_before_month(year, 2) {
        1
    } else if ordinal <= days_before_month(year, 3) {
        2
    } else if ordinal <= days_before_month(year, 4) {
        3
    } else if ordinal <= days_before_month(year, 5) {
        4
    } else if ordinal <= days_before_month(year, 6) {
        5
    } else if ordinal <= days_before_month(year, 7) {
        6
    } else if ordinal <= days_before_month(year, 8) {
        7
    } else if ordinal <= days_before_month(year, 9) {
        8
    } else if ordinal <= days_before_month(year, 10) {
        9
    } else if ordinal <= days_before_month(year, 11) {
        10
    } else if ordinal <= days_before_month(year, 12) {
        11
    } else {
        12
    }
}

/// A date as year, month and day of the month.
pub struct Ymd {
    pub year: int,
    pub month: int,
    pub day: int,
}

/// The date `year`-`month`-`day`.
pub open spec fn ymd_of(year: u32, month: u32, day: u32) -> Ymd {
    Ymd { year: year as int, month: month as int, day: day as int }
}

/// The date of the `ordinal`-th day of `year`.
pub open spec fn ymd_of_ordinal(year: int, ordinal: int) -> Ymd {
    let month = month_of_day(year, ordinal);
    Ymd { year, month, day: ordinal - days_before_month(year, month) }
}

impl Ymd {
    /// The day exists in the calendar.
    pub open spec fn is_valid(self) -> bool {
        1 <= self.month <= 12 && 1 <= self.day <= days_in_month(self.year, self.month)
    }

    /// The year lies within the years that `CalendarDate` covers.
    pub open spec fn in_range(self) -> bool {
        0 <= self.year <= MAX_DATE_YEAR
    }

    /// Position of the day within its year, starting from 1.
    pub open spec fn day_of_year(self) -> int {
        days_before_month(self.year, self.month) + self.day
    }

    /// `self` is a strictly earlier day than `other`.
    pub open spec fn before(self, other: Ymd) -> bool {
        ||| self.year < other.year
        ||| self.year == other.year && self.month < other.month
        ||| self.year == other.year && self.month == other.month && self.day < other.day
    }

    /// The day before `self`.
    pub open spec fn prev_day(self) -> Ymd {
        if self.day > 1 {
            Ymd { year: self.year, month: self.month, day: self.day - 1 }
        } else if self.month > 1 {
            Ymd {
                year: self.year,
                month: self.month - 1,
                day: days_in_month(self.year, self.month - 1),
            }
        } else {
            Ymd { year: self.year - 1, month: 12, day: 31 }
        }
    }

    /// `months` whole months after `self`; a day past the end of the target
    /// month becomes that month's last day.
    pub open spec fn add_months(self, months: int) -> Ymd {
        let total = self.year * 12 + (self.month - 1) + months;
        let year = total / 12;
        let month = total % 12 + 1;
        let last = days_in_month(year, month);
        Ymd { year, month, day: if self.day <= last { self.day } else { last } }
    }
}

/// The ordinal of a valid day determines it.
pub proof fn lemma_ordinal_determines_date(v: Ymd)
    requires
        v.is_valid(),
    ensures
        ymd_of_ordinal(v.year, v.day_of_year()) == v,
        1 <= v.day_of_year() <= days_in_year(v.year),
{
}

/// A day of the calendar, from 0000-01-01 to the last day of `MAX_DATE_YEAR`.
#[derive(Clone, Copy, Debug, PartialEq, Eq, Structural, PartialOrd, Ord, Hash)]
pub struct CalendarDate {
    year: u32,
    month: u32,
    day: u32,
}

impl View for CalendarDate {
    type V = Ymd;

    closed spec fn view(&self) -> Ymd {
        Ymd { year: self.year as int, month: self.month as int, day: self.day as int }
    }
}

/// Relies on chrono's `NaiveDate::from_ymd_opt`: it returns a date exactly
/// when `month` and `day` name a day of `year` in the proleptic Gregorian
/// calendar (`year` is within chrono's range here).
#[verifier::external_body]
fn chrono_ymd_exists(year: u32, month: u32, day: u32) -> (r: bool)
    requires
        year <= MAX_DATE_YEAR,
    ensures
        r == ymd_of(year, month, day).is_valid(),
{
    NaiveDate::from_ymd_opt(year as i32, month, day).is_some()
}

/// Relies on chrono's `NaiveDate::from_yo_opt`: it returns the `ordinal`-th
/// day of `year` when the year has that many days, and `None` otherwise.
#[verifier::external_body]
fn chrono_from_ordinal(year: u32, ordinal: u32) -> (r: Option<(u32, u32)>)
    requires
        year <= MAX_DATE_YEAR,
    ensures
        r is Some <==> 1 <= ordinal <= days_in_year(year as int),
        r matches Some((m, d)) ==> ymd_of(year, m, d).is_valid(),
        r matches Some((m, d)) ==> ymd_of(year, m, d).day_of_year() == ordinal,
{
    match NaiveDate::from_yo_opt(year as i32, ordinal) {
        Some(date) => Some((date.month(), date.day())),
        None => None,
    }
}

/// Relies on chrono's `Datelike::ordinal`: the day's position in its year,
/// starting from 1.
#[verifier::external_body]
fn chrono_ordinal(year: u32, month: u32, day: u32) -> (r: u32)
    requires
        year <= MAX_DATE_YEAR,
        ymd_of(year, month, day).is_valid(),
    ensures
        r == ymd_of(year, month, day).day_of_year(),
{
    NaiveDate::from_ymd_opt(year as i32, month, day).unwrap().ordinal()
}

/// Relies on chrono's `NaiveDate::checked_add_months`: the same day `months`
/// months later, clamped to the end of a shorter month, or `None` when that
/// lies after chrono's last year.
#[verifier::external_body]
fn chrono_add_months(year: u32, month: u32, day: u32, months: u32) -> (r: Option<(u32, u32, u32)>)
    requires
        year <= MAX_DATE_YEAR,
        ymd_of(year, month, day).is_valid(),
    ensures
        r is Some <==> ymd_of(year, month, day).add_months(months as int).year <= MAX_DATE_YEAR,
        r matches Some((y, m, d)) ==> ymd_of(y, m, d) == ymd_of(year, month, day).add_months(
            months as int,
        ),
{
    let date = NaiveDate::from_ymd_opt(year as i32, month, day).unwrap();
    match date.checked_add_months(Months::new(months)) {
        Some(next) => Some((next.year() as u32, next.month(), next.day())),
        None => None,
    }
}

/// Relies on chrono's `NaiveDate::pred_opt`: the previous calendar day, which
/// exists for every day after 0000-01-01.
#[verifier::external_body]
fn chrono_pred(year: u32, month: u32, day: u32) -> (r: (u32, u32, u32))
    requires
        year <= MAX_DATE_YEAR,
        ymd_of(year, month, day).is_valid(),
        !(year == 0 && month == 1 && day == 1),
    ensures
        ymd_of(r.0, r.1, r.2) == ymd_of(year, month, day).prev_day(),
{
    let prev = NaiveDate::from_ymd_opt(year as i32, month, day).unwrap().pred_opt().unwrap();
    (prev.year() as u32, prev.month(), prev.day())
}

impl CalendarDate {
    #[verifier::type_invariant]
    spec fn is_well_formed(self) -> bool {
        self@.is_valid() && self@.in_range()
    }

    /// The date `year`-`month`-`day`, or `None` when no such day exists in
    /// the years that this type covers.
    pub fn from_ymd_opt(year: u32, month: u32, day: u32) -> (r: Option<CalendarDate>)
        ensures
            r is Some <==> ymd_of(year, month, day).is_valid()
                && year <= MAX_DATE_YEAR,
            r matches Some(d) ==> d@ == ymd_of(year, month, day),
    {
        if year > MAX_DATE_YEAR || !chrono_ymd_exists(year, month, day) {
            return None;
        }
        Some(CalendarDate { year, month, day })
    }

    /// The `ordinal`-th day of `year`, or `None` when the year has no such
    /// day or lies outside the years that this type covers.
    pub fn from_yo_opt(year: u32, ordinal: u32) -> (r: Option<CalendarDate>)
        ensures
            r is Some <==> year <= MAX_DATE_YEAR && 1 <= ordinal <= days_in_year(year as int),
            r matches Some(d) ==> d@ == ymd_of_ordinal(year as int, ordinal as int),
    {
        if year > MAX_DATE_YEAR {
            return None;
        }
        match chrono_from_ordinal(year, ordinal) {
            Some((month, day)) => {
                proof {
                    lemma_ordinal_determines_date(ymd_of(year, month, day));
                }
                Some(CalendarDate { year, month, day })
            },
            None => None,
        }
    }

    /// The year; every date is a valid day within the covered years.
    pub fn year(&self) -> (r: u32)
        ensures
            r == self@.year,
            self@.is_valid(),
            self@.in_range(),
    {
        proof {
            use_type_invariant(self);
        }
        self.year
    }

    /// The month, from 1 to 12.
    pub fn month(&self) -> (r: u32)
        ensures
            r == self@.month,
            self@.is_valid(),
            self@.in_range(),
    {
        proof {
            use_type_invariant(self);
        }
        self.month
    }

    /// The day of the month, from 1.
    pub fn day(&self) -> (r: u32)
        ensures
            r == self@.day,
            self@.is_valid(),
            self@.in_range(),
    {
        proof {
            use_type_invariant(self);
        }
        self.day
    }

    /// The day's position in its year, starting from 1.
    pub fn ordinal(&self) -> (r: u32)
        ensures
            r == self@.day_of_year(),
            1 <= r <= days_in_year(self@.year),
    {
        proof {
            use_type_invariant(self);
            lemma_ordinal_determines_date(self@);
        }
        chrono_ordinal(self.year, self.month, self.day)
    }

    /// The same day `months` months later (the last day of the target month
    /// where it is shorter), or `None` when that lies after `MAX_DATE_YEAR`.
    pub fn checked_add_months(&self, months: u32) -> (r: Option<CalendarDate>)
        ensures
            r is Some <==> self@.add_months(months as int).year <= MAX_DATE_YEAR,
            r matches Some(d) ==> d@ == self@.add_months(months as int),
    {
        proof {
            use_type_invariant(self);
        }
        match chrono_add_months(self.year, self.month, self.day, months) {
            Some((year, month, day)) => Some(CalendarDate { year, month, day }),
            None => None,
        }
    }

    /// The previous day, or `None` for 0000-01-01.
    pub fn pred_opt(&self) -> (r: Option<CalendarDate>)
        ensures
            r is Some <==> !(self@.year == 0 && self@.month == 1 && self@.day == 1),
            r matches Some(d) ==> d@ == self@.prev_day(),
    {
        proof {
            use_type_invariant(self);
        }
        if self.year == 0 && self.month == 1 && self.day == 1 {
            return None;
        }
        let (year, month, day) = chrono_pred(self.year, self.month, self.day);
        Some(CalendarDate { year, month, day })
    }

    /// `self` is a later day than `other`.
    pub fn is_after(&self, other: &CalendarDate) -> (r: bool)
        ensures
            r == other@.before(self@),
            self@.is_valid() && self@.in_range(),
            other@.is_valid() && other@.in_range(),
    {
        proof {
            use_type_invariant(self);
            use_type_invariant(other);
        }
        self.year > other.year || (self.year == other.year && (self.month > other.month || (
        self.month == other.month && self.day > other.day)))
    }
}

} // verus!
