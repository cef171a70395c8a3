//! Calendar days of the proleptic Gregorian calendar.
//!
//! [`CalendarDate`] holds a day as plain year, month and day numbers; year
//! numbers are astronomical, so the calendar itself has a year 0. Arithmetic on
//! days is `chrono`'s; what its results mean is stated here over
//! [`CalendarDate::day_number`], a consecutive numbering of all days.
use vstd::prelude::*;

use chrono::{Datelike, NaiveDate};

verus! {

/// The first year whose days are representable.
pub const MIN_YEAR: i32 = -262143;

/// The last year whose days are representable.
pub const MAX_YEAR: i32 = 262142;

/// A day, written as year, month and day of the month.
#[derive(Clone, Copy, Debug, PartialEq, Eq, PartialOrd, Ord, Hash, Structural)]
pub struct CalendarDate {
    pub year: i32,
    pub month: u32,
    pub day: u32,
}

/// Whether `year` has a February 29.
pub open spec fn is_leap(year: int) -> bool {
    year % 4 == 0 && (year % 100 != 0 || year % 400 == 0)
}

/// How many days month `month` of `year` has.
pub open spec fn days_in_month(year: int, month: int) -> int {
    if month == 2 {
        if is_leap(year) {
            29
        } else {
            28
        }
    } else if month == 4 || month == 6 || month == 9 || month == 11 {
        30
    } else {
        31
    }
}

/// Whether the three numbers name a day of a representable year.
pub open spec fn valid_ymd(year: int, month: int, day: int) -> bool {
    &&& MIN_YEAR <= year <= MAX_YEAR
    &&& 1 <= month <= 12
    &&& 1 <= day <= days_in_month(year, month)
}

/// How many days lie before the first of January of `year`, counted from the
/// first of January of year 1 (negative for earlier years).
pub open spec fn days_before_year(year: int) -> int {
    365 * (year - 1) + (year - 1) / 4 - (year - 1) / 100 + (year - 1) / 400
}

/// How many days of `year` lie before the first of `month`.
pub open spec fn days_before_month(year: int, month: int) -> int {
    let leap_day: int = if is_leap(year) {
        1
    } else {
        0
    };
    if month <= 1 {
        0
    } else if month == 2 {
        31
    } else if month == 3 {
        59 + leap_day
    } else if month == 4 {
        90 + leap_day
    } else if month == 5 {
        120 + leap_day
    } else if month == 6 {
        151 + leap_day
    } else if month == 7 {
        181 + leap_day
    } else if month == 8 {
        212 + leap_day
    } else if month == 9 {
        243 + leap_day
    } else if month == 10 {
        273 + leap_day
    } else if month == 11 {
        304 + leap_day
    } else {
        334 + leap_day
    }
}

/// The day with these numbers, if there is one.
///
/// Calls `chrono::NaiveDate::from_ymd_opt`. Taken as given: it accepts exactly
/// the existing days of the years `MIN_YEAR` to `MAX_YEAR`, and the accepted date
/// reads back the same year, month and day.
#[verifier::external_body]
fn read_ymd(year: i32, month: u32, day: u32) -> (r: Option<CalendarDate>)
    ensures
        r is Some <==> valid_ymd(year as int, month as int, day as int),
        r is Some ==> r->0 == (CalendarDate { year, month, day }),
{
    NaiveDate::from_ymd_opt(year, month, day).map(
        |d| CalendarDate { year: d.year(), month: d.month(), day: d.day() },
    )
}

impl CalendarDate {
    /// Whether this names an existing, representable day.
    pub open spec fn valid(self) -> bool {
        valid_ymd(self.year as int, self.month as int, self.day as int)
    }

    /// Whether this names an existing day of any year.
    pub open spec fn is_day(self) -> bool {
        &&& 1 <= self.month <= 12
        &&& 1 <= self.day <= days_in_month(self.year as int, self.month as int)
    }

    /// The position of this day in the sequence of all days; the first of
    /// January of year 1 has number 1.
    pub open spec fn day_number(self) -> int {
        days_before_year(self.year as int) + days_before_month(self.year as int, self.month as int)
            + self.day
    }

    /// The day after this one.
    pub open spec fn day_after(self) -> CalendarDate {
        if self.day < days_in_month(self.year as int, self.month as int) {
            CalendarDate { year: self.year, month: self.month, day: (self.day + 1) as u32 }
        } else if self.month < 12 {
            CalendarDate { year: self.year, month: (self.month + 1) as u32, day: 1 }
        } else {
            CalendarDate { year: (self.year + 1) as i32, month: 1, day: 1 }
        }
    }

    /// The day before this one.
    pub open spec fn day_before(self) -> CalendarDate {
        if self.day > 1 {
            CalendarDate { year: self.year, month: self.month, day: (self.day - 1) as u32 }
        } else if self.month > 1 {
            CalendarDate {
                year: self.year,
                month: (self.month - 1) as u32,
                day: days_in_month(self.year as int, self.month - 1) as u32,
            }
        } else {
            CalendarDate { year: (self.year - 1) as i32, month: 12, day: 31 }
        }
    }

    /// Whether this is the last representable day.
    pub open spec fn is_last(self) -> bool {
        self.year == MAX_YEAR && self.month == 12 && self.day == 31
    }

    /// Whether this is the first representable day.
    pub open spec fn is_first(self) -> bool {
        self.year == MIN_YEAR && self.month == 1 && self.day == 1
    }

    /// The day with these numbers, if there is one.
    pub fn from_ymd_opt(year: i32, month: u32, day: u32) -> (r: Option<CalendarDate>)
        ensures
            r is Some <==> valid_ymd(year as int, month as int, day as int),
            r is Some ==> r->0 == (CalendarDate { year, month, day }) && r->0.valid(),
    {
        read_ymd(year, month, day)
    }

    /// The next day, if it is representable.
    ///
    /// Calls `chrono::NaiveDate::succ_opt`. Taken as given: it returns the day
    /// after, and `None` exactly for the last representable day.
    #[verifier::external_body]
    pub(crate) fn succ_opt(&self) -> (r: Option<CalendarDate>)
        requires
            self.valid(),
        ensures
            r is None <==> self.is_last(),
            r is Some ==> r->0 == self.day_after(),
    {
        let next = NaiveDate::from_ymd_opt(self.year, self.month, self.day)?.succ_opt()?;
        Some(CalendarDate { year: next.year(), month: next.month(), day: next.day() })
    }

    /// The previous day, if it is representable.
    ///
    /// Calls `chrono::NaiveDate::pred_opt`. Taken as given: it returns the day
    /// before, and `None` exactly for the first representable day.
    #[verifier::external_body]
    pub(crate) fn pred_opt(&self) -> (r: Option<CalendarDate>)
        requires
            self.valid(),
        ensures
            r is None <==> self.is_first(),
            r is Some ==> r->0 == self.day_before(),
    {
        let prev = NaiveDate::from_ymd_opt(self.year, self.month, self.day)?.pred_opt()?;
        Some(CalendarDate { year: prev.year(), month: prev.month(), day: prev.day() })
    }

    /// Whether this day is earlier than `other`.
    pub fn is_before(&self, other: &CalendarDate) -> (r: bool)
        requires
            self.valid(),
            other.valid(),
        ensures
            r == (self.day_number() < other.day_number()),
    {
        proof {
            lemma_order(*self, *other);
            lemma_order(*other, *self);
        }
        self.year < other.year || (self.year == other.year && (self.month < other.month || (
        self.month == other.month && self.day < other.day)))
    }
}

/// Whether `a` comes before `b`, compared by year, then month, then day.
pub open spec fn ymd_before(a: CalendarDate, b: CalendarDate) -> bool {
    a.year < b.year || (a.year == b.year && (a.month < b.month || (a.month == b.month && a.day
        < b.day)))
}

proof fn lemma_year_step(year: int)
    ensures
        days_before_year(year + 1) == days_before_year(year) + 365 + (if is_leap(year) {
            1int
        } else {
            0int
        }),
{
    let n = year - 1;
    assert(year / 4 == n / 4 + (if year % 4 == 0 { 1int } else { 0int }));
    assert(year / 100 == n / 100 + (if year % 100 == 0 { 1int } else { 0int }));
    assert(year / 400 == n / 400 + (if year % 400 == 0 { 1int } else { 0int }));
    assert(year % 400 == 0 ==> year % 100 == 0);
    assert(year % 100 == 0 ==> year % 4 == 0);
}

proof fn lemma_years_grow(a: int, b: int)
    requires
        a < b,
    ensures
        days_before_year(a) + 365 + (if is_leap(a) {
            1int
        } else {
            0int
        }) <= days_before_year(b),
    decreases b - a,
{
    lemma_year_step(a);
    if a + 1 < b {
        lemma_years_grow(a + 1, b);
    }
}

/// Day numbers order days as year, month and day do.
pub proof fn lemma_order(a: CalendarDate, b: CalendarDate)
    requires
        a.is_day(),
        b.is_day(),
    ensures
        ymd_before(a, b) <==> a.day_number() < b.day_number(),
        a == b <==> a.day_number() == b.day_number(),
{
    if a.year < b.year {
        lemma_years_grow(a.year as int, b.year as int);
    } else if b.year < a.year {
        lemma_years_grow(b.year as int, a.year as int);
    }
}

/// The day after a day has the next number, and is a valid day unless the
/// calendar ends.
pub proof fn lemma_day_after(a: CalendarDate)
    requires
        a.valid(),
    ensures
        a.day_after().day_number() == a.day_number() + 1,
        !a.is_last() ==> a.day_after().valid(),
{
    lemma_year_step(a.year as int);
}

/// Stepping back undoes stepping forward, and the other way round, inside the
/// calendar.
pub proof fn law_day_before_inverts_day_after(a: CalendarDate)
    requires
        a.valid(),
    ensures
        !a.is_last() ==> a.day_after().day_before() == a,
        !a.is_first() ==> a.day_before().valid() && a.day_before().day_after() == a,
{
}

/// Days are numbered one by one, in the order of year, month and day.
pub proof fn law_days_are_numbered_in_order(a: CalendarDate, b: CalendarDate)
    requires
        a.valid(),
        b.valid(),
    ensures
        a.day_after().day_number() == a.day_number() + 1,
        a.day_number() < b.day_number() <==> a.year < b.year || (a.year == b.year && (a.month
            < b.month || (a.month == b.month && a.day < b.day))),
        a.day_number() == b.day_number() <==> a == b,
        a.year == 1 && a.month == 1 ==> a.day_number() == a.day,
{
    lemma_day_after(a);
    lemma_order(a, b);
}

/// The calendar repeats every four hundred years, of 146097 days.
pub proof fn law_calendar_repeats(a: CalendarDate, b: CalendarDate)
    requires
        b.year == a.year + 400,
        b.month == a.month,
        b.day == a.day,
    ensures
        b.is_day() <==> a.is_day(),
        b.day_number() == a.day_number() + 146097,
{
    let y = a.year as int;
    assert((y + 400) % 4 == y % 4 && (y + 400) % 100 == y % 100 && (y + 400) % 400 == y % 400);
    assert((y - 1 + 400) / 4 == (y - 1) / 4 + 100);
    assert((y - 1 + 400) / 100 == (y - 1) / 100 + 4);
    assert((y - 1 + 400) / 400 == (y - 1) / 400 + 1);
}

} // verus!
