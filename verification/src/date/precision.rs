//! Precision levels and the calendar periods they name.
use vstd::prelude::*;

use crate::calendar::{CalendarDate, MAX_YEAR, MIN_YEAR};

verus! {

/// Precision level for date bounds, from the finest to the coarsest.
///
/// A bound with `Year` precision represents a boundary at year granularity:
/// "1927" spans January 1 to December 31.
#[derive(Debug, Clone, Copy, PartialEq, Eq, PartialOrd, Ord, Hash, Structural)]
pub enum DatePrecision {
    Day,
    Month,
    Year,
    Decade,
    /// Century using the historical convention: 21st century = 2001-2100.
    Century,
    /// Millennium using the historical convention: 2nd millennium = 1001-2000.
    Millennium,
}

impl DatePrecision {
    /// The position of this level in the order from finest to coarsest.
    pub open spec fn rank(self) -> int {
        match self {
            DatePrecision::Day => 0,
            DatePrecision::Month => 1,
            DatePrecision::Year => 2,
            DatePrecision::Decade => 3,
            DatePrecision::Century => 4,
            DatePrecision::Millennium => 5,
        }
    }

    pub(super) fn level(self) -> (r: u8)
        ensures
            r == self.rank(),
    {
        match self {
            DatePrecision::Day => 0,
            DatePrecision::Month => 1,
            DatePrecision::Year => 2,
            DatePrecision::Decade => 3,
            DatePrecision::Century => 4,
            DatePrecision::Millennium => 5,
        }
    }
}

// --- Precision periods ---

/// First year of the 1-based historical period of `length` years that holds
/// `year`: the years 1 to `length` form a period, and so do the years
/// `-length` to -1.
pub open spec fn block_first_year(year: int, length: int) -> int {
    if year > 0 {
        ((year - 1) / length) * length + 1
    } else {
        (year / length) * length
    }
}

/// First year of the precision period that holds `year`.
///
/// Decades use the common convention (1980s = 1980-1989); as there is no year
/// 0, the first decade of the common era starts in year 1.
pub open spec fn first_year(year: int, precision: DatePrecision) -> int {
    match precision {
        DatePrecision::Decade => if 0 <= year < 10 {
            1
        } else {
            (year / 10) * 10
        },
        DatePrecision::Century => block_first_year(year, 100),
        DatePrecision::Millennium => block_first_year(year, 1000),
        _ => year,
    }
}

/// Last year of the precision period that holds `year`.
pub open spec fn last_year(year: int, precision: DatePrecision) -> int {
    match precision {
        DatePrecision::Decade => (year / 10) * 10 + 9,
        DatePrecision::Century => block_first_year(year, 100) + 99,
        DatePrecision::Millennium => block_first_year(year, 1000) + 999,
        _ => year,
    }
}

/// First day of the precision period that holds `date`.
pub open spec fn period_first_day(date: CalendarDate, precision: DatePrecision) -> CalendarDate {
    match precision {
        DatePrecision::Day => date,
        DatePrecision::Month => CalendarDate { year: date.year, month: date.month, day: 1 },
        _ => CalendarDate {
            year: first_year(date.year as int, precision) as i32,
            month: 1,
            day: 1,
        },
    }
}

/// Last day of the precision period that holds `date`.
pub open spec fn period_last_day(date: CalendarDate, precision: DatePrecision) -> CalendarDate {
    match precision {
        DatePrecision::Day => date,
        DatePrecision::Month => CalendarDate {
            year: date.year,
            month: date.month,
            day: crate::calendar::days_in_month(date.year as int, date.month as int) as u32,
        },
        _ => CalendarDate {
            year: last_year(date.year as int, precision) as i32,
            month: 12,
            day: 31,
        },
    }
}

/// Whether the first day of the period is representable.
pub open spec fn period_start_representable(date: CalendarDate, precision: DatePrecision) -> bool {
    MIN_YEAR <= first_year(date.year as int, precision)
}

/// Whether the last day of the period is representable. The last day of a
/// month is found from the first day of the next one, which has to be
/// representable as well.
pub open spec fn period_end_representable(date: CalendarDate, precision: DatePrecision) -> bool {
    if precision is Month {
        !(date.year == MAX_YEAR && date.month == 12)
    } else {
        last_year(date.year as int, precision) <= MAX_YEAR
    }
}

/// Whether the first day of the period that holds `date` is representable.
pub fn period_starts_in_calendar(date: CalendarDate, precision: DatePrecision) -> (r: bool)
    requires
        date.valid(),
        date.year != 0,
    ensures
        r == period_start_representable(date, precision),
{
    match precision {
        DatePrecision::Decade => {
            let start: i32 = decade_index(date.year) * 10;
            MIN_YEAR <= start
        },
        DatePrecision::Century => MIN_YEAR <= period_start_year(date.year, 100),
        DatePrecision::Millennium => MIN_YEAR <= period_start_year(date.year, 1000),
        _ => true,
    }
}

/// Whether the last day of the period that holds `date` is representable.
pub fn period_ends_in_calendar(date: CalendarDate, precision: DatePrecision) -> (r: bool)
    requires
        date.valid(),
        date.year != 0,
    ensures
        r == period_end_representable(date, precision),
{
    match precision {
        DatePrecision::Month => !(date.year == MAX_YEAR && date.month == 12),
        DatePrecision::Decade => {
            let end: i32 = decade_index(date.year) * 10 + 9;
            end <= MAX_YEAR
        },
        DatePrecision::Century => period_end_year(date.year, 100) <= MAX_YEAR,
        DatePrecision::Millennium => period_end_year(date.year, 1000) <= MAX_YEAR,
        _ => true,
    }
}

proof fn lemma_period_years(year: int, precision: DatePrecision)
    requires
        year != 0,
        MIN_YEAR <= year <= MAX_YEAR,
    ensures
        first_year(year, precision) <= year <= last_year(year, precision),
        first_year(year, precision) != 0,
        first_year(first_year(year, precision), precision) == first_year(year, precision),
        last_year(first_year(year, precision), precision) == last_year(year, precision),
        i32::MIN <= first_year(year, precision),
        last_year(year, precision) <= i32::MAX,
{
}

/// What a precision period is: it holds its date, starts no later than it
/// ends, and every date in it has the same period.
pub proof fn lemma_period(date: CalendarDate, precision: DatePrecision)
    requires
        date.valid(),
        date.year != 0,
    ensures
        period_first_day(date, precision).is_day(),
        period_last_day(date, precision).is_day(),
        period_first_day(date, precision).year != 0,
        period_first_day(date, precision).day_number() <= date.day_number(),
        date.day_number() <= period_last_day(date, precision).day_number(),
        period_first_day(period_first_day(date, precision), precision) == period_first_day(
            date,
            precision,
        ),
        period_last_day(period_first_day(date, precision), precision) == period_last_day(
            date,
            precision,
        ),
        period_start_representable(date, precision) ==> period_first_day(date, precision).valid(),
        period_end_representable(date, precision) ==> period_last_day(date, precision).valid(),
        period_end_representable(date, precision) == period_end_representable(
            period_first_day(date, precision),
            precision,
        ),
{
    let y = date.year as int;
    let first = period_first_day(date, precision);
    let last = period_last_day(date, precision);
    lemma_period_years(y, precision);
    assert(first == date || crate::calendar::ymd_before(first, date));
    assert(last == date || crate::calendar::ymd_before(date, last));
    crate::calendar::lemma_order(first, date);
    crate::calendar::lemma_order(date, last);
}

/// A period starts no later than it ends, and holds the date it was made from.
pub proof fn law_period_holds_its_date(date: CalendarDate, precision: DatePrecision)
    requires
        date.valid(),
        date.year != 0,
    ensures
        period_first_day(date, precision).day_number() <= date.day_number(),
        date.day_number() <= period_last_day(date, precision).day_number(),
        period_first_day(date, precision).day_number() <= period_last_day(
            date,
            precision,
        ).day_number(),
{
    lemma_period(date, precision);
}

/// Snapping is idempotent: the first day of a period has that same period.
pub proof fn law_snapping_is_idempotent(date: CalendarDate, precision: DatePrecision)
    requires
        date.valid(),
        date.year != 0,
    ensures
        period_first_day(period_first_day(date, precision), precision) == period_first_day(
            date,
            precision,
        ),
        period_last_day(period_first_day(date, precision), precision) == period_last_day(
            date,
            precision,
        ),
{
    lemma_period(date, precision);
}

/// The last day of a period snaps back to its first, and the day after it starts a
/// period of its own. As there is no year 0, the year after -1 is year 1.
pub proof fn law_periods_adjoin(date: CalendarDate, precision: DatePrecision)
    requires
        date.valid(),
        date.year != 0,
    ensures
        period_first_day(period_last_day(date, precision), precision) == period_first_day(
            date,
            precision,
        ),
        period_last_day(period_last_day(date, precision), precision) == period_last_day(
            date,
            precision,
        ),
        period_last_day(date, precision).day_after().year != 0 ==> period_first_day(
            period_last_day(date, precision).day_after(),
            precision,
        ) == period_last_day(date, precision).day_after(),
        period_last_day(date, precision).day_after().year == 0 ==> period_first_day(
            CalendarDate { year: 1, month: 1, day: 1 },
            precision,
        ) == (CalendarDate { year: 1, month: 1, day: 1 }),
{
    lemma_period_years(date.year as int, precision);
    lemma_next_years(date.year as int, precision);
    let last = period_last_day(date, precision);
    match precision {
        DatePrecision::Day => {},
        DatePrecision::Month => {
            assert(last.day == crate::calendar::days_in_month(
                last.year as int,
                last.month as int,
            ));
        },
        _ => {
            assert(last.year == last_year(date.year as int, precision));
            assert(last.day_after() == (CalendarDate {
                year: (last.year + 1) as i32,
                month: 1,
                day: 1,
            }));
        },
    }
}

/// Away from the ends of the calendar, the period of a date, that of its last day and
/// that of the day after are all representable: they can be snapped to and ended. So
/// the last day of a period is its last: it snaps to the first day, which comes no
/// later than the date, and the next day snaps to itself.
pub proof fn law_period_ends_where_the_next_starts(date: CalendarDate, precision: DatePrecision)
    requires
        date.valid(),
        date.year != 0,
        -261000 <= date.year <= 261000,
    ensures
        ({
            let first = period_first_day(date, precision);
            let last = period_last_day(first, precision);
            let next = last.day_after();
            &&& period_start_representable(date, precision)
            &&& first.valid() && first.year != 0
            &&& first.day_number() <= date.day_number() <= last.day_number()
            &&& period_end_representable(first, precision)
            &&& last.valid() && last.year != 0
            &&& period_start_representable(last, precision)
            &&& period_first_day(last, precision) == first
            &&& next.valid()
            &&& next.year != 0 ==> period_start_representable(next, precision) && period_first_day(
                next,
                precision,
            ) == next
        }),
{
    lemma_period(date, precision);
    law_periods_adjoin(date, precision);
    lemma_near_years(date.year as int, precision);
    lemma_next_years(date.year as int, precision);
    let last = period_last_day(date, precision);
    let next = last.day_after();
    match precision {
        DatePrecision::Day => {},
        DatePrecision::Month => {},
        _ => {
            assert(last.year == last_year(date.year as int, precision));
            assert(next == (CalendarDate { year: (last.year + 1) as i32, month: 1, day: 1 }));
        },
    }
}

/// The years of a period lie within a millennium of each other, and on one side of
/// year 0.
proof fn lemma_near_years(year: int, precision: DatePrecision)
    requires
        year != 0,
        MIN_YEAR <= year <= MAX_YEAR,
    ensures
        year - 1000 < first_year(year, precision) <= year <= last_year(year, precision) < year
            + 1000,
        last_year(year, precision) != 0,
{
    match precision {
        DatePrecision::Decade => {},
        DatePrecision::Century => {},
        DatePrecision::Millennium => {},
        _ => {},
    }
}

/// The last year of a period lies in it, and the next year starts a period.
proof fn lemma_next_years(year: int, precision: DatePrecision)
    requires
        year != 0,
        MIN_YEAR <= year <= MAX_YEAR,
    ensures
        first_year(last_year(year, precision), precision) == first_year(year, precision),
        last_year(last_year(year, precision), precision) == last_year(year, precision),
        last_year(year, precision) + 1 != 0 ==> first_year(
            last_year(year, precision) + 1,
            precision,
        ) == last_year(year, precision) + 1,
{
    match precision {
        DatePrecision::Decade => {},
        DatePrecision::Century => {},
        DatePrecision::Millennium => {},
        _ => {},
    }
}

/// A period is known by its precision and its last day.
pub proof fn lemma_period_by_end(a: CalendarDate, b: CalendarDate, precision: DatePrecision)
    requires
        a.valid(),
        b.valid(),
        a.year != 0,
        b.year != 0,
        period_last_day(a, precision).day_number() == period_last_day(b, precision).day_number(),
    ensures
        period_first_day(a, precision) == period_first_day(b, precision),
{
    lemma_period(a, precision);
    lemma_period(b, precision);
    crate::calendar::lemma_order(period_last_day(a, precision), period_last_day(b, precision));
}

/// The day with these numbers, which are known to name one.
fn ymd(year: i32, month: u32, day: u32) -> (r: CalendarDate)
    requires
        crate::calendar::valid_ymd(year as int, month as int, day as int),
    ensures
        r == (CalendarDate { year, month, day }),
{
    CalendarDate::from_ymd_opt(year, month, day).unwrap()
}

proof fn lemma_block(year: int, length: int)
    requires
        year != 0,
        length > 0,
    ensures
        block_first_year(year, length) <= year < block_first_year(year, length) + length,
        year < 0 ==> block_first_year(year, length) == -(((-year - 1) / length + 1) * length),
{
    if year > 0 {
        vstd::arithmetic::div_mod::lemma_fundamental_div_mod(year - 1, length);
        vstd::arithmetic::div_mod::lemma_mod_bound(year - 1, length);
        assert(length * ((year - 1) / length) == ((year - 1) / length) * length)
            by (nonlinear_arith);
    } else {
        let q = (-year - 1) / length;
        let r = (-year - 1) % length;
        vstd::arithmetic::div_mod::lemma_fundamental_div_mod(-year - 1, length);
        vstd::arithmetic::div_mod::lemma_mod_bound(-year - 1, length);
        assert(year == (length - 1 - r) + (-(q + 1)) * length) by (nonlinear_arith)
            requires
                -year - 1 == length * q + r,
        ;
        vstd::arithmetic::div_mod::lemma_fundamental_div_mod_converse(
            year,
            length,
            -(q + 1),
            length - 1 - r,
        );
        assert((-(q + 1)) * length == -((q + 1) * length)) by (nonlinear_arith);
    }
}

/// Start year of a 1-based historical period (century, millennium).
///
/// Convention: 1st century CE = 1 to 100, 2nd = 101 to 200;
/// 1st century BCE = -1 to -100, 2nd = -101 to -200.
fn period_start_year(year: i32, period: i32) -> (r: i32)
    requires
        year != 0,
        period > 0,
        -year + period <= i32::MAX,
    ensures
        r == block_first_year(year as int, period as int),
        r <= year < r + period,
{
    proof {
        lemma_block(year as int, period as int);
    }
    if year > 0 {
        let blocks: i32 = (year - 1) / period;
        proof {
            assert(0 <= blocks * period < year) by (nonlinear_arith)
                requires
                    blocks * period + 1 == block_first_year(year as int, period as int),
                    block_first_year(year as int, period as int) <= year,
                    blocks >= 0,
                    period > 0,
            ;
        }
        blocks * period + 1
    } else {
        let neg_y: i32 = -year;
        let blocks: i32 = (neg_y - 1) / period + 1;
        -(blocks * period)
    }
}

/// End year of a 1-based historical period (century, millennium).
fn period_end_year(year: i32, period: i32) -> (r: i32)
    requires
        year != 0,
        period > 0,
        year + period <= i32::MAX,
        -year + period <= i32::MAX,
    ensures
        r == block_first_year(year as int, period as int) + period - 1,
        r - period < year <= r,
{
    proof {
        lemma_block(year as int, period as int);
    }
    if year > 0 {
        let blocks: i32 = (year - 1) / period;
        proof {
            assert((blocks + 1) * period == blocks * period + period) by (nonlinear_arith);
        }
        (blocks + 1) * period
    } else {
        let neg_y: i32 = -year;
        let blocks: i32 = (neg_y - 1) / period;
        proof {
            assert((blocks + 1) * period == blocks * period + period) by (nonlinear_arith);
            assert(blocks * period >= 0) by (nonlinear_arith)
                requires
                    blocks >= 0,
                    period > 0,
            ;
        }
        -(blocks * period + 1)
    }
}

/// Snap a date to the start of its precision period.
///
/// Century and millennium use the historical convention (1-based). Decades use
/// the common convention (0-based): 1980s = 1980 to 1989.
pub fn snap_to_precision_start(date: CalendarDate, precision: DatePrecision) -> (r: CalendarDate)
    requires
        date.valid(),
        date.year != 0,
        period_start_representable(date, precision),
    ensures
        r == period_first_day(date, precision),
        r.valid(),
{
    proof {
        lemma_period(date, precision);
    }
    match precision {
        DatePrecision::Day => date,
        DatePrecision::Month => ymd(date.year, date.month, 1),
        DatePrecision::Year => ymd(date.year, 1, 1),
        DatePrecision::Decade => {
            let mut decade_start: i32 = decade_index(date.year) * 10;
            // Years 1-9 CE snap to "decade 0", but year 0 does not exist
            // historically, so clamp to 1.
            if decade_start == 0 {
                decade_start = 1;
            }
            ymd(decade_start, 1, 1)
        },
        DatePrecision::Century => ymd(period_start_year(date.year, 100), 1, 1),
        DatePrecision::Millennium => ymd(period_start_year(date.year, 1000), 1, 1),
    }
}

/// Which decade `year` lies in, rounding down.
fn decade_index(year: i32) -> (r: i32)
    requires
        MIN_YEAR <= year <= MAX_YEAR,
    ensures
        r == year as int / 10,
{
    if year >= 0 {
        year / 10
    } else {
        -((-year + 9) / 10)
    }
}

/// Calculate the last day of a precision period.
pub fn precision_end(date: CalendarDate, precision: DatePrecision) -> (r: CalendarDate)
    requires
        date.valid(),
        date.year != 0,
        period_end_representable(date, precision),
    ensures
        r == period_last_day(date, precision),
        r.valid(),
{
    proof {
        lemma_period(date, precision);
    }
    match precision {
        DatePrecision::Day => date,
        DatePrecision::Month => {
            let (next_year, next_month): (i32, u32) = if date.month == 12 {
                (date.year + 1, 1)
            } else {
                (date.year, date.month + 1)
            };
            // Last day of current month = day before first of next month.
            ymd(next_year, next_month, 1).pred_opt().unwrap()
        },
        DatePrecision::Year => ymd(date.year, 12, 31),
        DatePrecision::Decade => {
            let decade_end: i32 = decade_index(date.year) * 10 + 9;
            ymd(decade_end, 12, 31)
        },
        DatePrecision::Century => ymd(period_end_year(date.year, 100), 12, 31),
        DatePrecision::Millennium => ymd(period_end_year(date.year, 1000), 12, 31),
    }
}

/// What the period of each precision is: the day itself; the month from its first day
/// to the day before another month; the year; the ten years from a multiple of ten, the
/// first of them without the year 0 that is not counted; and the hundred or thousand
/// years up to a multiple of that many, where years are counted on from 1 and back from
/// -1.
pub proof fn law_period_by_precision(date: CalendarDate, precision: DatePrecision)
    requires
        date.valid(),
        date.year != 0,
    ensures
        ({
            let first = period_first_day(date, precision);
            let last = period_last_day(date, precision);
            match precision {
                DatePrecision::Day => first == date && last == date,
                DatePrecision::Month => {
                    &&& first.year == date.year && first.month == date.month && first.day == 1
                    &&& last.year == date.year && last.month == date.month
                    &&& last.day_after().month != date.month && last.day_after().day == 1
                },
                DatePrecision::Year => {
                    &&& first.year == date.year && first.month == 1 && first.day == 1
                    &&& last.year == date.year && last.month == 12 && last.day == 31
                },
                DatePrecision::Decade => {
                    &&& first.month == 1 && first.day == 1 && last.month == 12 && last.day == 31
                    &&& last.year as int % 10 == 9
                    &&& first.year == last.year - 9 || (first.year == 1 && last.year == 9)
                    &&& first.year != 0
                },
                DatePrecision::Century => {
                    &&& first.month == 1 && first.day == 1 && last.month == 12 && last.day == 31
                    &&& last.year == first.year + 99
                    &&& date.year > 0 ==> last.year as int % 100 == 0
                    &&& date.year < 0 ==> first.year as int % 100 == 0
                },
                DatePrecision::Millennium => {
                    &&& first.month == 1 && first.day == 1 && last.month == 12 && last.day == 31
                    &&& last.year == first.year + 999
                    &&& date.year > 0 ==> last.year as int % 1000 == 0
                    &&& date.year < 0 ==> first.year as int % 1000 == 0
                },
            }
        }),
{
    let y = date.year as int;
    assert(((y - 1) / 100) * 100 == (y - 1) - (y - 1) % 100);
    assert(((y - 1) / 1000) * 1000 == (y - 1) - (y - 1) % 1000);
    assert((y / 100) * 100 == y - y % 100);
    assert((y / 1000) * 1000 == y - y % 1000);
    assert((y / 10) * 10 == y - y % 10);
}

/// A period can be written down exactly where its first and its last day are days of the
/// calendar; only the very last month, after which no other starts, is left out too.
pub proof fn law_period_is_representable_where_its_days_are(
    date: CalendarDate,
    precision: DatePrecision,
)
    requires
        date.valid(),
        date.year != 0,
    ensures
        period_start_representable(date, precision) <==> period_first_day(date, precision).valid(),
        period_end_representable(date, precision) ==> period_last_day(date, precision).valid(),
        !period_end_representable(date, precision) ==> !period_last_day(date, precision).valid()
            || (precision is Month && period_last_day(date, precision).is_last()),
        precision is Month && period_last_day(date, precision).is_last()
            ==> !period_end_representable(date, precision),
{
    lemma_period(date, precision);
    lemma_period_years(date.year as int, precision);
    let y = date.year as int;
    assert(((y - 1) / 100) * 100 == (y - 1) - (y - 1) % 100);
    assert(((y - 1) / 1000) * 1000 == (y - 1) - (y - 1) % 1000);
    assert((y / 100) * 100 == y - y % 100);
    assert((y / 1000) * 1000 == y - y % 1000);
    assert((y / 10) * 10 == y - y % 10);
}

/// Precisions go from the finest to the coarsest.
pub proof fn law_precisions_ascend()
    ensures
        DatePrecision::Day.rank() < DatePrecision::Month.rank() < DatePrecision::Year.rank(),
        DatePrecision::Year.rank() < DatePrecision::Decade.rank() < DatePrecision::Century.rank(),
        DatePrecision::Century.rank() < DatePrecision::Millennium.rank(),
{
}

} // verus!
