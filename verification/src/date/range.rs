//! Single intervals: [`DateBound`] endpoints and the [`TimeRange`] between two
//! of them.
use vstd::prelude::*;

use super::precision::{
    lemma_period, lemma_period_by_end, period_end_representable, period_ends_in_calendar,
    period_first_day, period_last_day, period_start_representable, precision_end,
    snap_to_precision_start, DatePrecision,
};
use super::DateError;
use crate::calendar::{lemma_day_after, lemma_order, CalendarDate};

verus! {

/// A date with known precision, used as an endpoint of a [`TimeRange`].
///
/// The date is always snapped to the start of its precision period. For
/// example, `Year` precision for 2020 stores 2020-01-01. Year 0 is rejected:
/// use negative years for BCE dates (-1 for 1 BCE).
#[derive(Debug, Clone, Copy, PartialEq, Eq, PartialOrd, Ord, Hash, Structural)]
pub struct DateBound {
    pub(super) date: CalendarDate,
    pub(super) precision: DatePrecision,
}

impl DateBound {
    /// The first day of this bound's period.
    pub closed spec fn first_day(self) -> CalendarDate {
        self.date
    }

    /// The granularity of this bound.
    pub closed spec fn granularity(self) -> DatePrecision {
        self.precision
    }

    /// The last day of this bound's period.
    pub open spec fn last_day(self) -> CalendarDate {
        period_last_day(self.first_day(), self.granularity())
    }

    /// The number of the first day of this bound's period.
    #[verifier::opaque]
    pub open spec fn start(self) -> int {
        self.first_day().day_number()
    }

    /// The number of the last day of this bound's period.
    #[verifier::opaque]
    pub open spec fn end(self) -> int {
        self.last_day().day_number()
    }

    /// Whether this bound is the start of a period of its precision.
    #[verifier::type_invariant]
    pub open spec fn wf(self) -> bool {
        &&& self.first_day().valid()
        &&& self.first_day().year != 0
        &&& period_first_day(self.first_day(), self.granularity()) == self.first_day()
    }

    /// Whether the last day of this bound's period is representable.
    pub open spec fn ends_in_calendar(self) -> bool {
        period_end_representable(self.first_day(), self.granularity())
    }

    /// Create a new `DateBound`, snapping the date to its precision period
    /// start. Returns `Err(DateError::Year0)` if the date has year 0.
    pub fn new(date: CalendarDate, precision: DatePrecision) -> (r: Result<Self, DateError>)
        requires
            date.valid(),
            date.year != 0 ==> period_start_representable(date, precision),
        ensures
            date.year == 0 ==> r == Err::<DateBound, DateError>(DateError::Year0),
            date.year != 0 ==> r is Ok,
            r is Ok ==> {
                &&& r->Ok_0.first_day() == period_first_day(date, precision)
                &&& r->Ok_0.granularity() == precision
                &&& r->Ok_0.last_day() == period_last_day(date, precision)
                &&& r->Ok_0.wf()
                &&& r->Ok_0.ends_in_calendar() == period_end_representable(date, precision)
            },
    {
        if date.year == 0 {
            return Err(DateError::Year0);
        }
        proof {
            lemma_period(date, precision);
        }
        let snapped = snap_to_precision_start(date, precision);
        Ok(DateBound { date: snapped, precision })
    }

    /// The first day of this bound's precision period.
    pub fn period_start(&self) -> (r: CalendarDate)
        ensures
            r == self.first_day(),
            r.valid(),
    {
        proof {
            use_type_invariant(self);
        }
        self.date
    }

    /// The precision level.
    pub fn precision(&self) -> (r: DatePrecision)
        ensures
            r == self.granularity(),
    {
        self.precision
    }

    /// Whether the last day of this bound's period is representable.
    pub fn has_end(&self) -> (r: bool)
        ensures
            r == self.ends_in_calendar(),
    {
        proof {
            use_type_invariant(self);
        }
        period_ends_in_calendar(self.date, self.precision)
    }

    /// The last day of this bound's precision period.
    pub fn period_end(&self) -> (r: CalendarDate)
        requires
            self.ends_in_calendar(),
        ensures
            r == self.last_day(),
            r.valid(),
    {
        proof {
            use_type_invariant(self);
        }
        precision_end(self.date, self.precision)
    }
}

/// A bound's period is not empty, and its last day and precision identify it.
pub proof fn lemma_bound(a: DateBound, b: DateBound)
    requires
        a.wf(),
        b.wf(),
    ensures
        a.start() <= a.end(),
        a.ends_in_calendar() ==> a.last_day().valid(),
        a.start() == b.start() && a.granularity() == b.granularity() ==> a == b,
        a.end() == b.end() && a.granularity() == b.granularity() ==> a == b,
{
    reveal(DateBound::start);
    reveal(DateBound::end);
    lemma_period(a.first_day(), a.granularity());
    lemma_order(a.first_day(), b.first_day());
    if a.end() == b.end() && a.granularity() == b.granularity() {
        lemma_period_by_end(a.first_day(), b.first_day(), a.granularity());
    }
}

/// Whether lower endpoint `a` reaches at least as far down as `b`, the finer
/// precision first among equal days. `None` is open.
pub open spec fn lower_reaches(a: Option<DateBound>, b: Option<DateBound>) -> bool {
    match (a, b) {
        (None, _) => true,
        (Some(_), None) => false,
        (Some(x), Some(y)) => x.start() < y.start() || (x.start() == y.start()
            && x.granularity().rank() <= y.granularity().rank()),
    }
}

/// Whether upper endpoint `a` reaches at least as far up as `b`, the coarser
/// precision last among equal days. `None` is open.
pub open spec fn upper_reaches(a: Option<DateBound>, b: Option<DateBound>) -> bool {
    match (a, b) {
        (None, _) => true,
        (Some(_), None) => false,
        (Some(x), Some(y)) => x.end() > y.end() || (x.end() == y.end() && x.granularity().rank()
            >= y.granularity().rank()),
    }
}

/// Errors from [`TimeRange::new`].
#[derive(Debug, Clone, Copy, PartialEq, Eq, Structural)]
pub enum TimeRangeError {
    /// `earliest`'s period start is after `latest`'s period end.
    EndpointsInverted {
        /// The earliest endpoint, as supplied.
        earliest: DateBound,
        /// The latest endpoint, as supplied.
        latest: DateBound,
    },
}

/// A bounded interval over [`DateBound`] endpoints. Both endpoints are
/// optional; `None` denotes "open" on that side.
///
/// A constructed `TimeRange` is never inverted.
#[derive(Debug, Clone, Copy, PartialEq, Eq, PartialOrd, Ord, Hash, Structural)]
pub struct TimeRange {
    pub(super) earliest: Option<DateBound>,
    pub(super) latest: Option<DateBound>,
}

impl TimeRange {
    /// The lower endpoint.
    pub closed spec fn lower_bound(self) -> Option<DateBound> {
        self.earliest
    }

    /// The upper endpoint.
    pub closed spec fn upper_bound(self) -> Option<DateBound> {
        self.latest
    }

    /// The number of the first day, or `None` for an open lower side.
    pub open spec fn lower(self) -> Option<int> {
        match self.lower_bound() {
            Some(b) => Some(b.start()),
            None => None,
        }
    }

    /// The number of the last day, or `None` for an open upper side.
    pub open spec fn upper(self) -> Option<int> {
        match self.upper_bound() {
            Some(b) => Some(b.end()),
            None => None,
        }
    }

    /// Whether the day numbered `day` lies in this interval.
    pub open spec fn holds(self, day: int) -> bool {
        &&& self.lower() is Some ==> self.lower()->0 <= day
        &&& self.upper() is Some ==> day <= self.upper()->0
    }

    /// Whether the endpoints are well-formed and not inverted.
    #[verifier::type_invariant]
    pub open spec fn wf(self) -> bool {
        &&& self.lower_bound() is Some ==> self.lower_bound()->0.wf()
        &&& self.upper_bound() is Some ==> self.upper_bound()->0.wf()
            && self.upper_bound()->0.ends_in_calendar()
        &&& self.lower() is Some && self.upper() is Some ==> self.lower()->0 <= self.upper()->0
    }

    /// Construct a time range from optional endpoints. When both are present,
    /// `earliest`'s period start must not lie after `latest`'s period end.
    pub fn new(earliest: Option<DateBound>, latest: Option<DateBound>) -> (r: Result<
        Self,
        TimeRangeError,
    >)
        requires
            latest is Some ==> latest->0.ends_in_calendar(),
        ensures
            earliest is Some && latest is Some && earliest->0.start() > latest->0.end() ==> r
                == Err::<TimeRange, TimeRangeError>(
                TimeRangeError::EndpointsInverted { earliest: earliest->0, latest: latest->0 },
            ),
            !(earliest is Some && latest is Some && earliest->0.start() > latest->0.end())
                ==> r is Ok,
            r is Ok ==> {
                &&& r->Ok_0.lower_bound() == earliest
                &&& r->Ok_0.upper_bound() == latest
                &&& r->Ok_0.wf()
            },
    {
        proof {
            reveal(DateBound::start);
            reveal(DateBound::end);
        }
        if let Some(e) = &earliest {
            proof {
                use_type_invariant(e);
            }
        }
        if let Some(l) = &latest {
            proof {
                use_type_invariant(l);
            }
        }
        if let (Some(e), Some(l)) = (earliest, latest) {
            if l.period_end().is_before(&e.period_start()) {
                return Err(TimeRangeError::EndpointsInverted { earliest: e, latest: l });
            }
        }
        Ok(TimeRange { earliest, latest })
    }

    /// The interval that is open on both ends.
    pub fn unbounded() -> (r: Self)
        ensures
            r.lower_bound() is None,
            r.upper_bound() is None,
            r.wf(),
    {
        TimeRange { earliest: None, latest: None }
    }

    /// The earliest-bound endpoint, when set.
    pub fn earliest(&self) -> (r: Option<&DateBound>)
        ensures
            r is Some <==> self.lower_bound() is Some,
            r is Some ==> *r->0 == self.lower_bound()->0,
    {
        self.earliest.as_ref()
    }

    /// The latest-bound endpoint, when set.
    pub fn latest(&self) -> (r: Option<&DateBound>)
        ensures
            r is Some <==> self.upper_bound() is Some,
            r is Some ==> *r->0 == self.upper_bound()->0,
    {
        self.latest.as_ref()
    }

    /// True if `date` falls within this time range, inclusive of both endpoint
    /// periods.
    pub fn contains(&self, date: CalendarDate) -> (r: bool)
        requires
            date.valid(),
        ensures
            r == self.holds(date.day_number()),
    {
        proof {
            use_type_invariant(self);
        }
        let lower_ok = match self.lower_day() {
            Some(lower) => !date.is_before(&lower),
            None => true,
        };
        let upper_ok = match self.upper_day() {
            Some(upper) => !upper.is_before(&date),
            None => true,
        };
        lower_ok && upper_ok
    }

    /// The lower endpoint as a day, or `None` for an open lower side.
    fn lower_day(&self) -> (r: Option<CalendarDate>)
        requires
            self.wf(),
        ensures
            r is Some <==> self.lower() is Some,
            r is Some ==> r->0.valid() && r->0.day_number() == self.lower()->0,
    {
        proof {
            reveal(DateBound::start);
            reveal(DateBound::end);
        }
        match self.earliest {
            Some(b) => Some(b.period_start()),
            None => None,
        }
    }

    /// The upper endpoint as a day, or `None` for an open upper side.
    fn upper_day(&self) -> (r: Option<CalendarDate>)
        requires
            self.wf(),
        ensures
            r is Some <==> self.upper() is Some,
            r is Some ==> r->0.valid() && r->0.day_number() == self.upper()->0,
    {
        proof {
            reveal(DateBound::start);
            reveal(DateBound::end);
        }
        match self.latest {
            Some(b) => Some(b.period_end()),
            None => None,
        }
    }
}

/// The interval with these endpoints.
pub closed spec fn range_between(lower: Option<DateBound>, upper: Option<DateBound>) -> TimeRange {
    TimeRange { earliest: lower, latest: upper }
}

/// An interval is its two endpoints.
pub broadcast proof fn lemma_range_between(lower: Option<DateBound>, upper: Option<DateBound>)
    ensures
        (#[trigger] range_between(lower, upper)).lower_bound() == lower,
        range_between(lower, upper).upper_bound() == upper,
{
}

/// Intervals with equal endpoints are equal.
pub proof fn lemma_range_by_bounds(a: TimeRange, b: TimeRange)
    requires
        a.lower_bound() == b.lower_bound(),
        a.upper_bound() == b.upper_bound(),
    ensures
        a == b,
{
}

/// Whether at least one day lies between the end of `a` and the start of `b`.
pub open spec fn separated(a: TimeRange, b: TimeRange) -> bool {
    a.upper() is Some && b.lower() is Some && a.upper()->0 + 1 < b.lower()->0
}

/// The common part of two intervals, written with the more restrictive
/// endpoint on each side.
pub open spec fn overlap(a: TimeRange, b: TimeRange) -> TimeRange {
    range_between(
        if lower_reaches(a.lower_bound(), b.lower_bound()) {
            b.lower_bound()
        } else {
            a.lower_bound()
        },
        if upper_reaches(a.upper_bound(), b.upper_bound()) {
            b.upper_bound()
        } else {
            a.upper_bound()
        },
    )
}

/// Whether two intervals have no day in common.
pub open spec fn disjoint(a: TimeRange, b: TimeRange) -> bool {
    let o = overlap(a, b);
    o.lower() is Some && o.upper() is Some && o.lower()->0 > o.upper()->0
}

/// The smallest interval that holds two intervals, written with the less
/// restrictive endpoint on each side.
pub open spec fn span(a: TimeRange, b: TimeRange) -> TimeRange {
    range_between(
        if lower_reaches(a.lower_bound(), b.lower_bound()) {
            a.lower_bound()
        } else {
            b.lower_bound()
        },
        if upper_reaches(a.upper_bound(), b.upper_bound()) {
            a.upper_bound()
        } else {
            b.upper_bound()
        },
    )
}

/// Whether `a` starts before `b`, or starts with it and ends before it. An
/// open lower side starts first, an open upper side ends last.
pub open spec fn span_before(a: TimeRange, b: TimeRange) -> bool {
    ||| b.lower() is Some && (a.lower() is None || a.lower()->0 < b.lower()->0)
    ||| a.lower() == b.lower() && a.upper() is Some && (b.upper() is None || a.upper()->0
        < b.upper()->0)
}

impl TimeRange {
    /// Orders intervals by lower endpoint first, then upper: an open lower
    /// sorts first, an open upper sorts last. This total order lets the union
    /// canonicalizer coalesce in a single forward sweep.
    pub(super) fn cmp_by_span(&self, other: &Self) -> (r: core::cmp::Ordering)
        requires
            self.wf(),
            other.wf(),
        ensures
            r is Less <==> span_before(*self, *other),
            r is Greater <==> span_before(*other, *self),
            r is Equal <==> self.lower() == other.lower() && self.upper() == other.upper(),
    {
        match (self.lower_day(), other.lower_day()) {
            (None, Some(_)) => return core::cmp::Ordering::Less,
            (Some(_), None) => return core::cmp::Ordering::Greater,
            (Some(a), Some(b)) => {
                if a.is_before(&b) {
                    return core::cmp::Ordering::Less;
                }
                if b.is_before(&a) {
                    return core::cmp::Ordering::Greater;
                }
            },
            (None, None) => {},
        }
        match (self.upper_day(), other.upper_day()) {
            (None, None) => core::cmp::Ordering::Equal,
            (None, Some(_)) => core::cmp::Ordering::Greater,
            (Some(_), None) => core::cmp::Ordering::Less,
            (Some(a), Some(b)) => if a.is_before(&b) {
                core::cmp::Ordering::Less
            } else if b.is_before(&a) {
                core::cmp::Ordering::Greater
            } else {
                core::cmp::Ordering::Equal
            },
        }
    }

    /// Whether this interval sorts strictly before `other`.
    pub(super) fn sorts_before(&self, other: &Self) -> (r: bool)
        requires
            self.wf(),
            other.wf(),
        ensures
            r == span_before(*self, *other),
    {
        match self.cmp_by_span(other) {
            core::cmp::Ordering::Less => true,
            _ => false,
        }
    }

    /// The merge predicate the union canonicalizer sweeps with: whether no day
    /// lies between the end of `self` and the start of `other`.
    pub(super) fn adjacent_or_overlapping(&self, other: &Self) -> (r: bool)
        requires
            self.wf(),
            other.wf(),
        ensures
            r == !separated(*self, *other),
    {
        let upper = match self.upper_day() {
            Some(upper) => upper,
            // An open upper end absorbs everything ordered after it.
            None => return true,
        };
        match other.lower_day() {
            // An open lower end overlaps.
            None => true,
            Some(lower) => {
                if !upper.is_before(&lower) {
                    return true;
                }
                proof {
                    lemma_day_after(upper);
                    lemma_order(upper, lower);
                    lemma_order(lower, upper.day_after());
                }
                match upper.succ_opt() {
                    Some(next) => next == lower,
                    None => false,
                }
            },
        }
    }

    /// Intersection of two ranges, or `None` when they are disjoint. Selects
    /// bounds from the inputs.
    pub(super) fn intersect(&self, other: &Self) -> (r: Option<Self>)
        requires
            self.wf(),
            other.wf(),
        ensures
            r is None <==> disjoint(*self, *other),
            r is Some ==> r->0 == overlap(*self, *other) && r->0.wf(),
    {
        broadcast use lemma_range_between;

        let earliest = tighten_earliest(&self.earliest, &other.earliest);
        let latest = tighten_latest(&self.latest, &other.latest);
        let ghost out = overlap(*self, *other);
        assert(out.lower_bound() == earliest && out.upper_bound() == latest);
        proof {
            reveal(DateBound::start);
            reveal(DateBound::end);
        }
        if let (Some(e), Some(l)) = (earliest, latest) {
            if l.period_end().is_before(&e.period_start()) {
                return None;
            }
        }
        Some(TimeRange { earliest, latest })
    }

    /// Span of two ranges: the smallest range containing both. Selects bounds
    /// from the inputs; an open side stays open.
    pub(super) fn join(&self, other: &Self) -> (r: Self)
        requires
            self.wf(),
            other.wf(),
        ensures
            r == span(*self, *other),
            r.wf(),
    {
        broadcast use lemma_range_between;

        TimeRange {
            earliest: widen_earliest(&self.earliest, &other.earliest),
            latest: widen_latest(&self.latest, &other.latest),
        }
    }
}

impl DateBound {
    /// Whether this bound orders before `other` as a lower endpoint: by first
    /// day, then by precision.
    fn lower_key_less(&self, other: &Self) -> (r: bool)
        requires
            self.wf(),
            other.wf(),
        ensures
            r == !lower_reaches(Some(*other), Some(*self)),
    {
        proof {
            reveal(DateBound::start);
            reveal(DateBound::end);
        }
        let a = self.period_start();
        let b = other.period_start();
        a.is_before(&b) || (!b.is_before(&a) && self.precision.level() < other.precision.level())
    }

    /// Whether this bound orders before `other` as an upper endpoint: by last
    /// day, then by precision.
    fn upper_key_less(&self, other: &Self) -> (r: bool)
        requires
            self.wf(),
            other.wf(),
            self.ends_in_calendar(),
            other.ends_in_calendar(),
        ensures
            r == !upper_reaches(Some(*self), Some(*other)),
    {
        proof {
            reveal(DateBound::start);
            reveal(DateBound::end);
        }
        let a = self.period_end();
        let b = other.period_end();
        a.is_before(&b) || (!b.is_before(&a) && self.precision.level() < other.precision.level())
    }
}

spec fn bound_wf(b: Option<DateBound>) -> bool {
    b is Some ==> b->0.wf()
}

spec fn end_wf(b: Option<DateBound>) -> bool {
    b is Some ==> b->0.wf() && b->0.ends_in_calendar()
}

/// Tighten for a meet: `Some` wins over `None`. Picks the more restrictive
/// bound.
fn tighten_earliest(a: &Option<DateBound>, b: &Option<DateBound>) -> (r: Option<DateBound>)
    requires
        bound_wf(*a),
        bound_wf(*b),
    ensures
        r == (if lower_reaches(*a, *b) {
            *b
        } else {
            *a
        }),
{
    match (*a, *b) {
        (Some(x), Some(y)) => if y.lower_key_less(&x) {
            Some(x)
        } else {
            Some(y)
        },
        (Some(x), None) => Some(x),
        (None, y) => y,
    }
}

fn tighten_latest(a: &Option<DateBound>, b: &Option<DateBound>) -> (r: Option<DateBound>)
    requires
        end_wf(*a),
        end_wf(*b),
    ensures
        r == (if upper_reaches(*a, *b) {
            *b
        } else {
            *a
        }),
{
    match (*a, *b) {
        (Some(x), Some(y)) => if x.upper_key_less(&y) {
            Some(x)
        } else {
            Some(y)
        },
        (Some(x), None) => Some(x),
        (None, y) => y,
    }
}

/// Widen for a join: `None` wins over `Some`. Picks the less restrictive
/// bound.
fn widen_earliest(a: &Option<DateBound>, b: &Option<DateBound>) -> (r: Option<DateBound>)
    requires
        bound_wf(*a),
        bound_wf(*b),
    ensures
        r == (if lower_reaches(*a, *b) {
            *a
        } else {
            *b
        }),
{
    match (*a, *b) {
        (Some(x), Some(y)) => if y.lower_key_less(&x) {
            Some(y)
        } else {
            Some(x)
        },
        _ => None,
    }
}

fn widen_latest(a: &Option<DateBound>, b: &Option<DateBound>) -> (r: Option<DateBound>)
    requires
        end_wf(*a),
        end_wf(*b),
    ensures
        r == (if upper_reaches(*a, *b) {
            *a
        } else {
            *b
        }),
{
    match (*a, *b) {
        (Some(x), Some(y)) => if x.upper_key_less(&y) {
            Some(y)
        } else {
            Some(x)
        },
        _ => None,
    }
}

impl From<TimeRangeError> for DateError {
    /// Inverted endpoints are an inverted range.
    fn from(err: TimeRangeError) -> (r: Self) {
        match err {
            TimeRangeError::EndpointsInverted { .. } => DateError::InvertedRange,
        }
    }
}

impl vstd::std_specs::convert::FromSpecImpl<TimeRangeError> for DateError {
    open spec fn obeys_from_spec() -> bool {
        true
    }

    open spec fn from_spec(err: TimeRangeError) -> DateError {
        DateError::InvertedRange
    }
}

// --- Intervals by their days ---

/// The common part of two intervals holds the days that both hold, and there is one
/// exactly where some day is in both.
pub proof fn law_common_part_holds_common_days(a: TimeRange, b: TimeRange)
    requires
        a.wf(),
        b.wf(),
    ensures
        forall|day: int| #[trigger] overlap(a, b).holds(day) <==> a.holds(day) && b.holds(day),
        disjoint(a, b) <==> forall|day: int| !(#[trigger] a.holds(day) && b.holds(day)),
{
    broadcast use lemma_range_between;

    let o = overlap(a, b);
    assert forall|day: int| #[trigger] o.holds(day) <==> a.holds(day) && b.holds(day) by {}
    if !disjoint(a, b) {
        let day = match (o.lower(), o.upper()) {
            (Some(lower), _) => lower,
            (None, Some(upper)) => upper,
            (None, None) => 0,
        };
        assert(o.holds(day));
        assert(a.holds(day) && b.holds(day));
    } else {
        assert forall|day: int| !(#[trigger] a.holds(day) && b.holds(day)) by {
            assert(!o.holds(day));
        }
    }
}

/// The joined interval holds the days of both and those between them, and no other.
pub proof fn law_joined_interval_holds_both(a: TimeRange, b: TimeRange)
    requires
        a.wf(),
        b.wf(),
    ensures
        forall|day: int| #[trigger] a.holds(day) || b.holds(day) ==> span(a, b).holds(day),
        forall|day: int| #[trigger]
            span(a, b).holds(day) ==> (exists|before: int|
                before <= day && #[trigger] in_either(a, b, before)) && (exists|after: int|
                day <= after && #[trigger] in_either(a, b, after)),
{
    broadcast use lemma_range_between;

    let s = span(a, b);
    assert forall|day: int| #[trigger] s.holds(day) implies (exists|before: int|
        before <= day && #[trigger] in_either(a, b, before)) && (exists|after: int|
        day <= after && #[trigger] in_either(a, b, after)) by {
        let x = lemma_day_by(a, day);
        let y = lemma_day_by(b, day);
        let low = if lower_reaches(a.lower_bound(), b.lower_bound()) {
            x.0
        } else {
            y.0
        };
        let high = if upper_reaches(a.upper_bound(), b.upper_bound()) {
            x.1
        } else {
            y.1
        };
        assert(in_either(a, b, low));
        assert(in_either(a, b, high));
    }
}

/// Whether a day is in one of two intervals.
pub open spec fn in_either(a: TimeRange, b: TimeRange, day: int) -> bool {
    a.holds(day) || b.holds(day)
}

/// A day of an interval no later than `day`, where it starts by then, and one no
/// earlier, where it ends then or later.
proof fn lemma_day_by(r: TimeRange, day: int) -> (s: (int, int))
    requires
        r.wf(),
    ensures
        r.holds(s.0),
        r.holds(s.1),
        (r.lower() is Some ==> r.lower()->0 <= day) ==> s.0 <= day,
        (r.upper() is Some ==> day <= r.upper()->0) ==> day <= s.1,
{
    let low = match (r.lower(), r.upper()) {
        (Some(lower), _) => lower,
        (None, Some(upper)) => if upper < day {
            upper
        } else {
            day
        },
        (None, None) => day,
    };
    let high = match (r.upper(), r.lower()) {
        (Some(upper), _) => upper,
        (None, Some(lower)) => if day < lower {
            lower
        } else {
            day
        },
        (None, None) => day,
    };
    (low, high)
}

/// Of two intervals the first lies before the second and does not touch it exactly
/// where some day comes after all days of the first and before all days of the second.
pub proof fn law_separated_by_a_day(a: TimeRange, b: TimeRange)
    requires
        a.wf(),
        b.wf(),
    ensures
        separated(a, b) <==> exists|gap: int|
            (forall|day: int| #[trigger] a.holds(day) ==> day < gap) && (forall|day: int| #[trigger]
                b.holds(day) ==> gap < day) && #[trigger] is_day_number(gap),
{
    if separated(a, b) {
        let gap = a.upper()->0 + 1;
        assert(is_day_number(gap));
        assert forall|day: int| #[trigger] a.holds(day) implies day < gap by {}
        assert forall|day: int| #[trigger] b.holds(day) implies gap < day by {}
    }
    if exists|gap: int|
        (forall|day: int| #[trigger] a.holds(day) ==> day < gap) && (forall|day: int| #[trigger]
            b.holds(day) ==> gap < day) && #[trigger] is_day_number(gap) {
        let gap = choose|gap: int|
            (forall|day: int| #[trigger] a.holds(day) ==> day < gap) && (forall|day: int| #[trigger]
                b.holds(day) ==> gap < day) && #[trigger] is_day_number(gap);
        let x = lemma_day_by(a, gap);
        let y = lemma_day_by(b, gap);
        assert(a.holds(x.1) && b.holds(y.0));
        assert(a.upper() is Some && b.lower() is Some);
        assert(a.holds(a.upper()->0));
        assert(b.holds(b.lower()->0));
    }
}

/// Every whole number numbers a day.
pub open spec fn is_day_number(day: int) -> bool {
    true
}

/// Where two intervals start on the same day, their common part starts with the coarser
/// of the two bounds and what joins them with the finer; where they end on the same day
/// it is the other way round.
pub proof fn law_bounds_of_the_same_day(a: TimeRange, b: TimeRange)
    requires
        a.wf(),
        b.wf(),
    ensures
        a.lower() is Some && a.lower() == b.lower() ==> {
            let x = a.lower_bound()->0.granularity().rank();
            let y = b.lower_bound()->0.granularity().rank();
            let o = overlap(a, b).lower_bound()->0.granularity().rank();
            let s = span(a, b).lower_bound()->0.granularity().rank();
            o >= x && o >= y && (o == x || o == y) && s <= x && s <= y && (s == x || s == y)
        },
        a.upper() is Some && a.upper() == b.upper() ==> {
            let x = a.upper_bound()->0.granularity().rank();
            let y = b.upper_bound()->0.granularity().rank();
            let o = overlap(a, b).upper_bound()->0.granularity().rank();
            let s = span(a, b).upper_bound()->0.granularity().rank();
            o <= x && o <= y && (o == x || o == y) && s >= x && s >= y && (s == x || s == y)
        },
{
    broadcast use lemma_range_between;

}

/// Whether the interval holds a day before every day that the other holds.
pub open spec fn begins_first(a: TimeRange, b: TimeRange) -> bool {
    exists|day: int| #[trigger] a.holds(day) && comes_before_all(day, b)
}

/// Whether the interval holds a day after every day that the other holds.
pub open spec fn ends_later(a: TimeRange, b: TimeRange) -> bool {
    exists|day: int| #[trigger] a.holds(day) && comes_after_all(day, b)
}

/// Whether the day is before every day that the interval holds.
pub open spec fn comes_before_all(day: int, r: TimeRange) -> bool {
    forall|other: int| #[trigger] r.holds(other) ==> day < other
}

/// Whether the day is after every day that the interval holds.
pub open spec fn comes_after_all(day: int, r: TimeRange) -> bool {
    forall|other: int| #[trigger] r.holds(other) ==> other < day
}

/// A first day, where there is one, is held, and a last one too.
proof fn lemma_ends_are_held(r: TimeRange)
    requires
        r.wf(),
    ensures
        r.lower() is Some ==> r.holds(r.lower()->0),
        r.upper() is Some ==> r.holds(r.upper()->0),
{
}

/// One interval begins before another exactly where it holds a day before all of its
/// days.
proof fn lemma_begins_first(a: TimeRange, b: TimeRange)
    requires
        a.wf(),
        b.wf(),
    ensures
        begins_first(a, b) <==> b.lower() is Some && (a.lower() is None || a.lower()->0
            < b.lower()->0),
{
    lemma_ends_are_held(a);
    lemma_ends_are_held(b);
    if b.lower() is Some && (a.lower() is None || a.lower()->0 < b.lower()->0) {
        let bound = b.lower()->0;
        let day = if a.lower() is Some {
            a.lower()->0
        } else if a.upper() is Some && a.upper()->0 < bound {
            a.upper()->0
        } else {
            bound - 1
        };
        assert(a.holds(day));
        assert(comes_before_all(day, b));
    }
    if begins_first(a, b) {
        let day = choose|day: int| #[trigger] a.holds(day) && comes_before_all(day, b);
        if b.lower() is None {
            let low = if b.upper() is Some && b.upper()->0 < day {
                b.upper()->0
            } else {
                day
            };
            assert(b.holds(low));
        } else {
            assert(b.holds(b.lower()->0));
        }
    }
}

/// One interval ends after another exactly where it holds a day after all of its days.
proof fn lemma_ends_later(a: TimeRange, b: TimeRange)
    requires
        a.wf(),
        b.wf(),
    ensures
        ends_later(a, b) <==> b.upper() is Some && (a.upper() is None || a.upper()->0
            > b.upper()->0),
{
    lemma_ends_are_held(a);
    lemma_ends_are_held(b);
    if b.upper() is Some && (a.upper() is None || a.upper()->0 > b.upper()->0) {
        let bound = b.upper()->0;
        let day = if a.upper() is Some {
            a.upper()->0
        } else if a.lower() is Some && a.lower()->0 > bound {
            a.lower()->0
        } else {
            bound + 1
        };
        assert(a.holds(day));
        assert(comes_after_all(day, b));
    }
    if ends_later(a, b) {
        let day = choose|day: int| #[trigger] a.holds(day) && comes_after_all(day, b);
        if b.upper() is None {
            let high = if b.lower() is Some && b.lower()->0 > day {
                b.lower()->0
            } else {
                day
            };
            assert(b.holds(high));
        } else {
            assert(b.holds(b.upper()->0));
        }
    }
}

/// Intervals are ordered by the days they hold: one comes before another exactly where it
/// holds a day before all of its days or, where neither does, the other holds a day after
/// all of its own.
pub proof fn law_intervals_are_ordered_by_their_days(a: TimeRange, b: TimeRange)
    requires
        a.wf(),
        b.wf(),
    ensures
        span_before(a, b) <==> begins_first(a, b) || (!begins_first(b, a) && ends_later(b, a)),
{
    lemma_begins_first(a, b);
    lemma_begins_first(b, a);
    lemma_ends_later(b, a);
}

} // verus!
