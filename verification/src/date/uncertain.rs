//! [`UncertainDate`], the bounded lattice of date claims.
use vstd::prelude::*;

use super::canonical::{
    all_wf, canonical, canonical_form, coalesces, day_in, lemma_canonical_form,
    lemma_coalesce_canonical, lemma_coalesce_set, lemma_coalesce_stages, lemma_day_held_by,
    lemma_day_in, lemma_days_determine_spans, lemma_members_swap, lemma_spans_determine_days,
    same_days, same_members, same_spans, some_day, CanonicalRanges,
};
use super::overlap::{
    common_parts, common_with, lemma_common_associative, lemma_common_commutative,
    lemma_common_days, lemma_common_idempotent, lemma_common_unbounded, lemma_common_wf,
    lemma_form_of_members,
};
use super::precision::{
    period_end_representable, period_first_day, period_last_day, period_start_representable,
    DatePrecision,
};
use super::range::{
    lemma_bound, lemma_range_between, lemma_range_by_bounds, range_between, DateBound,
    TimeRange,
};
use super::DateError;
use crate::algebra::lattice::{BoundedLattice, JoinSemilattice, MeetSemilattice};
use crate::algebra::monoid::CommutativeMonoid;
use crate::calendar::CalendarDate;

verus! {

broadcast use lemma_range_between;

/// A date with uncertainty: a canonical union of disjoint [`TimeRange`]
/// intervals, each interpreted as "an unknown instant in time lies somewhere in
/// this interval".
///
/// Most claims are a single interval. The union exists so that joining
/// conflicting claims ("1925 or 1935") keeps them disjoint instead of inventing
/// the gap between them, and so that the meet of contradictory claims is the
/// empty union.
///
/// The intervals are sorted by lower endpoint, and any two that overlap or
/// touch are merged into one, so one logical date has one representation.
#[derive(Debug, PartialEq, Eq, PartialOrd, Ord, Hash)]
pub struct UncertainDate(CanonicalRanges);

impl View for UncertainDate {
    type V = Seq<TimeRange>;

    closed spec fn view(&self) -> Seq<TimeRange> {
        self.0@
    }
}

/// The interval that is open on both ends.
pub open spec fn everything() -> TimeRange {
    range_between(None, None)
}

/// The intersection of two unions of intervals.
pub open spec fn meet_of(a: Seq<TimeRange>, b: Seq<TimeRange>) -> Seq<TimeRange> {
    canonical_form(common_parts(a, b))
}

/// The union of two unions of intervals.
pub open spec fn join_of(a: Seq<TimeRange>, b: Seq<TimeRange>) -> Seq<TimeRange> {
    canonical_form(a + b)
}

/// The ends of a date lie in the calendar.
pub proof fn lemma_ends_valid(date: UncertainDate)
    requires
        date.wf(),
    ensures
        date@.len() > 0 && date@.first().lower_bound() is Some
            ==> date@.first().lower_bound()->0.first_day().valid(),
        date@.len() > 0 && date@.last().upper_bound() is Some
            ==> date@.last().upper_bound()->0.last_day().valid(),
{
    if date@.len() > 0 {
        let first = date@[0];
        let last = date@[date@.len() - 1];
        assert(first.wf() && last.wf());
        if last.upper_bound() is Some {
            lemma_bound(last.upper_bound()->0, last.upper_bound()->0);
        }
    }
}

impl Clone for UncertainDate {
    fn clone(&self) -> (r: Self)
        ensures
            r@ == self@,
    {
        proof {
            use_type_invariant(self);
        }
        let ranges = self.0.clone();
        UncertainDate(ranges)
    }
}

impl UncertainDate {
    /// The intervals are in canonical form.
    #[verifier::type_invariant]
    pub open spec fn wf(self) -> bool {
        canonical(self@)
    }

    /// Whether the day numbered `day` is a possible date.
    pub open spec fn allows(self, day: int) -> bool {
        day_in(self@, day)
    }

    /// Create an `UncertainDate` with symmetric bounds at the given precision.
    ///
    /// For example, `with_precision(2020-06-15, Year)` produces bounds where
    /// both earliest and latest are the year 2020. Returns
    /// `Err(DateError::Year0)` if the date has year 0.
    pub fn with_precision(date: CalendarDate, precision: DatePrecision) -> (r: Result<
        Self,
        DateError,
    >)
        requires
            date.valid(),
            date.year != 0 ==> period_start_representable(date, precision)
                && period_end_representable(date, precision),
        ensures
            date.year == 0 ==> r == Err::<UncertainDate, DateError>(DateError::Year0),
            date.year != 0 ==> r is Ok,
            r is Ok ==> {
                let u = r->Ok_0;
                &&& u.wf()
                &&& u@.len() == 1
                &&& u@[0].lower_bound() is Some
                &&& u@[0].upper_bound() == u@[0].lower_bound()
                &&& u@[0].lower_bound()->0.first_day() == period_first_day(date, precision)
                &&& u@[0].lower_bound()->0.last_day() == period_last_day(date, precision)
                &&& u@[0].lower_bound()->0.granularity() == precision
                &&& u@[0].holds(date.day_number())
            },
    {
        let bound = match DateBound::new(date, precision) {
            Ok(b) => b,
            Err(e) => return Err(e),
        };
        proof {
            super::precision::lemma_period(date, precision);
            lemma_bound(bound, bound);
            reveal(DateBound::start);
            reveal(DateBound::end);
        }
        match TimeRange::new(Some(bound), Some(bound)) {
            Ok(range) => Ok(Self::single(range)),
            Err(e) => Err(DateError::from(e)),
        }
    }

    /// Create an `UncertainDate` with explicit earliest and latest bounds.
    ///
    /// Either or both bounds may be `None` (unbounded). Returns
    /// `Err(DateError::InvertedRange)` if both bounds are present and the
    /// earliest bound's period start is after the latest bound's period end.
    pub fn bounded(earliest: Option<DateBound>, latest: Option<DateBound>) -> (r: Result<
        Self,
        DateError,
    >)
        requires
            latest is Some ==> latest->0.ends_in_calendar(),
        ensures
            earliest is Some && latest is Some && earliest->0.start() > latest->0.end() ==> r
                == Err::<UncertainDate, DateError>(DateError::InvertedRange),
            !(earliest is Some && latest is Some && earliest->0.start() > latest->0.end())
                ==> r is Ok,
            r is Ok ==> r->Ok_0.wf() && r->Ok_0@ == seq![range_between(earliest, latest)],
    {
        match TimeRange::new(earliest, latest) {
            Ok(range) => {
                proof {
                    lemma_range_by_bounds(range, range_between(earliest, latest));
                }
                Ok(Self::single(range))
            },
            Err(e) => Err(DateError::from(e)),
        }
    }

    /// The fully unbounded single interval, the top.
    pub fn unknown() -> (r: Self)
        ensures
            r.wf(),
            r@ == seq![everything()],
    {
        let range = TimeRange::unbounded();
        proof {
            lemma_range_by_bounds(range, everything());
        }
        Self::single(range)
    }

    /// The empty union, the bottom: "no possible date".
    pub fn empty() -> (r: Self)
        ensures
            r.wf(),
            r@ == Seq::<TimeRange>::empty(),
    {
        let ranges = CanonicalRanges::empty();
        proof {
            lemma_coalesce_canonical(ranges@);
        }
        UncertainDate(ranges)
    }

    /// A one-interval union.
    fn single(range: TimeRange) -> (r: Self)
        requires
            range.wf(),
        ensures
            r.wf(),
            r@ == seq![range],
    {
        let mut ranges: Vec<TimeRange> = Vec::new();
        ranges.push(range);
        proof {
            assert(ranges@ =~= seq![range]);
            lemma_coalesce_canonical(ranges@);
            lemma_canonical_form(ranges@);
        }
        Self::from_ranges(ranges)
    }

    /// Canonicalize an arbitrary collection of intervals into the disjoint,
    /// sorted, adjacency-merged union.
    pub fn from_ranges(ranges: Vec<TimeRange>) -> (r: Self)
        requires
            all_wf(ranges@),
        ensures
            r.wf(),
            r@ == canonical_form(ranges@),
            coalesces(ranges@, r@),
    {
        let ranges = CanonicalRanges::from_ranges(ranges);
        UncertainDate(ranges)
    }

    /// The disjoint intervals, in canonical order.
    pub fn intervals(&self) -> (r: &[TimeRange])
        ensures
            r@ == self@,
    {
        self.0.as_slice()
    }

    /// The single interval this date is, when it is exactly one: the only shape
    /// a stored fact may hold. `None` for the empty date or a disjunction.
    pub fn as_single_interval(&self) -> (r: Option<&TimeRange>)
        ensures
            r is Some <==> self@.len() == 1,
            r is Some ==> *r->0 == self@[0],
    {
        let all = self.0.as_slice();
        if all.len() == 1 {
            Some(&all[0])
        } else {
            None
        }
    }

    /// The earliest possible date across every interval, or `None` if the
    /// first interval is open on its lower side (or the union is empty).
    pub fn earliest(&self) -> (r: Option<CalendarDate>)
        ensures
            r is Some <==> self@.len() > 0 && self@.first().lower_bound() is Some,
            r is Some ==> r->0 == self@.first().lower_bound()->0.first_day(),
            r is Some ==> r->0.valid(),
    {
        match self.earliest_bound() {
            Some(b) => Some(b.period_start()),
            None => None,
        }
    }

    /// The latest possible date across every interval, or `None` if the last
    /// interval is open on its upper side (or the union is empty).
    pub fn latest(&self) -> (r: Option<CalendarDate>)
        ensures
            r is Some <==> self@.len() > 0 && self@.last().upper_bound() is Some,
            r is Some ==> r->0 == self@.last().upper_bound()->0.last_day(),
            r is Some ==> r->0.valid(),
    {
        proof {
            use_type_invariant(self);
        }
        match self.latest_bound() {
            Some(b) => Some(b.period_end()),
            None => None,
        }
    }

    /// The earliest bound (with precision) across every interval, if present.
    pub fn earliest_bound(&self) -> (r: Option<&DateBound>)
        ensures
            r is Some <==> self@.len() > 0 && self@.first().lower_bound() is Some,
            r is Some ==> *r->0 == self@.first().lower_bound()->0,
    {
        match self.0.first() {
            Some(range) => range.earliest(),
            None => None,
        }
    }

    /// The latest bound (with precision) across every interval, if present.
    pub fn latest_bound(&self) -> (r: Option<&DateBound>)
        ensures
            r is Some <==> self@.len() > 0 && self@.last().upper_bound() is Some,
            r is Some ==> *r->0 == self@.last().upper_bound()->0,
    {
        match self.0.last() {
            Some(range) => range.latest(),
            None => None,
        }
    }

    /// Whether two dates share any instant: true iff their meet is not empty.
    pub fn overlaps(&self, other: &Self) -> (r: bool)
        ensures
            r == (meet_of(self@, other@).len() > 0),
            r == (exists|day: int| #[trigger] self.allows(day) && other.allows(day)),
    {
        let common = UncertainDate::meet(self, other);
        let r = !common.is_empty();
        proof {
            use_type_invariant(self);
            use_type_invariant(other);
            lemma_meet(self@, other@);
            if r {
                let day = some_day(common@[0]);
                assert(common@[0].holds(day));
                lemma_day_in(common@, 0, day);
                assert(self.allows(day) && other.allows(day));
            }
            if exists|day: int| #[trigger] self.allows(day) && other.allows(day) {
                let day = choose|day: int| #[trigger] self.allows(day) && other.allows(day);
                assert(day_in(common@, day));
                let i = lemma_day_held_by(common@, day);
            }
        }
        r
    }

    /// Whether this is the fully unbounded single interval.
    fn is_unknown(&self) -> (r: bool)
        ensures
            r == (self@ == seq![everything()]),
    {
        match self.as_single_interval() {
            Some(range) => {
                let open = range.earliest().is_none() && range.latest().is_none();
                proof {
                    if open {
                        lemma_range_by_bounds(*range, everything());
                        assert(self@ =~= seq![everything()]);
                    }
                }
                open
            },
            None => false,
        }
    }

    /// Whether this is the empty union.
    pub fn is_empty(&self) -> (r: bool)
        ensures
            r == (self@.len() == 0),
            r == (self@ == Seq::<TimeRange>::empty()),
    {
        let r = self.0.as_slice().len() == 0;
        assert(r ==> self@ =~= Seq::<TimeRange>::empty());
        r
    }

    /// Set intersection: the meet in the lattice. Contradictory claims
    /// intersect to [`empty`](Self::empty).
    ///
    /// Intersects every interval of `self` with every interval of `other`, then
    /// canonicalizes. Selects bounds from the inputs.
    pub fn meet(&self, other: &Self) -> (r: Self)
        ensures
            r.wf(),
            r@ == meet_of(self@, other@),
            forall|day: int| #[trigger] r.allows(day) <==> self.allows(day) && other.allows(day),
    {
        proof {
            use_type_invariant(self);
            use_type_invariant(other);
            lemma_meet(self@, other@);
        }
        if self.is_unknown() {
            proof {
                lemma_common_unbounded(other@);
                lemma_common_commutative(self@, other@);
            }
            return other.clone();
        }
        if other.is_unknown() {
            proof {
                lemma_common_unbounded(self@);
            }
            return self.clone();
        }
        let mut pieces: Vec<TimeRange> = Vec::new();
        let left = self.intervals();
        let right = other.intervals();
        let mut i: usize = 0;
        while i < left.len()
            invariant
                i <= left@.len(),
                all_wf(left@),
                all_wf(right@),
                pieces@ == common_parts(left@.take(i as int), right@),
            decreases left.len() - i,
        {
            let ghost row_start = pieces@;
            let mut j: usize = 0;
            proof {
                assert(right@.take(0) =~= Seq::empty());
                assert(row_start + Seq::<TimeRange>::empty() =~= row_start);
            }
            while j < right.len()
                invariant
                    i < left@.len(),
                    j <= right@.len(),
                    all_wf(left@),
                    all_wf(right@),
                    pieces@ == row_start + common_with(left@[i as int], right@.take(j as int)),
                decreases right.len() - j,
            {
                proof {
                    assert(right@.take(j + 1).drop_last() =~= right@.take(j as int));
                    assert(right@.take(j + 1).last() == right@[j as int]);
                }
                if let Some(piece) = left[i].intersect(&right[j]) {
                    pieces.push(piece);
                    assert(pieces@ =~= row_start + common_with(
                        left@[i as int],
                        right@.take(j + 1),
                    ));
                }
                j += 1;
            }
            proof {
                assert(right@.take(j as int) =~= right@);
                assert(left@.take(i + 1).drop_last() =~= left@.take(i as int));
                assert(left@.take(i + 1).last() == left@[i as int]);
            }
            i += 1;
        }
        proof {
            assert(left@.take(i as int) =~= left@);
            lemma_common_wf(self@, other@);
        }
        Self::from_ranges(pieces)
    }

    /// Set union: the join in the lattice. Disjoint claims stay disjoint, so no
    /// gap is invented between conflicting dates.
    pub fn join(&self, other: &Self) -> (r: Self)
        ensures
            r.wf(),
            r@ == join_of(self@, other@),
            forall|day: int| #[trigger] r.allows(day) <==> self.allows(day) || other.allows(day),
    {
        proof {
            use_type_invariant(self);
            use_type_invariant(other);
            lemma_join(self@, other@);
            lemma_coalesce_canonical(self@);
            lemma_coalesce_canonical(other@);
            lemma_canonical_form(self@);
            lemma_canonical_form(other@);
        }
        if self.is_empty() {
            assert(self@ + other@ =~= other@);
            return other.clone();
        }
        if other.is_empty() {
            assert(self@ + other@ =~= self@);
            return self.clone();
        }
        let mut pieces: Vec<TimeRange> = Vec::new();
        let left = self.intervals();
        let mut i: usize = 0;
        while i < left.len()
            invariant
                i <= left@.len(),
                pieces@ == left@.take(i as int),
            decreases left.len() - i,
        {
            pieces.push(left[i]);
            assert(left@.take(i + 1) =~= left@.take(i as int).push(left@[i as int]));
            i += 1;
        }
        assert(left@.take(i as int) =~= left@);
        let right = other.intervals();
        let mut j: usize = 0;
        assert(left@ + right@.take(0) =~= left@);
        while j < right.len()
            invariant
                j <= right@.len(),
                pieces@ == left@ + right@.take(j as int),
            decreases right.len() - j,
        {
            pieces.push(right[j]);
            assert(left@ + right@.take(j + 1) =~= (left@ + right@.take(j as int)).push(
                right@[j as int],
            ));
            j += 1;
        }
        assert(right@.take(j as int) =~= right@);
        Self::from_ranges(pieces)
    }
}

/// The meet holds exactly the common days.
pub proof fn lemma_meet(a: Seq<TimeRange>, b: Seq<TimeRange>)
    requires
        canonical(a),
        canonical(b),
    ensures
        canonical(meet_of(a, b)),
        forall|day: int| #[trigger] day_in(meet_of(a, b), day) <==> day_in(a, day) && day_in(b, day),
{
    lemma_common_wf(a, b);
    lemma_canonical_form(common_parts(a, b));
    lemma_common_days(a, b);
    assert forall|day: int| #[trigger] day_in(meet_of(a, b), day) <==> day_in(a, day) && day_in(
        b,
        day,
    ) by {
        assert(day_in(common_parts(a, b), day) <==> day_in(meet_of(a, b), day));
    }
}

/// The join holds the days of either operand.
pub proof fn lemma_join(a: Seq<TimeRange>, b: Seq<TimeRange>)
    requires
        canonical(a),
        canonical(b),
    ensures
        all_wf(a + b),
        canonical(join_of(a, b)),
        forall|day: int| #[trigger] day_in(join_of(a, b), day) <==> day_in(a, day) || day_in(b, day),
{
    let both = a + b;
    assert(all_wf(both));
    lemma_canonical_form(both);
    assert forall|day: int| #[trigger] day_in(join_of(a, b), day) <==> day_in(a, day) || day_in(
        b,
        day,
    ) by {
        assert(day_in(both, day) <==> day_in(join_of(a, b), day));
        if day_in(both, day) {
            let i = lemma_day_held_by(both, day);
            if i < a.len() {
                lemma_day_in(a, i, day);
            } else {
                lemma_day_in(b, i - a.len(), day);
            }
        }
        if day_in(a, day) {
            let i = lemma_day_held_by(a, day);
            assert(both[i] == a[i]);
            lemma_day_in(both, i, day);
        }
        if day_in(b, day) {
            let i = lemma_day_held_by(b, day);
            assert(both[a.len() + i] == b[i]);
            lemma_day_in(both, a.len() + i, day);
        }
    }
}

/// The join half of the date lattice. The fold of `join_all` starts from the
/// empty date, so a real bound is never lost.
impl CommutativeMonoid for UncertainDate {
    open spec fn valid(m: Seq<TimeRange>) -> bool {
        canonical(m)
    }

    open spec fn identity_model() -> Seq<TimeRange> {
        Seq::empty()
    }

    open spec fn combine_model(a: Seq<TimeRange>, b: Seq<TimeRange>) -> Seq<TimeRange> {
        join_of(a, b)
    }

    proof fn law_identity_valid() {
    }

    proof fn law_combine_valid(a: Seq<TimeRange>, b: Seq<TimeRange>) {
        lemma_join(a, b);
    }

    proof fn law_combine_commutative(a: Seq<TimeRange>, b: Seq<TimeRange>) {
        lemma_join(a, b);
        lemma_join(b, a);
        lemma_members_swap(a, b);
        lemma_form_of_members(a + b, b + a);
    }

    proof fn law_combine_associative(
        a: Seq<TimeRange>,
        b: Seq<TimeRange>,
        c: Seq<TimeRange>,
    ) {
        lemma_join(a, b);
        lemma_join(b, c);
        let ab = join_of(a, b);
        let bc = join_of(b, c);
        lemma_join(ab, c);
        lemma_join(a, bc);
        let all = a + b + c;
        assert(all_wf(all));
        lemma_canonical_form(all);
        // a + (b + c)
        lemma_canonical_form(b + c);
        lemma_canonical_form(a + bc);
        lemma_coalesce_stages(b + c, bc, a, join_of(a, bc));
        assert(a + (b + c) =~= all);
        // (a + b) + c
        lemma_canonical_form(a + b);
        lemma_canonical_form(ab + c);
        lemma_members_swap(ab, c);
        lemma_coalesce_set(ab + c, c + ab, join_of(ab, c));
        lemma_coalesce_stages(a + b, ab, c, join_of(ab, c));
        lemma_members_swap(c, a + b);
        lemma_coalesce_set(c + (a + b), (a + b) + c, join_of(ab, c));
    }

    proof fn law_combine_identity(a: Seq<TimeRange>) {
        assert(a + Seq::<TimeRange>::empty() =~= a);
        lemma_coalesce_canonical(a);
        lemma_canonical_form(a);
    }

    fn identity() -> (r: Self) {
        UncertainDate::empty()
    }

    fn combine(self, other: Self) -> (r: Self) {
        UncertainDate::join(&self, &other)
    }
}

impl JoinSemilattice for UncertainDate {
    open spec fn is_bottom_model(m: Seq<TimeRange>) -> bool {
        m.len() == 0
    }

    proof fn law_join_idempotent(a: Seq<TimeRange>) {
        lemma_join(a, a);
        let twice = a + a;
        assert forall|i: int| 0 <= i < twice.len() implies a.contains(#[trigger] twice[i]) by {
            assert(twice[i] == a[if i < a.len() {
                i
            } else {
                i - a.len()
            }]);
        }
        assert forall|i: int| 0 <= i < a.len() implies twice.contains(#[trigger] a[i]) by {
            assert(twice[i] == a[i]);
        }
        lemma_form_of_members(twice, a);
        lemma_coalesce_canonical(a);
        lemma_canonical_form(a);
    }

    proof fn law_identity_is_bottom() {
    }

    fn is_bottom(&self) -> (r: bool) {
        self.is_empty()
    }
}

/// The meet half of the date lattice. The top is `unknown()`.
impl MeetSemilattice for UncertainDate {
    open spec fn meet_valid(m: Seq<TimeRange>) -> bool {
        canonical(m)
    }

    open spec fn top_model() -> Seq<TimeRange> {
        seq![everything()]
    }

    open spec fn meet_model(a: Seq<TimeRange>, b: Seq<TimeRange>) -> Seq<TimeRange> {
        meet_of(a, b)
    }

    proof fn law_top_valid() {
    }

    proof fn law_meet_valid(a: Seq<TimeRange>, b: Seq<TimeRange>) {
        lemma_meet(a, b);
    }

    proof fn law_meet_commutative(a: Seq<TimeRange>, b: Seq<TimeRange>) {
        lemma_common_commutative(a, b);
    }

    proof fn law_meet_associative(a: Seq<TimeRange>, b: Seq<TimeRange>, c: Seq<TimeRange>) {
        lemma_common_associative(a, b, c);
    }

    proof fn law_meet_idempotent(a: Seq<TimeRange>) {
        lemma_common_idempotent(a);
    }

    proof fn law_meet_identity(a: Seq<TimeRange>) {
        lemma_common_unbounded(a);
    }

    fn top() -> (r: Self) {
        UncertainDate::unknown()
    }

    fn meet(self, other: Self) -> (r: Self) {
        UncertainDate::meet(&self, &other)
    }
}

/// The two halves together. The laws that mix meet and join hold for the days
/// denoted; which of two bounds for the same day survives may differ.
impl BoundedLattice for UncertainDate {
    open spec fn same(a: Seq<TimeRange>, b: Seq<TimeRange>) -> bool {
        same_spans(a, b)
    }

    proof fn law_valid_agrees(a: Seq<TimeRange>) {
    }

    proof fn law_same(a: Seq<TimeRange>, b: Seq<TimeRange>, c: Seq<TimeRange>) {
        if same_spans(a, b) {
            assert forall|i: int| 0 <= i < b.len() implies (#[trigger] b[i]).lower() == a[i].lower()
                && b[i].upper() == a[i].upper() by {
                assert(a[i].lower() == b[i].lower());
            }
            lemma_spans_determine_days(a, b);
            lemma_join(a, c);
            lemma_join(b, c);
            assert forall|d: int| #[trigger] day_in(join_of(a, c), d) <==> day_in(
                join_of(b, c),
                d,
            ) by {
                assert(day_in(a, d) <==> day_in(b, d));
            }
            lemma_days_determine_spans(join_of(a, c), join_of(b, c));
        }
        if same_spans(a, b) && same_spans(b, c) {
            assert forall|i: int| 0 <= i < a.len() implies (#[trigger] a[i]).lower() == c[i].lower()
                && a[i].upper() == c[i].upper() by {
                assert(a[i].lower() == b[i].lower());
                assert(b[i].lower() == c[i].lower());
            }
        }
    }

    proof fn law_annihilators(a: Seq<TimeRange>, b: Seq<TimeRange>) {
        let none = Seq::<TimeRange>::empty();
        lemma_meet(a, none);
        if meet_of(a, none).len() > 0 {
            let day = some_day(meet_of(a, none)[0]);
            lemma_day_in(meet_of(a, none), 0, day);
            let i = lemma_day_held_by(none, day);
        }
        assert(meet_of(a, none) =~= none);
        if a.len() == 0 {
            lemma_meet(a, b);
            if meet_of(a, b).len() > 0 {
                let day = some_day(meet_of(a, b)[0]);
                lemma_day_in(meet_of(a, b), 0, day);
                let i = lemma_day_held_by(a, day);
            }
        }
        lemma_top_absorbs(a);
    }

    proof fn law_absorption(a: Seq<TimeRange>, b: Seq<TimeRange>) {
        lemma_join(a, b);
        lemma_meet(a, b);
        lemma_meet(a, join_of(a, b));
        lemma_join(a, meet_of(a, b));
        let x = meet_of(a, join_of(a, b));
        let y = join_of(a, meet_of(a, b));
        assert(same_days(x, a));
        lemma_days_determine_spans(x, a);
        assert(same_days(y, a));
        lemma_days_determine_spans(y, a);
    }

    proof fn law_distributive(a: Seq<TimeRange>, b: Seq<TimeRange>, c: Seq<TimeRange>) {
        lemma_join(b, c);
        lemma_join(a, b);
        lemma_join(a, c);
        lemma_meet(b, c);
        lemma_meet(a, b);
        lemma_meet(a, c);
        let p = meet_of(a, join_of(b, c));
        let q = join_of(meet_of(a, b), meet_of(a, c));
        lemma_meet(a, join_of(b, c));
        lemma_join(meet_of(a, b), meet_of(a, c));
        assert forall|d: int| #[trigger] day_in(p, d) <==> day_in(q, d) by {
            assert(day_in(p, d) <==> day_in(a, d) && day_in(join_of(b, c), d));
            assert(day_in(q, d) <==> day_in(meet_of(a, b), d) || day_in(meet_of(a, c), d));
        }
        lemma_days_determine_spans(p, q);
        let r = join_of(a, meet_of(b, c));
        let s = meet_of(join_of(a, b), join_of(a, c));
        lemma_join(a, meet_of(b, c));
        lemma_meet(join_of(a, b), join_of(a, c));
        assert forall|d: int| #[trigger] day_in(r, d) <==> day_in(s, d) by {
            assert(day_in(r, d) <==> day_in(a, d) || day_in(meet_of(b, c), d));
            assert(day_in(s, d) <==> day_in(join_of(a, b), d) && day_in(join_of(a, c), d));
        }
        lemma_days_determine_spans(r, s);
    }
}

/// The unbounded interval swallows everything joined to it.
proof fn lemma_top_absorbs(a: Seq<TimeRange>)
    requires
        canonical(a),
    ensures
        join_of(a, seq![everything()]) == seq![everything()],
{
    let top = seq![everything()];
    let out = join_of(a, top);
    lemma_join(a, top);
    assert forall|d: int| #[trigger] day_in(top, d) <==> day_in(out, d) by {
        lemma_day_in(top, 0, d);
    }
    lemma_days_determine_spans(top, out);
    assert(out.len() == 1);
    assert(top[0].lower() == out[0].lower() && top[0].upper() == out[0].upper());
    lemma_range_by_bounds(out[0], everything());
    assert(out =~= top);
}

/// Canonicalization is confluent: lists with the same intervals, in any order
/// and number, canonicalize to one form.
pub proof fn law_canonicalization_confluent(a: Seq<TimeRange>, b: Seq<TimeRange>)
    requires
        all_wf(a),
        all_wf(b),
        same_members(a, b),
    ensures
        canonical_form(a) == canonical_form(b),
{
    lemma_form_of_members(a, b);
}

/// Canonicalizing a canonical list changes nothing.
pub proof fn law_canonicalization_idempotent(a: Seq<TimeRange>)
    requires
        all_wf(a),
    ensures
        canonical_form(canonical_form(a)) == canonical_form(a),
{
    lemma_canonical_form(a);
    lemma_coalesce_canonical(canonical_form(a));
    lemma_canonical_form(canonical_form(a));
}

/// Dates that allow the same days consist of the same intervals of days; only
/// the precision of their bounds can differ. Dates that allow different days
/// differ in some interval.
pub proof fn law_denotation(a: Seq<TimeRange>, b: Seq<TimeRange>)
    requires
        canonical(a),
        canonical(b),
    ensures
        same_days(a, b) <==> same_spans(a, b),
{
    if same_days(a, b) {
        lemma_days_determine_spans(a, b);
    }
    if same_spans(a, b) {
        lemma_spans_determine_days(a, b);
    }
}

} // verus!
