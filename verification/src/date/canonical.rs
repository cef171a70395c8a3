//! Canonical unions of intervals: what the canonical form of a list of
//! intervals is, that there is exactly one, and the canonicalizer.
use vstd::prelude::*;

use super::range::{
    lemma_bound, lemma_range_between, lemma_range_by_bounds, lower_reaches, separated, span,
    upper_reaches, TimeRange,
};

verus! {

broadcast use lemma_range_between;

/// Every interval of the list is well-formed.
pub open spec fn all_wf(s: Seq<TimeRange>) -> bool {
    forall|i: int| 0 <= i < s.len() ==> (#[trigger] s[i]).wf()
}

/// The list is sorted and its intervals neither overlap nor touch.
pub open spec fn canonical(s: Seq<TimeRange>) -> bool {
    &&& all_wf(s)
    &&& forall|i: int, j: int| 0 <= i < j < s.len() ==> separated(#[trigger] s[i], #[trigger] s[j])
}

/// Every day of `a` is a day of `b`.
pub open spec fn within(a: TimeRange, b: TimeRange) -> bool {
    &&& b.lower() is Some ==> a.lower() is Some && b.lower()->0 <= a.lower()->0
    &&& b.upper() is Some ==> a.upper() is Some && a.upper()->0 <= b.upper()->0
}

/// Some interval of the list holds the whole of `r`.
#[verifier::opaque]
pub open spec fn covered(r: TimeRange, s: Seq<TimeRange>) -> bool {
    exists|j: int| 0 <= j < s.len() && within(r, #[trigger] s[j])
}

/// Some interval of the list holds the day numbered `day`.
#[verifier::opaque]
pub open spec fn day_in(s: Seq<TimeRange>, day: int) -> bool {
    exists|i: int| 0 <= i < s.len() && (#[trigger] s[i]).holds(day)
}

/// The lower endpoint of `r` is the one that reaches furthest down among the
/// intervals of the list that lie within `r`.
#[verifier::opaque]
pub open spec fn lower_from(r: TimeRange, s: Seq<TimeRange>) -> bool {
    &&& exists|i: int|
        0 <= i < s.len() && within(#[trigger] s[i], r) && s[i].lower_bound() == r.lower_bound()
    &&& forall|i: int|
        0 <= i < s.len() && within(#[trigger] s[i], r) ==> lower_reaches(
            r.lower_bound(),
            s[i].lower_bound(),
        )
}

/// The upper endpoint of `r` is the one that reaches furthest up among the
/// intervals of the list that lie within `r`.
#[verifier::opaque]
pub open spec fn upper_from(r: TimeRange, s: Seq<TimeRange>) -> bool {
    &&& exists|i: int|
        0 <= i < s.len() && within(#[trigger] s[i], r) && s[i].upper_bound() == r.upper_bound()
    &&& forall|i: int|
        0 <= i < s.len() && within(#[trigger] s[i], r) ==> upper_reaches(
            r.upper_bound(),
            s[i].upper_bound(),
        )
}

/// `out` is the canonical union of `inputs`: sorted, disjoint and not
/// touching, holding exactly the days of `inputs`, with endpoints selected
/// from `inputs`.
pub open spec fn coalesces(inputs: Seq<TimeRange>, out: Seq<TimeRange>) -> bool {
    &&& canonical(out)
    &&& forall|i: int| 0 <= i < inputs.len() ==> covered(#[trigger] inputs[i], out)
    &&& forall|j: int|
        0 <= j < out.len() ==> lower_from(#[trigger] out[j], inputs) && upper_from(out[j], inputs)
    &&& forall|day: int| day_in(out, day) ==> #[trigger] day_in(inputs, day)
}

/// The canonical union of a list of intervals.
pub open spec fn canonical_form(inputs: Seq<TimeRange>) -> Seq<TimeRange> {
    choose|out: Seq<TimeRange>| coalesces(inputs, out)
}

pub proof fn lemma_covered_by(r: TimeRange, s: Seq<TimeRange>) -> (j: int)
    requires
        covered(r, s),
    ensures
        0 <= j < s.len(),
        within(r, s[j]),
{
    reveal(covered);
    choose|j: int| 0 <= j < s.len() && within(r, #[trigger] s[j])
}

proof fn lemma_covered(r: TimeRange, s: Seq<TimeRange>, j: int)
    requires
        0 <= j < s.len(),
        within(r, s[j]),
    ensures
        covered(r, s),
{
    reveal(covered);
}

pub proof fn lemma_day_held_by(s: Seq<TimeRange>, day: int) -> (i: int)
    requires
        day_in(s, day),
    ensures
        0 <= i < s.len(),
        s[i].holds(day),
{
    reveal(day_in);
    choose|i: int| 0 <= i < s.len() && (#[trigger] s[i]).holds(day)
}

pub proof fn lemma_day_in(s: Seq<TimeRange>, i: int, day: int)
    requires
        0 <= i < s.len(),
        s[i].holds(day),
    ensures
        day_in(s, day),
{
    reveal(day_in);
}

pub proof fn lemma_lower_attained(r: TimeRange, s: Seq<TimeRange>) -> (i: int)
    requires
        lower_from(r, s),
    ensures
        0 <= i < s.len(),
        within(s[i], r),
        s[i].lower_bound() == r.lower_bound(),
{
    reveal(lower_from);
    choose|i: int|
        0 <= i < s.len() && within(#[trigger] s[i], r) && s[i].lower_bound() == r.lower_bound()
}

pub proof fn lemma_upper_attained(r: TimeRange, s: Seq<TimeRange>) -> (i: int)
    requires
        upper_from(r, s),
    ensures
        0 <= i < s.len(),
        within(s[i], r),
        s[i].upper_bound() == r.upper_bound(),
{
    reveal(upper_from);
    choose|i: int|
        0 <= i < s.len() && within(#[trigger] s[i], r) && s[i].upper_bound() == r.upper_bound()
}

pub proof fn lemma_bounds_extreme(r: TimeRange, s: Seq<TimeRange>, i: int)
    requires
        lower_from(r, s),
        upper_from(r, s),
        0 <= i < s.len(),
        within(s[i], r),
    ensures
        lower_reaches(r.lower_bound(), s[i].lower_bound()),
        upper_reaches(r.upper_bound(), s[i].upper_bound()),
{
    reveal(lower_from);
    reveal(upper_from);
}

proof fn lemma_bounds_from(r: TimeRange, s: Seq<TimeRange>, l: int, u: int)
    requires
        0 <= l < s.len(),
        0 <= u < s.len(),
        within(s[l], r),
        within(s[u], r),
        s[l].lower_bound() == r.lower_bound(),
        s[u].upper_bound() == r.upper_bound(),
        forall|i: int|
            0 <= i < s.len() && within(#[trigger] s[i], r) ==> lower_reaches(
                r.lower_bound(),
                s[i].lower_bound(),
            ) && upper_reaches(r.upper_bound(), s[i].upper_bound()),
    ensures
        lower_from(r, s),
        upper_from(r, s),
{
    reveal(lower_from);
    reveal(upper_from);
}

/// A day of a well-formed interval.
pub open spec fn some_day(r: TimeRange) -> int {
    if r.lower() is Some {
        r.lower()->0
    } else if r.upper() is Some {
        r.upper()->0
    } else {
        0
    }
}

/// A day held by two intervals of a canonical list is held by one interval.
pub proof fn lemma_same_interval(s: Seq<TimeRange>, i: int, j: int, day: int)
    requires
        canonical(s),
        0 <= i < s.len(),
        0 <= j < s.len(),
        s[i].holds(day),
        s[j].holds(day),
    ensures
        i == j,
{
    if i < j {
        assert(separated(s[i], s[j]));
    } else if j < i {
        assert(separated(s[j], s[i]));
    }
}

/// A run of days inside a canonical list stays inside one interval.
proof fn lemma_run(s: Seq<TimeRange>, k: int, from: int, to: int)
    requires
        canonical(s),
        0 <= k < s.len(),
        s[k].holds(from),
        forall|d: int|
            (from <= d <= to || to <= d <= from) ==> #[trigger] day_in(s, d),
    ensures
        s[k].holds(to),
    decreases (if from <= to {
        to - from
    } else {
        from - to
    }),
{
    if from < to {
        lemma_run(s, k, from, to - 1);
        assert(day_in(s, to));
        let m = lemma_day_held_by(s, to);
        if m < k {
            assert(separated(s[m], s[k]));
        } else if k < m {
            assert(separated(s[k], s[m]));
        }
    } else if to < from {
        lemma_run(s, k, from, to + 1);
        assert(day_in(s, to));
        let m = lemma_day_held_by(s, to);
        if m < k {
            assert(separated(s[m], s[k]));
        } else if k < m {
            assert(separated(s[k], s[m]));
        }
    }
}

/// An interval whose days all lie in a canonical list lies within one of its
/// intervals.
pub proof fn lemma_interval_covered(s: Seq<TimeRange>, r: TimeRange) -> (k: int)
    requires
        canonical(s),
        r.wf(),
        forall|d: int| r.holds(d) ==> #[trigger] day_in(s, d),
    ensures
        0 <= k < s.len(),
        within(r, s[k]),
{
    let d0 = some_day(r);
    assert(r.holds(d0));
    assert(day_in(s, d0));
    let k = lemma_day_held_by(s, d0);
    if s[k].lower() is Some {
        let low = s[k].lower()->0;
        if r.lower() is None || r.lower()->0 < low {
            assert(forall|d: int| low - 1 <= d <= d0 ==> r.holds(d));
            lemma_run(s, k, d0, low - 1);
        }
    }
    if s[k].upper() is Some {
        let up = s[k].upper()->0;
        if r.upper() is None || up < r.upper()->0 {
            assert(forall|d: int| d0 <= d <= up + 1 ==> r.holds(d));
            lemma_run(s, k, d0, up + 1);
        }
    }
    k
}

/// Two lists write down the same days.
pub open spec fn same_days(a: Seq<TimeRange>, b: Seq<TimeRange>) -> bool {
    forall|d: int| #[trigger] day_in(a, d) <==> day_in(b, d)
}

/// Two lists have the same first and last days, interval by interval.
pub open spec fn same_spans(a: Seq<TimeRange>, b: Seq<TimeRange>) -> bool {
    &&& a.len() == b.len()
    &&& forall|i: int|
        0 <= i < a.len() ==> (#[trigger] a[i]).lower() == b[i].lower() && a[i].upper()
            == b[i].upper()
}

/// For canonical lists with the same days: the interval of `b` that covers
/// interval `i` of `a` has the same days.
proof fn lemma_matching(a: Seq<TimeRange>, b: Seq<TimeRange>, i: int) -> (k: int)
    requires
        canonical(a),
        canonical(b),
        same_days(a, b),
        0 <= i < a.len(),
    ensures
        0 <= k < b.len(),
        a[i].lower() == b[k].lower(),
        a[i].upper() == b[k].upper(),
{
    assert forall|d: int| a[i].holds(d) implies #[trigger] day_in(b, d) by {
        lemma_day_in(a, i, d);
    }
    let k = lemma_interval_covered(b, a[i]);
    assert forall|d: int| b[k].holds(d) implies #[trigger] day_in(a, d) by {
        lemma_day_in(b, k, d);
    }
    let i2 = lemma_interval_covered(a, b[k]);
    let d0 = some_day(a[i]);
    assert(a[i].holds(d0));
    assert(a[i2].holds(d0));
    lemma_same_interval(a, i, i2, d0);
    k
}

/// Interval `i` of `a` is matched by an interval of `b` no earlier than `i`.
proof fn lemma_matching_no_earlier(a: Seq<TimeRange>, b: Seq<TimeRange>, i: int) -> (k: int)
    requires
        canonical(a),
        canonical(b),
        same_days(a, b),
        0 <= i < a.len(),
    ensures
        i <= k < b.len(),
        a[i].lower() == b[k].lower(),
        a[i].upper() == b[k].upper(),
    decreases i,
{
    let k = lemma_matching(a, b, i);
    if i > 0 {
        let p = lemma_matching_no_earlier(a, b, i - 1);
        assert(separated(a[i - 1], a[i]));
        if k < p {
            assert(separated(b[k], b[p]));
        }
    }
    k
}

/// A canonical list is determined, up to precision, by its days.
pub proof fn lemma_days_determine_spans(a: Seq<TimeRange>, b: Seq<TimeRange>)
    requires
        canonical(a),
        canonical(b),
        same_days(a, b),
    ensures
        same_spans(a, b),
{
    lemma_same_days_symmetric(a, b);
    if a.len() > 0 {
        let k = lemma_matching_no_earlier(a, b, a.len() - 1);
    }
    if b.len() > 0 {
        let k = lemma_matching_no_earlier(b, a, b.len() - 1);
    }
    assert forall|i: int| 0 <= i < a.len() implies (#[trigger] a[i]).lower() == b[i].lower()
        && a[i].upper() == b[i].upper() by {
        lemma_matching_index(a, b, i);
    }
}

/// Intervals of two canonical lists with the same days match index by index.
proof fn lemma_matching_index(a: Seq<TimeRange>, b: Seq<TimeRange>, i: int)
    requires
        canonical(a),
        canonical(b),
        same_days(a, b),
        same_days(b, a),
        0 <= i < a.len(),
    ensures
        i < b.len(),
        a[i].lower() == b[i].lower(),
        a[i].upper() == b[i].upper(),
{
    let k = lemma_matching_no_earlier(a, b, i);
    let j = lemma_matching_no_earlier(b, a, k);
    let d0 = some_day(a[i]);
    assert(a[i].holds(d0));
    assert(a[j].holds(d0));
    lemma_same_interval(a, i, j, d0);
}

proof fn lemma_same_days_symmetric(a: Seq<TimeRange>, b: Seq<TimeRange>)
    requires
        same_days(a, b),
    ensures
        same_days(b, a),
{
    assert forall|d: int| #[trigger] day_in(b, d) <==> day_in(a, d) by {
        assert(day_in(a, d) <==> day_in(b, d));
    }
}

/// Same spans, same days.
pub proof fn lemma_spans_determine_days(a: Seq<TimeRange>, b: Seq<TimeRange>)
    requires
        same_spans(a, b),
    ensures
        same_days(a, b),
{
    assert forall|d: int| #[trigger] day_in(a, d) <==> day_in(b, d) by {
        if day_in(a, d) {
            let i = lemma_day_held_by(a, d);
            lemma_day_in(b, i, d);
        }
        if day_in(b, d) {
            let i = lemma_day_held_by(b, d);
            assert(a[i].lower() == b[i].lower());
            lemma_day_in(a, i, d);
        }
    }
}

/// A canonical union holds exactly the days of its inputs.
pub proof fn lemma_coalesce_days(inputs: Seq<TimeRange>, out: Seq<TimeRange>)
    requires
        coalesces(inputs, out),
    ensures
        same_days(inputs, out),
{
    assert forall|d: int| #[trigger] day_in(inputs, d) <==> day_in(out, d) by {
        if day_in(inputs, d) {
            let i = lemma_day_held_by(inputs, d);
            let j = lemma_covered_by(inputs[i], out);
            lemma_day_in(out, j, d);
        }
    }
}

/// There is at most one canonical union of a list of intervals.
pub proof fn lemma_coalesce_unique(inputs: Seq<TimeRange>, a: Seq<TimeRange>, b: Seq<TimeRange>)
    requires
        all_wf(inputs),
        coalesces(inputs, a),
        coalesces(inputs, b),
    ensures
        a == b,
{
    lemma_coalesce_days(inputs, a);
    lemma_coalesce_days(inputs, b);
    assert forall|d: int| #[trigger] day_in(a, d) <==> day_in(b, d) by {
        assert(day_in(inputs, d) <==> day_in(a, d));
        assert(day_in(inputs, d) <==> day_in(b, d));
    }
    lemma_days_determine_spans(a, b);
    assert forall|i: int| 0 <= i < a.len() implies a[i] == b[i] by {
        lemma_bounds_unique(inputs, a[i], b[i]);
    }
    assert(a =~= b);
}

/// Endpoints selected from the same list for the same days are the same.
proof fn lemma_bounds_unique(inputs: Seq<TimeRange>, a: TimeRange, b: TimeRange)
    requires
        all_wf(inputs),
        a.wf(),
        b.wf(),
        a.lower() == b.lower(),
        a.upper() == b.upper(),
        lower_from(a, inputs),
        upper_from(a, inputs),
        lower_from(b, inputs),
        upper_from(b, inputs),
    ensures
        a == b,
{
    let la = lemma_lower_attained(a, inputs);
    let lb = lemma_lower_attained(b, inputs);
    let ua = lemma_upper_attained(a, inputs);
    let ub = lemma_upper_attained(b, inputs);
    lemma_bounds_extreme(a, inputs, lb);
    lemma_bounds_extreme(b, inputs, la);
    lemma_bounds_extreme(a, inputs, ub);
    lemma_bounds_extreme(b, inputs, ua);
    if a.lower_bound() is Some {
        lemma_bound(a.lower_bound()->0, b.lower_bound()->0);
    }
    if a.upper_bound() is Some {
        lemma_bound(a.upper_bound()->0, b.upper_bound()->0);
    }
    lemma_range_by_bounds(a, b);
}

/// A canonical list is its own canonical union.
pub proof fn lemma_coalesce_canonical(s: Seq<TimeRange>)
    requires
        canonical(s),
    ensures
        coalesces(s, s),
{
    assert forall|j: int| 0 <= j < s.len() implies lower_from(#[trigger] s[j], s) && upper_from(
        s[j],
        s,
    ) by {
        assert forall|i: int| 0 <= i < s.len() && within(#[trigger] s[i], s[j]) implies i == j by {
            let d0 = some_day(s[i]);
            assert(s[i].holds(d0) && s[j].holds(d0));
            lemma_same_interval(s, i, j, d0);
        }
        lemma_bounds_from(s[j], s, j, j);
    }
    assert forall|i: int| 0 <= i < s.len() implies covered(#[trigger] s[i], s) by {
        lemma_covered(s[i], s, i);
    }
}

/// Coalescing part of a list first does not change the canonical union.
pub proof fn lemma_coalesce_stages(
    part: Seq<TimeRange>,
    merged: Seq<TimeRange>,
    rest: Seq<TimeRange>,
    out: Seq<TimeRange>,
)
    requires
        all_wf(part),
        all_wf(rest),
        coalesces(part, merged),
        coalesces(rest + merged, out),
    ensures
        coalesces(rest + part, out),
{
    let old_in = rest + merged;
    let new_in = rest + part;
    assert forall|i: int| 0 <= i < new_in.len() implies covered(#[trigger] new_in[i], out) by {
        if i < rest.len() {
            assert(old_in[i] == rest[i]);
        } else {
            let p = part[i - rest.len()];
            let m = lemma_covered_by(p, merged);
            assert(old_in[rest.len() + m] == merged[m]);
            let j = lemma_covered_by(merged[m], out);
            lemma_covered(p, out, j);
        }
    }
    assert forall|j: int| 0 <= j < out.len() implies lower_from(#[trigger] out[j], new_in)
        && upper_from(out[j], new_in) by {
        lemma_stage_bounds(part, merged, rest, out, j);
    }
    assert forall|day: int| day_in(out, day) implies #[trigger] day_in(new_in, day) by {
        assert(day_in(old_in, day));
        let i = lemma_day_held_by(old_in, day);
        if i < rest.len() {
            lemma_day_in(new_in, i, day);
        } else {
            lemma_day_in(merged, i - rest.len(), day);
            assert(day_in(part, day));
            let p = lemma_day_held_by(part, day);
            lemma_day_in(new_in, rest.len() + p, day);
        }
    }
}

proof fn lemma_stage_bounds(
    part: Seq<TimeRange>,
    merged: Seq<TimeRange>,
    rest: Seq<TimeRange>,
    out: Seq<TimeRange>,
    j: int,
)
    requires
        all_wf(part),
        all_wf(rest),
        coalesces(part, merged),
        coalesces(rest + merged, out),
        0 <= j < out.len(),
    ensures
        lower_from(out[j], rest + part),
        upper_from(out[j], rest + part),
{
    let old_in = rest + merged;
    let new_in = rest + part;
    // The endpoints are attained.
    let li = lemma_lower_attained(out[j], old_in);
    let l = if li < rest.len() {
        li
    } else {
        rest.len() + lemma_lower_attained(merged[li - rest.len()], part)
    };
    let ui = lemma_upper_attained(out[j], old_in);
    let u = if ui < rest.len() {
        ui
    } else {
        rest.len() + lemma_upper_attained(merged[ui - rest.len()], part)
    };
    // Nothing reaches further.
    assert forall|i: int| 0 <= i < new_in.len() && within(#[trigger] new_in[i], out[j]) implies
        lower_reaches(out[j].lower_bound(), new_in[i].lower_bound()) && upper_reaches(
        out[j].upper_bound(),
        new_in[i].upper_bound(),
    ) by {
        if i < rest.len() {
            assert(old_in[i] == new_in[i]);
            lemma_bounds_extreme(out[j], old_in, i);
        } else {
            let p = part[i - rest.len()];
            let m = lemma_covered_by(p, merged);
            assert(old_in[rest.len() + m] == merged[m]);
            let k = lemma_covered_by(merged[m], out);
            let d0 = some_day(p);
            assert(p.holds(d0));
            assert(out[j].holds(d0) && out[k].holds(d0));
            lemma_same_interval(out, j, k, d0);
            lemma_bounds_extreme(out[j], old_in, rest.len() + m);
            lemma_bounds_extreme(merged[m], part, i - rest.len());
        }
    }
    lemma_bounds_from(out[j], new_in, l, u);
}

/// Two lists hold the same intervals, in any order and number.
pub open spec fn same_members(a: Seq<TimeRange>, b: Seq<TimeRange>) -> bool {
    &&& forall|i: int| 0 <= i < a.len() ==> b.contains(#[trigger] a[i])
    &&& forall|i: int| 0 <= i < b.len() ==> a.contains(#[trigger] b[i])
}

/// Swapping two parts of a list keeps its members.
pub proof fn lemma_members_swap(a: Seq<TimeRange>, b: Seq<TimeRange>)
    ensures
        same_members(a + b, b + a),
{
    let x = a + b;
    let y = b + a;
    assert forall|i: int| 0 <= i < x.len() implies y.contains(#[trigger] x[i]) by {
        if i < a.len() {
            assert(y[b.len() + i] == x[i]);
        } else {
            assert(y[i - a.len()] == x[i]);
        }
    }
    assert forall|i: int| 0 <= i < y.len() implies x.contains(#[trigger] y[i]) by {
        if i < b.len() {
            assert(x[a.len() + i] == y[i]);
        } else {
            assert(x[i - b.len()] == y[i]);
        }
    }
}

/// The canonical union does not depend on the order or repetition of the
/// intervals.
pub proof fn lemma_coalesce_set(a: Seq<TimeRange>, b: Seq<TimeRange>, out: Seq<TimeRange>)
    requires
        coalesces(a, out),
        same_members(a, b),
    ensures
        coalesces(b, out),
{
    assert(forall|i: int| 0 <= i < a.len() ==> b.contains(#[trigger] a[i]));
    assert(forall|i: int| 0 <= i < b.len() ==> a.contains(#[trigger] b[i]));
    assert forall|i: int| 0 <= i < b.len() implies covered(#[trigger] b[i], out) by {
        let k = a.index_of(b[i]);
        assert(covered(a[k], out));
    }
    assert forall|j: int| 0 <= j < out.len() implies lower_from(#[trigger] out[j], b)
        && upper_from(out[j], b) by {
        let l = lemma_lower_attained(out[j], a);
        let u = lemma_upper_attained(out[j], a);
        assert forall|i: int| 0 <= i < b.len() && within(#[trigger] b[i], out[j]) implies
            lower_reaches(out[j].lower_bound(), b[i].lower_bound()) && upper_reaches(
            out[j].upper_bound(),
            b[i].upper_bound(),
        ) by {
            lemma_bounds_extreme(out[j], a, a.index_of(b[i]));
        }
        lemma_bounds_from(out[j], b, b.index_of(a[l]), b.index_of(a[u]));
    }
    assert forall|day: int| day_in(out, day) implies #[trigger] day_in(b, day) by {
        assert(day_in(a, day));
        let i = lemma_day_held_by(a, day);
        lemma_day_in(b, b.index_of(a[i]), day);
    }
}

/// The list with one more interval merged into it.
pub open spec fn insert_range(s: Seq<TimeRange>, r: TimeRange) -> Seq<TimeRange>
    decreases s.len(),
{
    if s.len() == 0 {
        seq![r]
    } else if separated(s.last(), r) {
        s.push(r)
    } else if separated(r, s.last()) {
        insert_range(s.drop_last(), r).push(s.last())
    } else {
        insert_range(s.drop_last(), span(s.last(), r))
    }
}

/// Two intervals with no day between them unite to the interval they span.
proof fn lemma_span_coalesces(a: TimeRange, b: TimeRange)
    requires
        a.wf(),
        b.wf(),
        !separated(a, b),
        !separated(b, a),
    ensures
        coalesces(seq![a, b], seq![span(a, b)]),
{
    let inputs = seq![a, b];
    let m = span(a, b);
    let out = seq![m];
    assert(m.wf());
    assert(canonical(out));
    assert(within(a, m) && within(b, m));
    assert forall|i: int| 0 <= i < inputs.len() implies covered(#[trigger] inputs[i], out) by {
        assert(inputs[i] == a || inputs[i] == b);
        lemma_covered(inputs[i], out, 0);
    }
    let l: int = if lower_reaches(a.lower_bound(), b.lower_bound()) {
        0
    } else {
        1
    };
    let u: int = if upper_reaches(a.upper_bound(), b.upper_bound()) {
        0
    } else {
        1
    };
    lemma_bounds_from(m, inputs, l, u);
    assert forall|day: int| day_in(out, day) implies #[trigger] day_in(inputs, day) by {
        let i = lemma_day_held_by(out, day);
        if a.holds(day) {
            lemma_day_in(inputs, 0, day);
        } else {
            assert(b.holds(day));
            lemma_day_in(inputs, 1, day);
        }
    }
}

/// Merging one more interval into a canonical list gives the canonical union.
proof fn lemma_insert(s: Seq<TimeRange>, r: TimeRange)
    requires
        canonical(s),
        r.wf(),
    ensures
        coalesces(s.push(r), insert_range(s, r)),
    decreases s.len(),
{
    if s.len() == 0 {
        assert(s.push(r) =~= seq![r]);
        lemma_coalesce_canonical(seq![r]);
    } else if separated(s.last(), r) {
        assert forall|i: int, j: int| 0 <= i < j < s.push(r).len() implies separated(
            #[trigger] s.push(r)[i],
            #[trigger] s.push(r)[j],
        ) by {
            if j == s.len() && i < s.len() - 1 {
                assert(separated(s[i], s.last()));
            }
        }
        lemma_coalesce_canonical(s.push(r));
    } else if separated(r, s.last()) {
        let front = s.drop_last();
        let merged = insert_range(front, r);
        lemma_insert(front, r);
        lemma_push_last(front.push(r), merged, s.last());
        let x = front.push(r).push(s.last());
        let y = s.push(r);
        let n = front.len() as int;
        assert forall|i: int| 0 <= i < x.len() implies y.contains(#[trigger] x[i]) by {
            assert(y[n] == s.last() && y[n + 1] == r);
            assert(i < n ==> y[i] == x[i]);
        }
        assert forall|i: int| 0 <= i < y.len() implies x.contains(#[trigger] y[i]) by {
            assert(x[n] == r && x[n + 1] == s.last());
            assert(i < n ==> y[i] == x[i]);
        }
        lemma_coalesce_set(x, y, merged.push(s.last()));
    } else {
        let front = s.drop_last();
        let m = span(s.last(), r);
        lemma_span_coalesces(s.last(), r);
        lemma_insert(front, m);
        assert(front.push(m) =~= front + seq![m]);
        lemma_coalesce_stages(seq![s.last(), r], seq![m], front, insert_range(front, m));
        assert(front + seq![s.last(), r] =~= s.push(r));
    }
}

/// An interval separated from all others stays as it is.
proof fn lemma_push_last(inputs: Seq<TimeRange>, out: Seq<TimeRange>, last: TimeRange)
    requires
        all_wf(inputs),
        last.wf(),
        coalesces(inputs, out),
        forall|i: int| 0 <= i < inputs.len() ==> separated(#[trigger] inputs[i], last),
    ensures
        coalesces(inputs.push(last), out.push(last)),
{
    let new_in = inputs.push(last);
    let new_out = out.push(last);
    assert forall|j: int| 0 <= j < out.len() implies separated(#[trigger] out[j], last) by {
        let u = lemma_upper_attained(out[j], inputs);
        assert(separated(inputs[u], last));
    }
    assert(canonical(new_out));
    assert forall|i: int| 0 <= i < new_in.len() implies covered(#[trigger] new_in[i], new_out) by {
        if i < inputs.len() {
            assert(covered(inputs[i], out));
            let j = lemma_covered_by(inputs[i], out);
            assert(new_out[j] == out[j]);
            lemma_covered(new_in[i], new_out, j);
        } else {
            lemma_covered(last, new_out, out.len() as int);
        }
    }
    assert forall|j: int| 0 <= j < new_out.len() implies lower_from(#[trigger] new_out[j], new_in)
        && upper_from(new_out[j], new_in) by {
        if j < out.len() {
            assert(new_out[j] == out[j]);
            let l = lemma_lower_attained(out[j], inputs);
            let u = lemma_upper_attained(out[j], inputs);
            assert forall|i: int| 0 <= i < new_in.len() && within(#[trigger] new_in[i], out[j])
                implies lower_reaches(out[j].lower_bound(), new_in[i].lower_bound())
                && upper_reaches(out[j].upper_bound(), new_in[i].upper_bound()) by {
                if i < inputs.len() {
                    assert(new_in[i] == inputs[i]);
                    lemma_bounds_extreme(out[j], inputs, i);
                } else {
                    assert(separated(out[j], last));
                    assert(last.holds(some_day(last)));
                }
            }
            lemma_bounds_from(out[j], new_in, l, u);
        } else {
            assert forall|i: int| 0 <= i < new_in.len() && within(#[trigger] new_in[i], last)
                implies new_in[i] == last by {
                if i < inputs.len() {
                    assert(separated(inputs[i], last));
                    assert(inputs[i].holds(some_day(inputs[i])));
                }
            }
            lemma_bounds_from(last, new_in, inputs.len() as int, inputs.len() as int);
        }
    }
    assert forall|day: int| day_in(new_out, day) implies #[trigger] day_in(new_in, day) by {
        let j = lemma_day_held_by(new_out, day);
        if j < out.len() {
            lemma_day_in(out, j, day);
            assert(day_in(inputs, day));
            let i = lemma_day_held_by(inputs, day);
            lemma_day_in(new_in, i, day);
        } else {
            lemma_day_in(new_in, inputs.len() as int, day);
        }
    }
}

/// Every list of well-formed intervals has a canonical union.
proof fn lemma_coalesce_exists(inputs: Seq<TimeRange>) -> (out: Seq<TimeRange>)
    requires
        all_wf(inputs),
    ensures
        coalesces(inputs, out),
    decreases inputs.len(),
{
    if inputs.len() == 0 {
        lemma_coalesce_canonical(inputs);
        inputs
    } else {
        let front = inputs.drop_last();
        let r = inputs.last();
        let merged = lemma_coalesce_exists(front);
        lemma_insert(merged, r);
        let out = insert_range(merged, r);
        lemma_coalesce_next(front, merged, r);
        assert(front.push(r) =~= inputs);
        out
    }
}

/// Extending the input by one interval merges it into the canonical union.
proof fn lemma_coalesce_next(inputs: Seq<TimeRange>, merged: Seq<TimeRange>, r: TimeRange)
    requires
        all_wf(inputs),
        r.wf(),
        coalesces(inputs, merged),
    ensures
        coalesces(inputs.push(r), insert_range(merged, r)),
{
    let out = insert_range(merged, r);
    lemma_insert(merged, r);
    assert(merged.push(r) =~= merged + seq![r]);
    lemma_members_swap(merged, seq![r]);
    lemma_coalesce_set(merged.push(r), seq![r] + merged, out);
    lemma_coalesce_stages(inputs, merged, seq![r], out);
    assert(inputs.push(r) =~= inputs + seq![r]);
    lemma_members_swap(seq![r], inputs);
    lemma_coalesce_set(seq![r] + inputs, inputs.push(r), out);
}

/// The canonical form is the canonical union, and the only one.
pub proof fn lemma_canonical_form(inputs: Seq<TimeRange>)
    requires
        all_wf(inputs),
    ensures
        coalesces(inputs, canonical_form(inputs)),
        canonical(canonical_form(inputs)),
        same_days(inputs, canonical_form(inputs)),
        forall|out: Seq<TimeRange>| #[trigger]
            coalesces(inputs, out) ==> out == canonical_form(inputs),
{
    let o = lemma_coalesce_exists(inputs);
    lemma_coalesce_days(inputs, canonical_form(inputs));
    assert forall|out: Seq<TimeRange>| #[trigger] coalesces(inputs, out) implies out
        == canonical_form(inputs) by {
        lemma_coalesce_unique(inputs, out, canonical_form(inputs));
    }
}

/// Whether `a` starts no later than `b`.
spec fn starts_by(a: TimeRange, b: TimeRange) -> bool {
    a.lower() is None || (b.lower() is Some && a.lower()->0 <= b.lower()->0)
}

/// The list is ordered by where its intervals start.
spec fn start_sorted(s: Seq<TimeRange>) -> bool {
    forall|i: int, j: int| 0 <= i <= j < s.len() ==> starts_by(#[trigger] s[i], #[trigger] s[j])
}

/// The intervals in order of their spans.
fn sort_by_span(ranges: Vec<TimeRange>) -> (sorted: Vec<TimeRange>)
    requires
        all_wf(ranges@),
    ensures
        all_wf(sorted@),
        same_members(ranges@, sorted@),
        start_sorted(sorted@),
{
    let mut sorted: Vec<TimeRange> = Vec::with_capacity(ranges.len());
    let mut n: usize = 0;
    while n < ranges.len()
        invariant
            n <= ranges.len(),
            all_wf(ranges@),
            all_wf(sorted@),
            start_sorted(sorted@),
            sorted@.len() == n,
            forall|i: int| 0 <= i < n ==> sorted@.contains(#[trigger] ranges@[i]),
            forall|i: int| 0 <= i < sorted@.len() ==> ranges@.contains(#[trigger] sorted@[i]),
        decreases ranges.len() - n,
    {
        let next = ranges[n];
        let mut at: usize = sorted.len();
        while at > 0 && next.sorts_before(&sorted[at - 1])
            invariant
                at <= sorted.len(),
                next.wf(),
                all_wf(sorted@),
                start_sorted(sorted@),
                forall|i: int| at <= i < sorted@.len() ==> starts_by(next, #[trigger] sorted@[i]),
            decreases at,
        {
            at -= 1;
        }
        let ghost before = sorted@;
        proof {
            assert forall|i: int| 0 <= i < at implies starts_by(#[trigger] before[i], next) by {
                assert(starts_by(before[i], before[at - 1]));
            }
        }
        sorted.insert(at, next);
        proof {
            assert(sorted@ =~= before.insert(at as int, next));
            assert(sorted@[at as int] == ranges@[n as int]);
            assert forall|i: int| 0 <= i < n + 1 implies sorted@.contains(#[trigger] ranges@[i]) by {
                if i < n {
                    let k = before.index_of(ranges@[i]);
                    if k < at {
                        assert(sorted@[k] == before[k]);
                    } else {
                        assert(sorted@[k + 1] == before[k]);
                    }
                }
            }
            assert forall|i: int| 0 <= i < sorted@.len() implies ranges@.contains(
                #[trigger] sorted@[i],
            ) by {
                if i < at {
                    assert(sorted@[i] == before[i]);
                } else if i > at {
                    assert(sorted@[i] == before[i - 1]);
                }
            }
        }
        n += 1;
    }
    sorted
}

/// A canonical interval list.
///
/// The one place such a list is built: every other path feeds raw intervals
/// through [`CanonicalRanges::from_ranges`].
#[derive(Debug, PartialEq, Eq, PartialOrd, Ord, Hash)]
pub struct CanonicalRanges(Vec<TimeRange>);

impl View for CanonicalRanges {
    type V = Seq<TimeRange>;

    closed spec fn view(&self) -> Seq<TimeRange> {
        self.0@
    }
}

impl Clone for CanonicalRanges {
    fn clone(&self) -> (r: Self)
        ensures
            r@ == self@,
    {
        let mut out: Vec<TimeRange> = Vec::with_capacity(self.0.len());
        let mut i: usize = 0;
        while i < self.0.len()
            invariant
                i <= self.0.len(),
                out@ == self.0@.take(i as int),
            decreases self.0.len() - i,
        {
            out.push(self.0[i]);
            assert(self.0@.take(i + 1) =~= self.0@.take(i as int).push(self.0@[i as int]));
            i += 1;
        }
        assert(self.0@.take(i as int) =~= self.0@);
        CanonicalRanges(out)
    }
}

impl CanonicalRanges {
    /// Canonicalize an arbitrary collection of intervals into the disjoint,
    /// sorted, adjacency-merged union.
    pub(super) fn from_ranges(ranges: Vec<TimeRange>) -> (r: Self)
        requires
            all_wf(ranges@),
        ensures
            r@ == canonical_form(ranges@),
            coalesces(ranges@, r@),
    {
        let ghost inputs = ranges@;
        let sorted = sort_by_span(ranges);
        let mut merged: Vec<TimeRange> = Vec::with_capacity(sorted.len());
        proof {
            lemma_coalesce_canonical(Seq::empty());
            assert(sorted@.take(0) =~= Seq::empty());
            assert(merged@ =~= Seq::empty());
        }
        let mut n: usize = 0;
        while n < sorted.len()
            invariant
                n <= sorted.len(),
                all_wf(sorted@),
                start_sorted(sorted@),
                coalesces(sorted@.take(n as int), merged@),
                merged@.len() > 0 ==> forall|k: int|
                    n <= k < sorted@.len() ==> starts_by(merged@.last(), #[trigger] sorted@[k]),
            decreases sorted.len() - n,
        {
            let next = sorted[n];
            let ghost old_merged = merged@;
            proof {
                assert(sorted@.take(n + 1) =~= sorted@.take(n as int).push(next));
                lemma_coalesce_next(sorted@.take(n as int), old_merged, next);
            }
            let len: usize = merged.len();
            if len > 0 && merged[len - 1].adjacent_or_overlapping(&next) {
                let acc = merged[len - 1];
                let joined = acc.join(&next);
                merged.set(len - 1, joined);
                proof {
                    let front = old_merged.drop_last();
                    assert(starts_by(acc, next));
                    assert(!separated(next, acc));
                    assert(joined.lower() == acc.lower());
                    if front.len() > 0 {
                        assert(separated(old_merged[front.len() - 1], old_merged[len - 1]));
                        assert(separated(front.last(), joined));
                    }
                    assert(insert_range(front, joined) =~= front.push(joined));
                    assert(merged@ =~= insert_range(old_merged, next));
                    assert forall|k: int| n + 1 <= k < sorted@.len() implies starts_by(
                        merged@.last(),
                        #[trigger] sorted@[k],
                    ) by {
                        assert(starts_by(acc, sorted@[k]));
                    }
                }
            } else {
                merged.push(next);
                proof {
                    assert(merged@ =~= insert_range(old_merged, next));
                }
            }
            n += 1;
        }
        proof {
            assert(sorted@.take(n as int) =~= sorted@);
            lemma_coalesce_set(sorted@, inputs, merged@);
            lemma_canonical_form(inputs);
        }
        CanonicalRanges(merged)
    }

    /// The empty union.
    pub(super) fn empty() -> (r: Self)
        ensures
            r@ == Seq::<TimeRange>::empty(),
    {
        CanonicalRanges(Vec::new())
    }

    /// The intervals, in order.
    pub(super) fn as_slice(&self) -> (r: &[TimeRange])
        ensures
            r@ == self@,
    {
        self.0.as_slice()
    }

    /// The first interval, if any.
    pub(super) fn first(&self) -> (r: Option<&TimeRange>)
        ensures
            r is Some <==> self@.len() > 0,
            r is Some ==> *r->0 == self@.first(),
    {
        if self.0.len() > 0 {
            Some(&self.0[0])
        } else {
            None
        }
    }

    /// The last interval, if any.
    pub(super) fn last(&self) -> (r: Option<&TimeRange>)
        ensures
            r is Some <==> self@.len() > 0,
            r is Some ==> *r->0 == self@.last(),
    {
        if self.0.len() > 0 {
            Some(&self.0[self.0.len() - 1])
        } else {
            None
        }
    }
}

/// The canonical form of a list of intervals has the days of the list, no fewer and no
/// more, and its intervals start and end with bounds of the list: of those that start or
/// end on the same day, the finest at the start and the coarsest at the end.
pub proof fn law_canonical_form_keeps_days_and_bounds(inputs: Seq<TimeRange>, j: int)
    requires
        all_wf(inputs),
        0 <= j < canonical_form(inputs).len(),
    ensures
        forall|day: int| #[trigger]
            day_in(canonical_form(inputs), day) <==> exists|i: int|
                0 <= i < inputs.len() && (#[trigger] inputs[i]).holds(day),
        ({
            let r = canonical_form(inputs)[j];
            &&& exists|i: int|
                0 <= i < inputs.len() && (#[trigger] inputs[i]).lower_bound() == r.lower_bound()
            &&& exists|i: int|
                0 <= i < inputs.len() && (#[trigger] inputs[i]).upper_bound() == r.upper_bound()
            &&& forall|i: int|
                0 <= i < inputs.len() && (#[trigger] inputs[i]).lower() is Some && inputs[i].lower()
                    == r.lower() && within(inputs[i], r) ==> r.lower_bound()->0.granularity().rank()
                    <= inputs[i].lower_bound()->0.granularity().rank()
            &&& forall|i: int|
                0 <= i < inputs.len() && (#[trigger] inputs[i]).upper() is Some && inputs[i].upper()
                    == r.upper() && within(inputs[i], r) ==> inputs[i].upper_bound()->0.granularity().rank()
                    <= r.upper_bound()->0.granularity().rank()
        }),
{
    lemma_canonical_form(inputs);
    let out = canonical_form(inputs);
    let r = out[j];
    assert(lower_from(r, inputs) && upper_from(r, inputs));
    reveal(lower_from);
    reveal(upper_from);
    assert forall|day: int| #[trigger] day_in(out, day) <==> exists|i: int|
        0 <= i < inputs.len() && (#[trigger] inputs[i]).holds(day) by {
        reveal(day_in);
        assert(day_in(inputs, day) <==> day_in(out, day));
    }
}

} // verus!
