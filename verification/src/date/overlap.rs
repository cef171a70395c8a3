//! Intersections of canonical unions: the list of common parts, and why it is
//! canonical up to order.
use vstd::prelude::*;

use super::canonical::{
    all_wf, canonical, canonical_form, day_in, lemma_canonical_form, lemma_coalesce_set,
    lemma_covered_by, lemma_day_held_by, lemma_day_in, lemma_interval_covered,
    lemma_lower_attained, lemma_same_interval, lemma_upper_attained, same_members, some_day,
    within,
};
use super::range::{
    disjoint, lemma_bound, lemma_range_between, lemma_range_by_bounds, lower_reaches, overlap,
    range_between, upper_reaches, TimeRange,
};

verus! {

broadcast use lemma_range_between;

/// The common parts of `r` with each interval of the list that it meets.
pub open spec fn common_with(r: TimeRange, s: Seq<TimeRange>) -> Seq<TimeRange>
    decreases s.len(),
{
    if s.len() == 0 {
        Seq::empty()
    } else if disjoint(r, s.last()) {
        common_with(r, s.drop_last())
    } else {
        common_with(r, s.drop_last()).push(overlap(r, s.last()))
    }
}

/// The common parts of all pairs of intervals, one from each list.
pub open spec fn common_parts(a: Seq<TimeRange>, b: Seq<TimeRange>) -> Seq<TimeRange>
    decreases a.len(),
{
    if a.len() == 0 {
        Seq::empty()
    } else {
        common_parts(a.drop_last(), b) + common_with(a.last(), b)
    }
}

/// `x` is the common part of interval `i` of `a` and interval `j` of `b`.
pub open spec fn is_common(
    a: Seq<TimeRange>,
    b: Seq<TimeRange>,
    x: TimeRange,
    i: int,
    j: int,
) -> bool {
    &&& 0 <= i < a.len()
    &&& 0 <= j < b.len()
    &&& !disjoint(a[i], b[j])
    &&& x == overlap(a[i], b[j])
}

proof fn lemma_common_with_member(r: TimeRange, s: Seq<TimeRange>, x: TimeRange) -> (j: int)
    requires
        common_with(r, s).contains(x),
    ensures
        0 <= j < s.len(),
        !disjoint(r, s[j]),
        x == overlap(r, s[j]),
    decreases s.len(),
{
    let front = common_with(r, s.drop_last());
    if disjoint(r, s.last()) {
        lemma_common_with_member(r, s.drop_last(), x)
    } else if x == overlap(r, s.last()) {
        s.len() - 1
    } else {
        let k = common_with(r, s).index_of(x);
        assert(front[k] == x);
        lemma_common_with_member(r, s.drop_last(), x)
    }
}

proof fn lemma_common_with_has(r: TimeRange, s: Seq<TimeRange>, j: int)
    requires
        0 <= j < s.len(),
        !disjoint(r, s[j]),
    ensures
        common_with(r, s).contains(overlap(r, s[j])),
    decreases s.len(),
{
    let front = common_with(r, s.drop_last());
    if j == s.len() - 1 {
        assert(common_with(r, s)[front.len() as int] == overlap(r, s[j]));
    } else {
        lemma_common_with_has(r, s.drop_last(), j);
        let k = front.index_of(overlap(r, s[j]));
        assert(common_with(r, s)[k] == front[k]);
    }
}

/// The members of the list of common parts are common parts.
pub proof fn lemma_common_member(a: Seq<TimeRange>, b: Seq<TimeRange>, x: TimeRange) -> (ij: (
    int,
    int,
))
    requires
        common_parts(a, b).contains(x),
    ensures
        is_common(a, b, x, ij.0, ij.1),
    decreases a.len(),
{
    let front = common_parts(a.drop_last(), b);
    let row = common_with(a.last(), b);
    let k = common_parts(a, b).index_of(x);
    if k < front.len() {
        assert(front[k] == x);
        lemma_common_member(a.drop_last(), b, x)
    } else {
        assert(row[k - front.len()] == x);
        (a.len() - 1, lemma_common_with_member(a.last(), b, x))
    }
}

/// Every common part is in the list.
pub proof fn lemma_common_has(a: Seq<TimeRange>, b: Seq<TimeRange>, i: int, j: int)
    requires
        0 <= i < a.len(),
        0 <= j < b.len(),
        !disjoint(a[i], b[j]),
    ensures
        common_parts(a, b).contains(overlap(a[i], b[j])),
    decreases a.len(),
{
    let front = common_parts(a.drop_last(), b);
    let row = common_with(a.last(), b);
    let x = overlap(a[i], b[j]);
    if i == a.len() - 1 {
        lemma_common_with_has(a.last(), b, j);
        let k = row.index_of(x);
        assert(common_parts(a, b)[front.len() + k] == x);
    } else {
        lemma_common_has(a.drop_last(), b, i, j);
        let k = front.index_of(x);
        assert(common_parts(a, b)[k] == x);
    }
}

/// The common part of two intervals holds exactly their common days.
pub proof fn lemma_overlap(a: TimeRange, b: TimeRange)
    requires
        a.wf(),
        b.wf(),
    ensures
        forall|d: int| #[trigger] overlap(a, b).holds(d) <==> a.holds(d) && b.holds(d),
        !disjoint(a, b) ==> overlap(a, b).wf(),
        within(overlap(a, b), a),
        within(overlap(a, b), b),
        overlap(a, b) == overlap(b, a),
{
    lemma_bounds_order(a, b);
    lemma_range_by_bounds(overlap(a, b), overlap(b, a));
}

/// Endpoints that reach equally far are equal.
proof fn lemma_bounds_order(a: TimeRange, b: TimeRange)
    requires
        a.wf(),
        b.wf(),
    ensures
        lower_reaches(a.lower_bound(), b.lower_bound()) && lower_reaches(
            b.lower_bound(),
            a.lower_bound(),
        ) ==> a.lower_bound() == b.lower_bound(),
        upper_reaches(a.upper_bound(), b.upper_bound()) && upper_reaches(
            b.upper_bound(),
            a.upper_bound(),
        ) ==> a.upper_bound() == b.upper_bound(),
{
    if a.lower_bound() is Some && b.lower_bound() is Some {
        lemma_bound(a.lower_bound()->0, b.lower_bound()->0);
    }
    if a.upper_bound() is Some && b.upper_bound() is Some {
        lemma_bound(a.upper_bound()->0, b.upper_bound()->0);
    }
}

/// Taking common parts is associative.
proof fn lemma_overlap_associative(a: TimeRange, b: TimeRange, c: TimeRange)
    requires
        a.wf(),
        b.wf(),
        c.wf(),
    ensures
        overlap(overlap(a, b), c) == overlap(a, overlap(b, c)),
        (!disjoint(a, b) && !disjoint(overlap(a, b), c)) <==> (!disjoint(b, c) && !disjoint(
            a,
            overlap(b, c),
        )),
{
    lemma_bounds_order(a, b);
    lemma_bounds_order(b, c);
    lemma_bounds_order(a, c);
    lemma_range_by_bounds(overlap(overlap(a, b), c), overlap(a, overlap(b, c)));
}

/// The common parts are well-formed.
pub proof fn lemma_common_wf(a: Seq<TimeRange>, b: Seq<TimeRange>)
    requires
        all_wf(a),
        all_wf(b),
    ensures
        all_wf(common_parts(a, b)),
{
    let parts = common_parts(a, b);
    assert forall|k: int| 0 <= k < parts.len() implies (#[trigger] parts[k]).wf() by {
        let (i, j) = lemma_common_member(a, b, parts[k]);
        lemma_overlap(a[i], b[j]);
    }
}

/// The common parts hold exactly the common days.
pub proof fn lemma_common_days(a: Seq<TimeRange>, b: Seq<TimeRange>)
    requires
        all_wf(a),
        all_wf(b),
    ensures
        forall|d: int| #[trigger]
            day_in(common_parts(a, b), d) <==> day_in(a, d) && day_in(b, d),
{
    let parts = common_parts(a, b);
    assert forall|d: int| #[trigger] day_in(parts, d) <==> day_in(a, d) && day_in(b, d) by {
        if day_in(parts, d) {
            let k = lemma_day_held_by(parts, d);
            let (i, j) = lemma_common_member(a, b, parts[k]);
            lemma_overlap(a[i], b[j]);
            assert(overlap(a[i], b[j]).holds(d));
            lemma_day_in(a, i, d);
            lemma_day_in(b, j, d);
        }
        if day_in(a, d) && day_in(b, d) {
            let i = lemma_day_held_by(a, d);
            let j = lemma_day_held_by(b, d);
            lemma_overlap(a[i], b[j]);
            assert(overlap(a[i], b[j]).holds(d));
            lemma_common_has(a, b, i, j);
            let k = parts.index_of(overlap(a[i], b[j]));
            lemma_day_in(parts, k, d);
        }
    }
}

/// Each interval of the canonical union of common parts is one of them.
proof fn lemma_form_member(a: Seq<TimeRange>, b: Seq<TimeRange>, n: int) -> (ij: (int, int))
    requires
        canonical(a),
        canonical(b),
        0 <= n < canonical_form(common_parts(a, b)).len(),
    ensures
        is_common(a, b, canonical_form(common_parts(a, b))[n], ij.0, ij.1),
{
    let parts = common_parts(a, b);
    let out = canonical_form(parts);
    lemma_common_wf(a, b);
    lemma_canonical_form(parts);
    lemma_common_days(a, b);
    let r = out[n];
    assert forall|d: int| r.holds(d) implies #[trigger] day_in(a, d) by {
        lemma_day_in(out, n, d);
        assert(day_in(parts, d));
    }
    assert forall|d: int| r.holds(d) implies #[trigger] day_in(b, d) by {
        lemma_day_in(out, n, d);
        assert(day_in(parts, d));
    }
    let i = lemma_interval_covered(a, r);
    let j = lemma_interval_covered(b, r);
    let l = lemma_lower_attained(r, parts);
    let u = lemma_upper_attained(r, parts);
    lemma_part_is(a, b, r, parts[l], i, j);
    lemma_part_is(a, b, r, parts[u], i, j);
    lemma_overlap(a[i], b[j]);
    lemma_range_by_bounds(r, overlap(a[i], b[j]));
    (i, j)
}

/// A common part within an interval that lies in `a[i]` and `b[j]` is the
/// common part of those two.
proof fn lemma_part_is(
    a: Seq<TimeRange>,
    b: Seq<TimeRange>,
    r: TimeRange,
    p: TimeRange,
    i: int,
    j: int,
)
    requires
        canonical(a),
        canonical(b),
        common_parts(a, b).contains(p),
        within(p, r),
        0 <= i < a.len(),
        0 <= j < b.len(),
        within(r, a[i]),
        within(r, b[j]),
    ensures
        is_common(a, b, p, i, j),
{
    let (x, y) = lemma_common_member(a, b, p);
    lemma_overlap(a[x], b[y]);
    let d0 = some_day(p);
    assert(p.wf());
    assert(p.holds(d0));
    assert(overlap(a[x], b[y]).holds(d0));
    lemma_same_interval(a, i, x, d0);
    lemma_same_interval(b, j, y, d0);
}

/// The canonical union of the common parts of two canonical lists has the
/// common parts as its members: nothing merges.
pub proof fn lemma_common_canonical(a: Seq<TimeRange>, b: Seq<TimeRange>)
    requires
        canonical(a),
        canonical(b),
    ensures
        same_members(common_parts(a, b), canonical_form(common_parts(a, b))),
{
    let parts = common_parts(a, b);
    let out = canonical_form(parts);
    lemma_common_wf(a, b);
    lemma_canonical_form(parts);
    assert forall|n: int| 0 <= n < out.len() implies parts.contains(#[trigger] out[n]) by {
        let (i, j) = lemma_form_member(a, b, n);
        lemma_common_has(a, b, i, j);
    }
    assert forall|k: int| 0 <= k < parts.len() implies out.contains(#[trigger] parts[k]) by {
        let n = lemma_covered_by(parts[k], out);
        let (i, j) = lemma_form_member(a, b, n);
        lemma_overlap(a[i], b[j]);
        lemma_part_is(a, b, out[n], parts[k], i, j);
        assert(out[n] == parts[k]);
    }
}

/// Equal members, equal canonical form.
pub proof fn lemma_form_of_members(a: Seq<TimeRange>, b: Seq<TimeRange>)
    requires
        all_wf(a),
        all_wf(b),
        same_members(a, b),
    ensures
        canonical_form(a) == canonical_form(b),
{
    lemma_canonical_form(a);
    lemma_canonical_form(b);
    lemma_coalesce_set(a, b, canonical_form(a));
}

/// The order of the two lists does not matter.
pub proof fn lemma_common_commutative(a: Seq<TimeRange>, b: Seq<TimeRange>)
    requires
        all_wf(a),
        all_wf(b),
    ensures
        canonical_form(common_parts(a, b)) == canonical_form(common_parts(b, a)),
{
    lemma_common_subset(a, b);
    lemma_common_subset(b, a);
    lemma_common_wf(a, b);
    lemma_common_wf(b, a);
    lemma_form_of_members(common_parts(a, b), common_parts(b, a));
}

proof fn lemma_common_subset(a: Seq<TimeRange>, b: Seq<TimeRange>)
    requires
        all_wf(a),
        all_wf(b),
    ensures
        forall|k: int|
            0 <= k < common_parts(a, b).len() ==> common_parts(b, a).contains(
                #[trigger] common_parts(a, b)[k],
            ),
{
    let x = common_parts(a, b);
    assert forall|k: int| 0 <= k < x.len() implies common_parts(b, a).contains(#[trigger] x[k]) by {
        let (i, j) = lemma_common_member(a, b, x[k]);
        lemma_overlap(a[i], b[j]);
        lemma_common_has(b, a, j, i);
    }
}

/// Intersecting three lists does not depend on which two come first.
pub proof fn lemma_common_associative(a: Seq<TimeRange>, b: Seq<TimeRange>, c: Seq<TimeRange>)
    requires
        canonical(a),
        canonical(b),
        canonical(c),
    ensures
        canonical_form(common_parts(canonical_form(common_parts(a, b)), c)) == canonical_form(
            common_parts(a, canonical_form(common_parts(b, c))),
        ),
{
    let ab = canonical_form(common_parts(a, b));
    let bc = canonical_form(common_parts(b, c));
    lemma_common_wf(a, b);
    lemma_common_wf(b, c);
    lemma_canonical_form(common_parts(a, b));
    lemma_canonical_form(common_parts(b, c));
    lemma_common_canonical(a, b);
    lemma_common_canonical(b, c);
    let x = common_parts(ab, c);
    let y = common_parts(a, bc);
    assert forall|k: int| 0 <= k < x.len() implies y.contains(#[trigger] x[k]) by {
        let (n, l) = lemma_common_member(ab, c, x[k]);
        assert(common_parts(a, b).contains(ab[n]));
        let (i, j) = lemma_common_member(a, b, ab[n]);
        lemma_overlap_associative(a[i], b[j], c[l]);
        lemma_common_has(b, c, j, l);
        let v = overlap(b[j], c[l]);
        let q = common_parts(b, c).index_of(v);
        assert(bc.contains(common_parts(b, c)[q]));
        let m = bc.index_of(v);
        lemma_common_has(a, bc, i, m);
    }
    assert forall|k: int| 0 <= k < y.len() implies x.contains(#[trigger] y[k]) by {
        let (i, m) = lemma_common_member(a, bc, y[k]);
        assert(common_parts(b, c).contains(bc[m]));
        let (j, l) = lemma_common_member(b, c, bc[m]);
        lemma_overlap_associative(a[i], b[j], c[l]);
        lemma_common_has(a, b, i, j);
        let v = overlap(a[i], b[j]);
        let q = common_parts(a, b).index_of(v);
        assert(ab.contains(common_parts(a, b)[q]));
        let n = ab.index_of(v);
        lemma_common_has(ab, c, n, l);
    }
    lemma_common_wf(ab, c);
    lemma_common_wf(a, bc);
    lemma_form_of_members(x, y);
}

/// Intersecting a canonical list with itself changes nothing.
pub proof fn lemma_common_idempotent(a: Seq<TimeRange>)
    requires
        canonical(a),
    ensures
        canonical_form(common_parts(a, a)) == a,
{
    let x = common_parts(a, a);
    assert forall|k: int| 0 <= k < x.len() implies a.contains(#[trigger] x[k]) by {
        let (i, j) = lemma_common_member(a, a, x[k]);
        lemma_overlap(a[i], a[j]);
        let d0 = some_day(x[k]);
        assert(overlap(a[i], a[j]).holds(d0));
        lemma_same_interval(a, i, j, d0);
        lemma_range_by_bounds(x[k], a[i]);
        assert(a[i] == x[k]);
    }
    assert forall|i: int| 0 <= i < a.len() implies x.contains(#[trigger] a[i]) by {
        assert(!disjoint(a[i], a[i]));
        lemma_common_has(a, a, i, i);
        lemma_range_by_bounds(overlap(a[i], a[i]), a[i]);
    }
    lemma_common_wf(a, a);
    lemma_form_of_members(x, a);
    super::canonical::lemma_coalesce_canonical(a);
    lemma_canonical_form(a);
}

/// The unbounded interval is neutral.
pub proof fn lemma_common_unbounded(a: Seq<TimeRange>)
    requires
        canonical(a),
    ensures
        canonical_form(common_parts(a, seq![range_between(None, None)])) == a,
{
    let top = seq![range_between(None, None)];
    let x = common_parts(a, top);
    assert(all_wf(top));
    assert forall|k: int| 0 <= k < x.len() implies a.contains(#[trigger] x[k]) by {
        let (i, j) = lemma_common_member(a, top, x[k]);
        lemma_range_by_bounds(overlap(a[i], top[j]), a[i]);
        assert(a[i] == x[k]);
    }
    assert forall|i: int| 0 <= i < a.len() implies x.contains(#[trigger] a[i]) by {
        assert(!disjoint(a[i], top[0]));
        lemma_common_has(a, top, i, 0);
        lemma_range_by_bounds(overlap(a[i], top[0]), a[i]);
    }
    lemma_common_wf(a, top);
    lemma_form_of_members(x, a);
    super::canonical::lemma_coalesce_canonical(a);
    lemma_canonical_form(a);
}

} // verus!
