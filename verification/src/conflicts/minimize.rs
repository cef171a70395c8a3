//! Minimal-unsatisfiable-subset extraction over a bounded lattice: the
//! deletion-based primitive that reduces an over-determined slot's fact set to
//! a minimal fighting set.
//!
//! Given premises whose joint meet is the bottom, [`minimize`] returns one
//! deletion-minimal subset that still meets to the bottom: a set where
//! retracting any single member lifts the meet off it.
use vstd::prelude::*;

use crate::algebra::lattice::{BoundedLattice, JoinSemilattice, MeetSemilattice};
use crate::algebra::ordered::{
    ascending, keys, lemma_ascending_distinct, lemma_ascending_unique, lemma_take_to_set,
    OrderedSet,
};
use crate::facts::ids::FactId;
use crate::nonempty::NonEmptyVec;

verus! {

/// The premises as fact numbers and value views.
pub open spec fn models<T: View>(premises: Seq<(FactId, T)>) -> Seq<(u64, T::V)> {
    premises.map_values(|p: (FactId, T)| (p.0@, p.1@))
}

/// The fact numbers of the premises.
pub open spec fn fact_set<V>(premises: Seq<(u64, V)>) -> Set<u64> {
    premises.map_values(|p: (u64, V)| p.0).to_set()
}

/// All values are well-formed.
pub open spec fn all_valid<T: BoundedLattice>(premises: Seq<(u64, T::V)>) -> bool {
    forall|i: int| 0 <= i < premises.len() ==> T::valid((#[trigger] premises[i]).1)
}

/// The meet of the premises whose fact is in `keep`.
pub open spec fn kept_meet<T: BoundedLattice>(premises: Seq<(u64, T::V)>, keep: Set<u64>) -> T::V
    decreases premises.len(),
{
    if premises.len() == 0 {
        T::top_model()
    } else {
        let front = kept_meet::<T>(premises.drop_last(), keep);
        if keep.contains(premises.last().0) {
            T::meet_model(front, premises.last().1)
        } else {
            front
        }
    }
}

/// Whether the premises whose fact is in `keep` contradict each other.
pub open spec fn contradictory<T: BoundedLattice>(
    premises: Seq<(u64, T::V)>,
    keep: Set<u64>,
) -> bool {
    T::is_bottom_model(kept_meet::<T>(premises, keep))
}

/// What is left of `keep` after trying to drop the facts of `order` in turn:
/// a fact goes when the rest still contradicts itself and is not empty.
pub open spec fn deletion_pass<T: BoundedLattice>(
    premises: Seq<(u64, T::V)>,
    keep: Set<u64>,
    order: Seq<u64>,
) -> Set<u64>
    decreases order.len(),
{
    if order.len() == 0 {
        keep
    } else if keep.len() > 1 && contradictory::<T>(premises, keep.remove(order[0])) {
        deletion_pass::<T>(premises, keep.remove(order[0]), order.skip(1))
    } else {
        deletion_pass::<T>(premises, keep, order.skip(1))
    }
}

/// `order` lists the members of `s`, ascending.
pub open spec fn lists(order: Seq<u64>, s: Set<u64>) -> bool {
    ascending::<FactId>(order) && order.to_set() == s
}

proof fn lemma_kept_meet_valid<T: BoundedLattice>(premises: Seq<(u64, T::V)>, keep: Set<u64>)
    requires
        all_valid::<T>(premises),
    ensures
        T::valid(kept_meet::<T>(premises, keep)),
        T::meet_valid(kept_meet::<T>(premises, keep)),
    decreases premises.len(),
{
    if premises.len() == 0 {
        T::law_top_valid();
        T::law_valid_agrees(T::top_model());
    } else {
        let front = premises.drop_last();
        assert(all_valid::<T>(front)) by {
            assert forall|i: int| 0 <= i < front.len() implies T::valid((#[trigger] front[i]).1) by {
                assert(front[i] == premises[i]);
            }
        }
        lemma_kept_meet_valid::<T>(front, keep);
        let m = kept_meet::<T>(front, keep);
        let last = premises[premises.len() - 1].1;
        T::law_valid_agrees(m);
        T::law_valid_agrees(last);
        T::law_meet_valid(m, last);
        T::law_valid_agrees(T::meet_model(m, last));
    }
}

/// More kept premises meet to the meet of the fewer with the others.
proof fn lemma_kept_meet_split<T: BoundedLattice>(
    premises: Seq<(u64, T::V)>,
    small: Set<u64>,
    large: Set<u64>,
)
    requires
        all_valid::<T>(premises),
        small.subset_of(large),
    ensures
        kept_meet::<T>(premises, large) == T::meet_model(
            kept_meet::<T>(premises, small),
            kept_meet::<T>(premises, large.difference(small)),
        ),
    decreases premises.len(),
{
    let other = large.difference(small);
    if premises.len() == 0 {
        T::law_top_valid();
        T::law_meet_identity(T::top_model());
    } else {
        let front = premises.drop_last();
        assert(all_valid::<T>(front)) by {
            assert forall|i: int| 0 <= i < front.len() implies T::valid((#[trigger] front[i]).1) by {
                assert(front[i] == premises[i]);
            }
        }
        lemma_kept_meet_split::<T>(front, small, large);
        lemma_kept_meet_valid::<T>(front, small);
        lemma_kept_meet_valid::<T>(front, other);
        let id = premises.last().0;
        let v = premises[premises.len() - 1].1;
        let a = kept_meet::<T>(front, small);
        let b = kept_meet::<T>(front, other);
        T::law_valid_agrees(v);
        if small.contains(id) {
            // (a b) v == (a v) b
            T::law_meet_associative(a, b, v);
            T::law_meet_commutative(b, v);
            T::law_meet_associative(a, v, b);
        } else if large.contains(id) {
            T::law_meet_associative(a, b, v);
        }
    }
}

/// A contradiction stays one when more premises are kept.
pub proof fn lemma_contradiction_grows<T: BoundedLattice>(
    premises: Seq<(u64, T::V)>,
    small: Set<u64>,
    large: Set<u64>,
)
    requires
        all_valid::<T>(premises),
        small.subset_of(large),
        contradictory::<T>(premises, small),
    ensures
        contradictory::<T>(premises, large),
{
    lemma_kept_meet_split::<T>(premises, small, large);
    lemma_kept_meet_valid::<T>(premises, small);
    lemma_kept_meet_valid::<T>(premises, large.difference(small));
    T::law_annihilators(
        kept_meet::<T>(premises, small),
        kept_meet::<T>(premises, large.difference(small)),
    );
}

/// The kept meet with the premise at `i` taken out of the list.
proof fn lemma_kept_meet_remove<T: BoundedLattice>(
    premises: Seq<(u64, T::V)>,
    keep: Set<u64>,
    i: int,
)
    requires
        all_valid::<T>(premises),
        0 <= i < premises.len(),
    ensures
        all_valid::<T>(premises.remove(i)),
        kept_meet::<T>(premises, keep) == (if keep.contains(premises[i].0) {
            T::meet_model(kept_meet::<T>(premises.remove(i), keep), premises[i].1)
        } else {
            kept_meet::<T>(premises.remove(i), keep)
        }),
    decreases premises.len(),
{
    let rest = premises.remove(i);
    assert forall|k: int| 0 <= k < rest.len() implies T::valid((#[trigger] rest[k]).1) by {
        assert(rest[k] == premises[if k < i {
            k
        } else {
            k + 1
        }]);
    }
    if i == premises.len() - 1 {
        assert(rest =~= premises.drop_last());
    } else {
        let front = premises.drop_last();
        assert(all_valid::<T>(front)) by {
            assert forall|k: int| 0 <= k < front.len() implies T::valid((#[trigger] front[k]).1) by {
                assert(front[k] == premises[k]);
            }
        }
        lemma_kept_meet_remove::<T>(front, keep, i);
        assert(rest.drop_last() =~= front.remove(i));
        let inner = front.remove(i);
        lemma_kept_meet_valid::<T>(inner, keep);
        let m = kept_meet::<T>(inner, keep);
        let x = premises[i].1;
        let y = premises[premises.len() - 1].1;
        T::law_valid_agrees(x);
        T::law_valid_agrees(y);
        T::law_meet_associative(m, x, y);
        T::law_meet_commutative(x, y);
        T::law_meet_associative(m, y, x);
    }
}

/// The kept meet does not depend on the order of the premises.
pub proof fn lemma_kept_meet_permutation<T: BoundedLattice>(
    a: Seq<(u64, T::V)>,
    b: Seq<(u64, T::V)>,
    keep: Set<u64>,
)
    requires
        all_valid::<T>(a),
        all_valid::<T>(b),
        a.to_multiset() == b.to_multiset(),
    ensures
        kept_meet::<T>(a, keep) == kept_meet::<T>(b, keep),
    decreases a.len(),
{
    broadcast use vstd::seq_lib::group_to_multiset_ensures;

    assert(a.len() == a.to_multiset().len());
    assert(b.len() == b.to_multiset().len());
    if a.len() > 0 {
        let x = a.last();
        assert(a.contains(x));
        assert(b.to_multiset().count(x) > 0);
        assert(b.contains(x));
        let j = b.index_of(x);
        let i = a.len() - 1;
        lemma_kept_meet_remove::<T>(a, keep, i);
        lemma_kept_meet_remove::<T>(b, keep, j);
        assert(a.remove(i).to_multiset() =~= b.remove(j).to_multiset());
        lemma_kept_meet_permutation::<T>(a.remove(i), b.remove(j), keep);
    }
}

/// What the deletion pass leaves: part of what it started from, not empty,
/// still contradictory, and with no member of `order` that could go.
proof fn lemma_deletion_pass<T: BoundedLattice>(
    premises: Seq<(u64, T::V)>,
    keep: Set<u64>,
    order: Seq<u64>,
)
    requires
        all_valid::<T>(premises),
        keep.finite(),
        keep.len() > 0,
        contradictory::<T>(premises, keep),
        order.no_duplicates(),
        forall|i: int| 0 <= i < order.len() ==> keep.contains(#[trigger] order[i]),
    ensures
        deletion_pass::<T>(premises, keep, order).subset_of(keep),
        deletion_pass::<T>(premises, keep, order).finite(),
        deletion_pass::<T>(premises, keep, order).len() > 0,
        contradictory::<T>(premises, deletion_pass::<T>(premises, keep, order)),
        deletion_pass::<T>(premises, keep, order).len() > 1 ==> forall|x: u64| #[trigger]
            order.contains(x) && deletion_pass::<T>(premises, keep, order).contains(x)
                ==> !contradictory::<T>(
                premises,
                deletion_pass::<T>(premises, keep, order).remove(x),
            ),
    decreases order.len(),
{
    if order.len() > 0 {
        let first = order[0];
        let rest = order.skip(1);
        let goes = keep.len() > 1 && contradictory::<T>(premises, keep.remove(first));
        let next = if goes {
            keep.remove(first)
        } else {
            keep
        };
        assert(keep.contains(first));
        assert forall|i: int| 0 <= i < rest.len() implies next.contains(#[trigger] rest[i]) by {
            assert(rest[i] == order[i + 1]);
            assert(order[i + 1] != order[0]);
        }
        assert(rest.no_duplicates()) by {
            assert forall|i: int, j: int| 0 <= i < rest.len() && 0 <= j < rest.len() && i
                != j implies rest[i] != rest[j] by {
                assert(rest[i] == order[i + 1] && rest[j] == order[j + 1]);
            }
        }
        lemma_deletion_pass::<T>(premises, next, rest);
        let out = deletion_pass::<T>(premises, keep, order);
        assert(out == deletion_pass::<T>(premises, next, rest));
        if out.len() > 1 {
            assert forall|x: u64| #[trigger] order.contains(x) && out.contains(x) implies
                !contradictory::<T>(premises, out.remove(x)) by {
                if x == first {
                    assert(!goes);
                    vstd::set_lib::lemma_len_subset(out, keep);
                    if contradictory::<T>(premises, out.remove(x)) {
                        lemma_contradiction_grows::<T>(premises, out.remove(x), keep.remove(first));
                    }
                } else {
                    let k = order.index_of(x);
                    assert(rest[k - 1] == x);
                    assert(rest.contains(x));
                }
            }
        }
    }
}

/// A value has collapsed to the bottom, by the lattice's own predicate.
fn is_bottom<T: JoinSemilattice>(v: &T) -> (r: bool)
    requires
        T::valid(v@),
    ensures
        r == T::is_bottom_model(v@),
{
    v.is_bottom()
}

/// Meet the premise values that survive `keep` and are not `skip`, folding
/// from the top. An empty selection yields the top.
pub fn meet_of<T: BoundedLattice + Clone>(
    premises: &[(FactId, T)],
    keep: &OrderedSet<FactId>,
    skip: Option<FactId>,
) -> (r: T)
    requires
        all_valid::<T>(models(premises@)),
        forall|x: T, y: T| #[trigger] call_ensures(T::clone, (&x,), y) ==> x@ == y@,
    ensures
        r@ == kept_meet::<T>(
            models(premises@),
            match skip {
                Some(s) => keep@.remove(s@),
                None => keep@,
            },
        ),
        T::valid(r@),
{
    let ghost kept = match skip {
        Some(s) => keep@.remove(s@),
        None => keep@,
    };
    let ghost all = models(premises@);
    let mut acc = T::top();
    let mut i: usize = 0;
    proof {
        assert(all.take(0).len() == 0);
    }
    while i < premises.len()
        invariant
            i <= premises@.len(),
            all == models(premises@),
            all_valid::<T>(all),
            forall|x: T, y: T| #[trigger] call_ensures(T::clone, (&x,), y) ==> x@ == y@,
            kept == (match skip {
                Some(s) => keep@.remove(s@),
                None => keep@,
            }),
            T::meet_valid(acc@),
            acc@ == kept_meet::<T>(all.take(i as int), kept),
        decreases premises.len() - i,
    {
        proof {
            assert(all.take(i + 1).drop_last() =~= all.take(i as int));
            assert(all.take(i + 1).last() == all[i as int]);
            T::law_valid_agrees(all[i as int].1);
        }
        let fact = premises[i].0;
        let skipped = match skip {
            Some(s) => s.get() == fact.get(),
            None => false,
        };
        if !skipped && keep.contains(&fact) {
            let value = premises[i].1.clone();
            assert(value@ == all[i as int].1);
            acc = acc.meet(value);
        }
        i += 1;
    }
    proof {
        assert(all.take(i as int) =~= all);
        T::law_valid_agrees(acc@);
    }
    acc
}

/// The facts of a fighting set, as numbers.
pub open spec fn found_facts(found: Option<NonEmptyVec<FactId>>) -> Option<Seq<u64>> {
    match found {
        Some(set) => Some(keys(set@)),
        None => None,
    }
}

/// Whether `found` is what the premises are reduced to: nothing where they do not
/// contradict each other, and else what is left of their facts after trying to drop
/// each, from the lowest to the highest.
pub open spec fn minimized<T: BoundedLattice>(
    premises: Seq<(u64, T::V)>,
    found: Option<Seq<u64>>,
) -> bool {
    let facts = fact_set(premises);
    match found {
        None => premises.len() == 0 || !contradictory::<T>(premises, facts),
        Some(set) => {
            &&& premises.len() > 0
            &&& contradictory::<T>(premises, facts)
            &&& ascending::<FactId>(set)
            &&& exists|order: Seq<u64>|
                lists(order, facts) && set.to_set() == #[trigger] deletion_pass::<T>(
                    premises,
                    facts,
                    order,
                )
            &&& irreducible::<T>(premises, set.to_set())
        },
    }
}

/// Reduce premises whose joint meet is the bottom to one minimal
/// unsatisfiable subset: an irreducible fact set that still meets to the
/// bottom.
///
/// Returns `None` when the joint meet is not the bottom: the slot is
/// consistent, so there is no fighting set to attribute. Facts are tried for
/// removal in ascending order, so the set the deletion pass settles on does not
/// depend on the order in which the premises were found.
pub fn minimize<T: BoundedLattice + Clone>(premises: &[(FactId, T)]) -> (r: Option<
    NonEmptyVec<FactId>,
>)
    requires
        all_valid::<T>(models(premises@)),
        forall|x: T, y: T| #[trigger] call_ensures(T::clone, (&x,), y) ==> x@ == y@,
    ensures
        minimized::<T>(models(premises@), found_facts(r)),
{
    let ghost all = models(premises@);
    let ghost facts = fact_set(all);
    let mut keep: OrderedSet<FactId> = OrderedSet::new();
    let mut n: usize = 0;
    let ghost numbers = all.map_values(|p: (u64, T::V)| p.0);
    assert(keep@ =~= numbers.take(0).to_set());
    while n < premises.len()
        invariant
            n <= premises@.len(),
            all == models(premises@),
            numbers == all.map_values(|p: (u64, T::V)| p.0),
            keep@ == numbers.take(n as int).to_set(),
        decreases premises.len() - n,
    {
        proof {
            lemma_take_to_set(numbers, n as int);
        }
        keep.insert(premises[n].0);
        n += 1;
    }
    assert(numbers.take(n as int) =~= numbers);

    if premises.len() == 0 {
        return None;
    }
    if !is_bottom(&meet_of(premises, &keep, None)) {
        return None;
    }
    let survivors = keep.duplicate().into_vec();
    let ghost order = keys(survivors@);
    proof {
        lemma_ascending_distinct::<FactId>(order);
        assert(facts.contains(numbers[0])) by {
            assert(numbers.contains(numbers[0]));
        }
        vstd::set_lib::lemma_len_subset(set![numbers[0]], facts);
        assert(lists(order, facts));
        assert forall|i: int| 0 <= i < order.len() implies facts.contains(#[trigger] order[i]) by {
            assert(order.contains(order[i]));
        }
        lemma_deletion_pass::<T>(all, facts, order);
        assert(order.skip(0) =~= order);
    }
    let mut i: usize = 0;
    while i < survivors.len()
        invariant
            i <= survivors@.len(),
            all == models(premises@),
            all_valid::<T>(all),
            forall|x: T, y: T| #[trigger] call_ensures(T::clone, (&x,), y) ==> x@ == y@,
            order == keys(survivors@),
            deletion_pass::<T>(all, keep@, order.skip(i as int)) == deletion_pass::<T>(
                all,
                facts,
                order,
            ),
        decreases survivors.len() - i,
    {
        let x = survivors[i];
        let without = meet_of(premises, &keep, Some(x));
        proof {
            assert(order.skip(i as int)[0] == x@);
            assert(order.skip(i as int).skip(1) =~= order.skip(i + 1));
        }
        // Never drop the last survivor.
        if keep.len() > 1 && is_bottom(&without) {
            keep.remove(&x);
        }
        i += 1;
    }
    proof {
        assert(order.skip(i as int) =~= Seq::empty());
        assert(keep@ == deletion_pass::<T>(all, facts, order));
        let out = deletion_pass::<T>(all, facts, order);
        assert forall|x: u64| out.contains(x) implies order.contains(x) by {
            assert(facts.contains(x));
        }
        assert(irreducible::<T>(all, out));
    }
    let kept = keep.into_vec();
    proof {
        lemma_ascending_distinct::<FactId>(keys(kept@));
    }
    match NonEmptyVec::try_from_vec(kept) {
        Ok(set) => Some(set),
        Err(_) => None,
    }
}

/// `keep` is a minimal fighting set of the premises: facts of theirs that
/// contradict each other, while no proper part but a single fact's empty rest
/// does.
pub open spec fn irreducible<T: BoundedLattice>(
    premises: Seq<(u64, T::V)>,
    keep: Set<u64>,
) -> bool {
    &&& keep.finite()
    &&& keep.len() > 0
    &&& keep.subset_of(fact_set(premises))
    &&& contradictory::<T>(premises, keep)
    &&& keep.len() > 1 ==> forall|x: u64| #[trigger]
        keep.contains(x) ==> !contradictory::<T>(premises, keep.remove(x))
}

/// The order in which premises were found changes neither whether they
/// contradict each other nor what the deletion pass leaves.
pub proof fn law_order_independent<T: BoundedLattice>(
    a: Seq<(u64, T::V)>,
    b: Seq<(u64, T::V)>,
    keep: Set<u64>,
    order: Seq<u64>,
)
    requires
        all_valid::<T>(a),
        all_valid::<T>(b),
        a.to_multiset() == b.to_multiset(),
    ensures
        fact_set(a) == fact_set(b),
        contradictory::<T>(a, keep) == contradictory::<T>(b, keep),
        deletion_pass::<T>(a, keep, order) == deletion_pass::<T>(b, keep, order),
    decreases order.len(),
{
    broadcast use vstd::seq_lib::group_to_multiset_ensures;

    lemma_kept_meet_permutation::<T>(a, b, keep);
    let na = a.map_values(|p: (u64, T::V)| p.0);
    let nb = b.map_values(|p: (u64, T::V)| p.0);
    assert forall|x: u64| na.contains(x) <==> nb.contains(x) by {
        if na.contains(x) {
            let i = na.index_of(x);
            assert(a.contains(a[i]));
            assert(b.to_multiset().count(a[i]) > 0);
            assert(b.contains(a[i]));
            let j = b.index_of(a[i]);
            assert(nb[j] == x);
        }
        if nb.contains(x) {
            let i = nb.index_of(x);
            assert(b.contains(b[i]));
            assert(a.to_multiset().count(b[i]) > 0);
            assert(a.contains(b[i]));
            let j = a.index_of(b[i]);
            assert(na[j] == x);
        }
    }
    assert(fact_set(a) =~= fact_set(b));
    if order.len() > 0 {
        lemma_kept_meet_permutation::<T>(a, b, keep.remove(order[0]));
        law_order_independent::<T>(a, b, keep.remove(order[0]), order.skip(1));
        law_order_independent::<T>(a, b, keep, order.skip(1));
    }
}

/// Premises are reduced to the same facts in whatever order they were found.
pub proof fn law_reduction_ignores_order<T: BoundedLattice>(
    a: Seq<(u64, T::V)>,
    b: Seq<(u64, T::V)>,
    found_a: Option<Seq<u64>>,
    found_b: Option<Seq<u64>>,
)
    requires
        all_valid::<T>(a),
        all_valid::<T>(b),
        a.to_multiset() == b.to_multiset(),
        minimized::<T>(a, found_a),
        minimized::<T>(b, found_b),
    ensures
        found_a == found_b,
{
    let facts = fact_set(a);
    law_order_independent::<T>(a, b, facts, Seq::empty());
    a.to_multiset_ensures();
    b.to_multiset_ensures();
    assert(a.len() == b.len());
    match (found_a, found_b) {
        (Some(x), Some(y)) => {
            let first = choose|order: Seq<u64>|
                lists(order, facts) && x.to_set() == #[trigger] deletion_pass::<T>(
                    a,
                    facts,
                    order,
                );
            let second = choose|order: Seq<u64>|
                lists(order, facts) && y.to_set() == #[trigger] deletion_pass::<T>(
                    b,
                    facts,
                    order,
                );
            assert(forall|n: u64| #[trigger] first.contains(n) <==> first.to_set().contains(n));
            assert(forall|n: u64| #[trigger] second.contains(n) <==> second.to_set().contains(n));
            lemma_ascending_unique::<FactId>(first, second);
            law_order_independent::<T>(a, b, facts, first);
            assert(forall|n: u64| #[trigger] x.contains(n) <==> x.to_set().contains(n));
            assert(forall|n: u64| #[trigger] y.contains(n) <==> y.to_set().contains(n));
            lemma_ascending_unique::<FactId>(x, y);
        },
        _ => {},
    }
}

/// A fact that no contradiction needs is in no minimal fighting set of two or
/// more facts.
pub proof fn law_redundant_fact_dropped<T: BoundedLattice>(
    premises: Seq<(u64, T::V)>,
    keep: Set<u64>,
    padding: u64,
)
    requires
        irreducible::<T>(premises, keep),
        keep.len() > 1,
        forall|other: Set<u64>| #[trigger]
            contradictory::<T>(premises, other) ==> contradictory::<T>(
                premises,
                other.remove(padding),
            ),
    ensures
        !keep.contains(padding),
{
}

/// What a deletion pass does with the fact at `i` of the order it tries them in.
proof fn lemma_tried<T: BoundedLattice>(
    premises: Seq<(u64, T::V)>,
    keep: Set<u64>,
    order: Seq<u64>,
    i: int,
)
    requires
        keep.finite(),
        order.no_duplicates(),
        forall|k: int| 0 <= k < order.len() ==> keep.contains(#[trigger] order[k]),
        0 <= i < order.len(),
    ensures
        ({
            let left = deletion_pass::<T>(premises, keep, order);
            let rest = Set::new(
                |y: u64|
                    keep.contains(y) && y != order[i] && (left.contains(y) || !order.take(
                        i,
                    ).contains(y)),
            );
            !left.contains(order[i]) <==> rest.len() > 0 && contradictory::<T>(premises, rest)
        }),
    decreases order.len(),
{
    let first = order[0];
    let after = order.skip(1);
    let goes = keep.len() > 1 && contradictory::<T>(premises, keep.remove(first));
    let next = if goes {
        keep.remove(first)
    } else {
        keep
    };
    let left = deletion_pass::<T>(premises, keep, order);
    assert(left == deletion_pass::<T>(premises, next, after));
    let rest = Set::new(
        |y: u64|
            keep.contains(y) && y != order[i] && (left.contains(y) || !order.take(i).contains(y)),
    );
    assert(!after.contains(first)) by {
        if after.contains(first) {
            let k = after.index_of(first);
            assert(order[k + 1] == first);
        }
    }
    lemma_untried::<T>(premises, next, after, first);
    if i == 0 {
        assert(order.take(0) =~= Seq::<u64>::empty());
        assert(rest =~= keep.remove(first));
    } else {
        assert forall|k: int| 0 <= k < after.len() implies next.contains(#[trigger] after[k]) by {
            assert(order[k + 1] == after[k]);
            assert(after.contains(after[k]));
        }
        assert(after.no_duplicates());
        lemma_tried::<T>(premises, next, after, i - 1);
        let other = Set::new(
            |y: u64|
                next.contains(y) && y != after[i - 1] && (left.contains(y) || !after.take(
                    i - 1,
                ).contains(y)),
        );
        assert forall|y: u64| other.contains(y) <==> rest.contains(y) by {
            if y == first {
                assert(order.take(i)[0] == first);
                assert(order.take(i).contains(first));
                if after.take(i - 1).contains(first) {
                    let k = after.take(i - 1).index_of(first);
                    assert(after[k] == first);
                }
                assert(first != order[i]);
            } else {
                if order.take(i).contains(y) {
                    let k = order.take(i).index_of(y);
                    assert(after.take(i - 1)[k - 1] == y);
                }
                if after.take(i - 1).contains(y) {
                    let k = after.take(i - 1).index_of(y);
                    assert(order.take(i)[k + 1] == y);
                }
            }
        }
        assert(other =~= rest);
    }
}

/// A deletion pass leaves a fact that it does not try as it is.
proof fn lemma_untried<T: BoundedLattice>(
    premises: Seq<(u64, T::V)>,
    keep: Set<u64>,
    order: Seq<u64>,
    x: u64,
)
    requires
        !order.contains(x),
    ensures
        deletion_pass::<T>(premises, keep, order).contains(x) <==> keep.contains(x),
    decreases order.len(),
{
    if order.len() > 0 {
        assert(order.contains(order[0]));
        assert(!order.skip(1).contains(x)) by {
            if order.skip(1).contains(x) {
                let k = order.skip(1).index_of(x);
                assert(order[k + 1] == x);
            }
        }
        lemma_untried::<T>(premises, keep, order.skip(1), x);
        lemma_untried::<T>(premises, keep.remove(order[0]), order.skip(1), x);
    }
}

/// The lowest facts go first: a fact is left out of the set that premises are reduced
/// to exactly where the facts kept below it and all facts above it already contradict
/// each other.
pub proof fn law_left_out_where_the_rest_contradicts<T: BoundedLattice>(
    premises: Seq<(u64, T::V)>,
    set: Seq<u64>,
    x: u64,
)
    requires
        minimized::<T>(premises, Some(set)),
        fact_set(premises).contains(x),
    ensures
        ({
            let rest = Set::new(
                |y: u64|
                    fact_set(premises).contains(y) && ((y < x && set.contains(y)) || x < y),
            );
            !set.contains(x) <==> rest.len() > 0 && contradictory::<T>(premises, rest)
        }),
{
    let facts = fact_set(premises);
    let order = choose|order: Seq<u64>|
        lists(order, facts) && set.to_set() == #[trigger] deletion_pass::<T>(premises, facts, order);
    lemma_ascending_distinct::<FactId>(order);
    assert forall|k: int| 0 <= k < order.len() implies facts.contains(#[trigger] order[k]) by {
        assert(order.contains(order[k]));
    }
    assert(order.to_set().contains(x));
    let i = order.index_of(x);
    lemma_tried::<T>(premises, facts, order, i);
    let left = set.to_set();
    let rest = Set::new(
        |y: u64| facts.contains(y) && ((y < x && set.contains(y)) || x < y),
    );
    let other = Set::new(
        |y: u64|
            facts.contains(y) && y != order[i] && (left.contains(y) || !order.take(i).contains(y)),
    );
    assert forall|y: u64| other.contains(y) <==> rest.contains(y) by {
        if facts.contains(y) && y != x {
            assert(order.to_set().contains(y));
            let k = order.index_of(y);
            if y < x {
                assert(!(i < k));
                assert(order.take(i)[k] == y);
            } else {
                assert(!(k < i));
                if order.take(i).contains(y) {
                    let l = order.take(i).index_of(y);
                    assert(order[l] == y);
                }
            }
        }
    }
    assert(other =~= rest);
}

} // verus!
