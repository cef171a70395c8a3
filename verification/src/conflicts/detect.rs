//! Date-conflict detection primitives over a projected entity.
//!
//! [`fact_lineage`] tags each slot's support with the whole stored fact
//! ([`FactAtom`]). [`fact_date`] recovers a bookend or event date fact's own
//! interval. [`minimal_fighting_sets`] splits an over-determined slot's premises into the
//! minimal sets whose joint meet is empty.
use vstd::prelude::*;

use super::minimize::{
    all_valid, contradictory, deletion_pass, fact_set, irreducible, kept_meet, lists, minimize,
    models,
};
use crate::algebra::ordered::{keys, Standing, TotalOrder};
use crate::algebra::semiring::Label;
use crate::date::canonical::{canonical, day_in, lemma_day_held_by, lemma_day_in, some_day};
use crate::date::range::{lemma_range_between, TimeRange};
use crate::date::uncertain::{everything, lemma_meet, meet_of, UncertainDate};
use crate::facts::assertions::FactualAssertion;
use crate::facts::ids::FactId;
use crate::facts::submit::StoredFact;
use crate::facts::{bookend, event};
use crate::nonempty::NonEmptyVec;

verus! {

// --- Facts as premises ---

/// A provenance atom: a stored fact beside its id.
///
/// Fact ids are unique, so an atom is known by its id alone.
#[derive(Debug)]
pub struct FactAtom<'a, EntId: TotalOrder, EvtId: TotalOrder, ImgId: TotalOrder> {
    /// The fact's id: the atom's whole identity.
    pub id: FactId,
    /// The stored fact the id names.
    pub fact: &'a StoredFact<EntId, EvtId, ImgId>,
}

impl<'a, EntId: TotalOrder, EvtId: TotalOrder, ImgId: TotalOrder> View for FactAtom<
    'a,
    EntId,
    EvtId,
    ImgId,
> {
    type V = u64;

    open spec fn view(&self) -> u64 {
        self.id@
    }
}

impl<'a, EntId: TotalOrder, EvtId: TotalOrder, ImgId: TotalOrder> Clone for FactAtom<
    'a,
    EntId,
    EvtId,
    ImgId,
> {
    fn clone(&self) -> (r: Self)
        ensures
            r == *self,
    {
        FactAtom { id: self.id, fact: self.fact }
    }
}

impl<'a, EntId: TotalOrder, EvtId: TotalOrder, ImgId: TotalOrder> TotalOrder for FactAtom<
    'a,
    EntId,
    EvtId,
    ImgId,
> {
    open spec fn precedes(a: u64, b: u64) -> bool {
        a < b
    }

    proof fn irreflexive(a: u64) {
    }

    proof fn transitive(a: u64, b: u64, c: u64) {
    }

    proof fn total(a: u64, b: u64) {
    }

    proof fn clone_keeps_view(a: Self, b: Self) {
    }

    fn compare(&self, other: &Self) -> (r: Standing) {
        self.id.compare(&other.id)
    }
}

/// The support of what one fact says: the fact itself, beside its id, as the only
/// premise.
pub fn fact_lineage<'a, EntId: TotalOrder, EvtId: TotalOrder, ImgId: TotalOrder>(
    fact_id: &FactId,
    _subject: &EntId,
    fact: &'a StoredFact<EntId, EvtId, ImgId>,
) -> (r: Label<FactAtom<'a, EntId, EvtId, ImgId>>)
    ensures
        r@ == Set::<Set<u64>>::empty().insert(Set::<u64>::empty().insert(fact_id@)),
        r.held() == set![(FactAtom { id: *fact_id, fact })],
{
    Label::premise(FactAtom { id: *fact_id, fact })
}

/// The date that a fact on one end of a construction, demolition or event
/// carries.
pub open spec fn date_of<EntId: TotalOrder, EvtId: TotalOrder, ImgId: TotalOrder>(
    fact: StoredFact<EntId, EvtId, ImgId>,
) -> Option<UncertainDate> {
    match fact {
        StoredFact::Factual(f) => match f.assertion {
            FactualAssertion::Construction { fact } => match fact {
                bookend::ConstructionFact::Started { bound, .. } => Some(bound),
                bookend::ConstructionFact::Completed { bound, .. } => Some(bound),
                bookend::ConstructionFact::Location { .. } => None,
            },
            FactualAssertion::Demolition { fact } => match fact {
                bookend::DemolitionFact::Started { bound, .. } => Some(bound),
                bookend::DemolitionFact::Completed { bound, .. } => Some(bound),
            },
            FactualAssertion::Event { fact } => match fact {
                event::Fact::DurationalDate { bound, .. } => Some(bound),
                event::Fact::PointDate { bound, .. } => Some(bound),
                _ => None,
            },
            _ => None,
        },
        _ => None,
    }
}

/// The date a bookend or event date fact carries, whichever end it is of.
pub fn fact_date<EntId: TotalOrder, EvtId: TotalOrder, ImgId: TotalOrder>(
    fact: &StoredFact<EntId, EvtId, ImgId>,
) -> (r: Option<&UncertainDate>)
    ensures
        r is Some <==> date_of(*fact) is Some,
        r is Some ==> *r->0 == date_of(*fact)->0,
{
    match fact {
        StoredFact::Factual(f) => match &f.assertion {
            FactualAssertion::Construction { fact } => match fact {
                bookend::ConstructionFact::Started { bound, .. } => Some(bound),
                bookend::ConstructionFact::Completed { bound, .. } => Some(bound),
                bookend::ConstructionFact::Location { .. } => None,
            },
            FactualAssertion::Demolition { fact } => match fact {
                bookend::DemolitionFact::Started { bound, .. } => Some(bound),
                bookend::DemolitionFact::Completed { bound, .. } => Some(bound),
            },
            FactualAssertion::Event { fact } => match fact {
                event::Fact::DurationalDate { bound, .. } => Some(bound),
                event::Fact::PointDate { bound, .. } => Some(bound),
                _ => None,
            },
            _ => None,
        },
        _ => None,
    }
}

/// Whether a stored fact is a claim on the start of a construction.
pub fn is_construction_start<EntId: TotalOrder, EvtId: TotalOrder, ImgId: TotalOrder>(
    fact: &StoredFact<EntId, EvtId, ImgId>,
) -> (r: bool)
    ensures
        r == match *fact {
            StoredFact::Factual(f) => match f.assertion {
                FactualAssertion::Construction {
                    fact: bookend::ConstructionFact::Started { .. },
                } => true,
                _ => false,
            },
            _ => false,
        },
{
    match fact {
        StoredFact::Factual(f) => match &f.assertion {
            FactualAssertion::Construction { fact } => match fact {
                bookend::ConstructionFact::Started { .. } => true,
                _ => false,
            },
            _ => false,
        },
        _ => false,
    }
}

// --- Fighting sets ---

/// A dated fact: its number and the intervals of its date.
pub type DatedFact = (u64, Seq<TimeRange>);

/// Whether two dates have no day in common.
pub open spec fn dates_disjoint(a: Seq<TimeRange>, b: Seq<TimeRange>) -> bool {
    meet_of(a, b).len() == 0
}

/// Whether no day is in both dates.
pub open spec fn share_no_day(a: Seq<TimeRange>, b: Seq<TimeRange>) -> bool {
    forall|day: int| !(#[trigger] day_in(a, day) && day_in(b, day))
}

/// Two dates are disjoint exactly where no day is in both.
pub proof fn law_disjoint_where_no_day_is_shared(a: Seq<TimeRange>, b: Seq<TimeRange>)
    requires
        canonical(a),
        canonical(b),
    ensures
        dates_disjoint(a, b) <==> forall|day: int| !(#[trigger] day_in(a, day) && day_in(b, day)),
{
    lemma_meet(a, b);
    let m = meet_of(a, b);
    if m.len() > 0 {
        let day = some_day(m[0]);
        assert(m[0].wf());
        assert(m[0].holds(day));
        lemma_day_in(m, 0, day);
        assert(day_in(a, day) && day_in(b, day));
    } else {
        assert forall|day: int| !(#[trigger] day_in(a, day) && day_in(b, day)) by {
            if day_in(m, day) {
                let k = lemma_day_held_by(m, day);
            }
        }
    }
}

/// The facts after position `i` whose date is disjoint from that of fact `i`,
/// each paired with it, up to position `j`.
pub open spec fn pairs_with(premises: Seq<DatedFact>, i: int, j: int) -> Seq<Seq<u64>>
    decreases j - i,
{
    if j <= i + 1 {
        Seq::empty()
    } else if dates_disjoint(premises[i].1, premises[j - 1].1) {
        pairs_with(premises, i, j - 1).push(seq![premises[i].0, premises[j - 1].0])
    } else {
        pairs_with(premises, i, j - 1)
    }
}

/// The pairs of facts with disjoint dates whose first fact stands before
/// position `i`, by position of the first and then of the second.
pub open spec fn disjoint_pairs(premises: Seq<DatedFact>, i: int) -> Seq<Seq<u64>>
    decreases i,
{
    if i <= 0 {
        Seq::empty()
    } else {
        disjoint_pairs(premises, i - 1) + pairs_with(premises, i - 1, premises.len() as int)
    }
}

/// The fact numbers of a list of fact sets.
pub open spec fn set_numbers(sets: Seq<NonEmptyVec<FactId>>) -> Seq<Seq<u64>> {
    sets.map_values(|s: NonEmptyVec<FactId>| keys(s@))
}

/// The minimal fighting sets among a slot's date premises.
///
/// Pairwise first: any two premises whose meet is empty are a minimal fighting
/// set on their own. For single-interval dates this is complete. The
/// [`minimize`] backstop fires only when no pair is disjoint yet the whole slot
/// still conflicts: it returns the one irreducible set.
pub fn minimal_fighting_sets(premises: &[(FactId, UncertainDate)]) -> (r: Vec<NonEmptyVec<FactId>>)
    ensures
        ({
            let all = models(premises@);
            let pairs = disjoint_pairs(all, all.len() as int);
            &&& pairs.len() > 0 ==> set_numbers(r@) == pairs
            &&& pairs.len() == 0 ==> r@.len() <= 1 && (r@.len() == 1 <==> all.len() > 0
                && contradictory::<UncertainDate>(all, fact_set(all)))
            &&& pairs.len() == 0 && r@.len() == 1 ==> irreducible::<UncertainDate>(
                all,
                keys(r@[0]@).to_set(),
            ) && exists|order: Seq<u64>|
                lists(order, fact_set(all)) && keys(r@[0]@).to_set()
                    == #[trigger] deletion_pass::<UncertainDate>(all, fact_set(all), order)
        }),
        // Any two premises with no day in common are a set of their own.
        forall|i: int, j: int|
            #![trigger premises@[i], premises@[j]]
            0 <= i < j < premises@.len() && share_no_day(premises@[i].1@, premises@[j].1@)
                ==> set_numbers(r@).contains(seq![premises@[i].0@, premises@[j].0@]),
        // Where there are such two, there is no other set.
        forall|i: int, j: int, k: int|
            #![trigger premises@[i], premises@[j], r@[k]]
            0 <= i < j < premises@.len() && share_no_day(premises@[i].1@, premises@[j].1@) && 0
                <= k < r@.len() ==> fight(models(premises@), keys(r@[k]@)),
{
    let ghost all = models(premises@);
    let mut sets: Vec<NonEmptyVec<FactId>> = Vec::new();
    let mut i: usize = 0;
    assert(set_numbers(sets@) =~= Seq::empty());
    while i < premises.len()
        invariant
            i <= premises@.len(),
            all == models(premises@),
            forall|k: int| 0 <= k < i ==> (#[trigger] premises@[k]).1.wf(),
            set_numbers(sets@) == disjoint_pairs(all, i as int),
        decreases premises.len() - i,
    {
        let ghost done = set_numbers(sets@);
        let first = &premises[i].1;
        proof {
            use_type_invariant(first);
        }
        let mut j: usize = i + 1;
        assert(done + pairs_with(all, i as int, j as int) =~= done);
        while j < premises.len()
            invariant
                i < j <= premises@.len(),
                all == models(premises@),
                set_numbers(sets@) == done + pairs_with(all, i as int, j as int),
            decreases premises.len() - j,
        {
            let before = &premises[i];
            let after = &premises[j];
            assert(all[i as int] == (before.0@, before.1@));
            assert(all[j as int] == (after.0@, after.1@));
            if !before.1.overlaps(&after.1) {
                let mut pair = NonEmptyVec::singleton(before.0);
                pair.push(after.0);
                let ghost so_far = set_numbers(sets@);
                sets.push(pair);
                proof {
                    assert(keys(pair@) =~= seq![before.0@, after.0@]);
                    assert(set_numbers(sets@) =~= so_far.push(keys(pair@)));
                    assert(set_numbers(sets@) =~= done + pairs_with(all, i as int, j + 1));
                }
            }
            j += 1;
        }
        i += 1;
    }
    assert(sets@.len() == set_numbers(sets@).len());
    proof {
        assert forall|k: int| 0 <= k < all.len() implies canonical((#[trigger] all[k]).1) by {
            assert(premises@[k].1.wf());
        }
        assert forall|k: int| 0 <= k < all.len() implies #[trigger] all[k] == (
            premises@[k].0@,
            premises@[k].1@,
        ) by {}
        law_every_pair_without_a_shared_day_fights(all);
        law_only_pairs_without_a_shared_day_fight(all);
        assert forall|k: int| 0 <= k < sets@.len() implies fight(
            all,
            keys((#[trigger] sets@[k])@),
        ) by {
            assert(set_numbers(sets@)[k] == keys(sets@[k]@));
            assert(set_numbers(sets@).contains(keys(sets@[k]@)));
        }
        assert forall|i: int, j: int|
            #![trigger premises@[i], premises@[j]]
            0 <= i < j < premises@.len() && share_no_day(
                premises@[i].1@,
                premises@[j].1@,
            ) implies set_numbers(sets@).contains(
            seq![premises@[i].0@, premises@[j].0@],
        ) by {
            assert(all[i] == (premises@[i].0@, premises@[i].1@));
            assert(all[j] == (premises@[j].0@, premises@[j].1@));
        }
    }
    if sets.len() == 0 {
        if let Some(set) = minimize(premises) {
            sets.push(set);
        }
    }
    sets
}

/// The pairs of the fact at `i` hold its pair with each fact after it whose date is
/// disjoint from its own.
proof fn lemma_pairs_with_has(premises: Seq<DatedFact>, i: int, j: int, n: int)
    requires
        0 <= i < j < n <= premises.len(),
        dates_disjoint(premises[i].1, premises[j].1),
    ensures
        pairs_with(premises, i, n).contains(seq![premises[i].0, premises[j].0]),
    decreases n - j,
{
    let pair = seq![premises[i].0, premises[j].0];
    let rest = pairs_with(premises, i, n - 1);
    let all = pairs_with(premises, i, n);
    if j == n - 1 {
        assert(all == rest.push(pair));
        assert(all[rest.len() as int] == pair);
    } else {
        lemma_pairs_with_has(premises, i, j, n - 1);
        let k = rest.index_of(pair);
        assert(all[k] == pair);
    }
}

/// Any two facts whose dates have no day in common are one of the fighting pairs, in
/// the order they stand in.
pub proof fn law_every_pair_without_a_shared_day_fights(premises: Seq<DatedFact>)
    requires
        forall|k: int| 0 <= k < premises.len() ==> canonical((#[trigger] premises[k]).1),
    ensures
        forall|i: int, j: int|
            #![trigger premises[i], premises[j]]
            0 <= i < j < premises.len() && share_no_day(premises[i].1, premises[j].1)
                ==> disjoint_pairs(premises, premises.len() as int).contains(
                seq![premises[i].0, premises[j].0],
            ),
{
    assert forall|i: int, j: int|
        #![trigger premises[i], premises[j]]
        0 <= i < j < premises.len() && share_no_day(
            premises[i].1,
            premises[j].1,
        ) implies disjoint_pairs(premises, premises.len() as int).contains(
        seq![premises[i].0, premises[j].0],
    ) by {
        law_disjoint_where_no_day_is_shared(premises[i].1, premises[j].1);
        lemma_pairs_with_has(premises, i, j, premises.len() as int);
        lemma_disjoint_pairs_have(
            premises,
            i,
            seq![premises[i].0, premises[j].0],
            premises.len() as int,
        );
    }
}

/// A pair of the fact at `i` is among the pairs of all facts before `n`.
proof fn lemma_disjoint_pairs_have(premises: Seq<DatedFact>, i: int, pair: Seq<u64>, n: int)
    requires
        0 <= i < n <= premises.len(),
        pairs_with(premises, i, premises.len() as int).contains(pair),
    ensures
        disjoint_pairs(premises, n).contains(pair),
    decreases n - i,
{
    let rest = disjoint_pairs(premises, n - 1);
    let row = pairs_with(premises, n - 1, premises.len() as int);
    let all = disjoint_pairs(premises, n);
    if i == n - 1 {
        let k = row.index_of(pair);
        assert(all[rest.len() + k] == pair);
    } else {
        lemma_disjoint_pairs_have(premises, i, pair, n - 1);
        let k = rest.index_of(pair);
        assert(all[k] == pair);
    }
}

/// The pair at `k` of the pairs of the fact at `i` is of two facts with disjoint dates.
proof fn lemma_pair_at(premises: Seq<DatedFact>, i: int, n: int, k: int) -> (j: int)
    requires
        0 <= i < n <= premises.len(),
        0 <= k < pairs_with(premises, i, n).len(),
    ensures
        i < j < n,
        pairs_with(premises, i, n)[k] == seq![premises[i].0, premises[j].0],
        dates_disjoint(premises[i].1, premises[j].1),
    decreases n - i,
{
    if k < pairs_with(premises, i, n - 1).len() {
        lemma_pair_at(premises, i, n - 1, k)
    } else {
        n - 1
    }
}

/// The pair at `k` is of two facts with disjoint dates, the first before position `n`.
proof fn lemma_fighting_pair_at(premises: Seq<DatedFact>, n: int, k: int) -> (r: (int, int))
    requires
        0 <= n <= premises.len(),
        0 <= k < disjoint_pairs(premises, n).len(),
    ensures
        0 <= r.0 < n,
        r.0 < r.1 < premises.len(),
        disjoint_pairs(premises, n)[k] == seq![premises[r.0].0, premises[r.1].0],
        dates_disjoint(premises[r.0].1, premises[r.1].1),
    decreases n,
{
    let rest = disjoint_pairs(premises, n - 1);
    if k < rest.len() {
        lemma_fighting_pair_at(premises, n - 1, k)
    } else {
        let j = lemma_pair_at(premises, n - 1, premises.len() as int, k - rest.len());
        (n - 1, j)
    }
}

/// Whether the two facts are among the premises, in this order, and their dates have no
/// day in common.
pub open spec fn fight(premises: Seq<DatedFact>, pair: Seq<u64>) -> bool {
    exists|a: int, b: int|
        #![trigger premises[a], premises[b]]
        0 <= a < b < premises.len() && pair == seq![premises[a].0, premises[b].0] && share_no_day(
            premises[a].1,
            premises[b].1,
        )
}

/// Each of the fighting pairs is of two facts whose dates have no day in common, in the
/// order they stand in.
pub proof fn law_only_pairs_without_a_shared_day_fight(premises: Seq<DatedFact>)
    requires
        forall|k: int| 0 <= k < premises.len() ==> canonical((#[trigger] premises[k]).1),
    ensures
        forall|pair: Seq<u64>| #[trigger]
            disjoint_pairs(premises, premises.len() as int).contains(pair) ==> fight(
                premises,
                pair,
            ),
{
    let n = premises.len() as int;
    let pairs = disjoint_pairs(premises, n);
    assert forall|pair: Seq<u64>| #[trigger] pairs.contains(pair) implies fight(premises, pair) by {
        let (a, b) = lemma_fighting_pair_at(premises, n, pairs.index_of(pair));
        law_disjoint_where_no_day_is_shared(premises[a].1, premises[b].1);
        assert(premises[a].0 == pair[0] && premises[b].0 == pair[1]);
    }
}

/// There is a fighting pair exactly where two facts have dates with no day in common.
pub proof fn law_some_pair_fights_where_two_share_no_day(premises: Seq<DatedFact>)
    requires
        forall|k: int| 0 <= k < premises.len() ==> canonical((#[trigger] premises[k]).1),
    ensures
        disjoint_pairs(premises, premises.len() as int).len() > 0 <==> exists|i: int, j: int|
            #![trigger premises[i], premises[j]]
            0 <= i < j < premises.len() && share_no_day(premises[i].1, premises[j].1),
{
    let pairs = disjoint_pairs(premises, premises.len() as int);
    law_every_pair_without_a_shared_day_fights(premises);
    law_only_pairs_without_a_shared_day_fight(premises);
    if pairs.len() > 0 {
        assert(pairs.contains(pairs[0]));
    }
}

/// The second facts of two pairs of the fact at `i`, in order.
proof fn lemma_row_in_order(premises: Seq<DatedFact>, i: int, n: int, k: int, l: int) -> (r: (
    int,
    int,
))
    requires
        0 <= i < n <= premises.len(),
        0 <= k < l < pairs_with(premises, i, n).len(),
    ensures
        i < r.0 < r.1 < n,
        pairs_with(premises, i, n)[k] == seq![premises[i].0, premises[r.0].0],
        pairs_with(premises, i, n)[l] == seq![premises[i].0, premises[r.1].0],
    decreases n - i,
{
    let rest = pairs_with(premises, i, n - 1);
    if l < rest.len() {
        lemma_row_in_order(premises, i, n - 1, k, l)
    } else {
        let j = lemma_pair_at(premises, i, n - 1, k);
        (j, n - 1)
    }
}

/// Where two of the pairs stand among the premises, in order.
proof fn lemma_pairs_in_order(premises: Seq<DatedFact>, n: int, k: int, l: int) -> (r: (
    (int, int),
    (int, int),
))
    requires
        0 <= n <= premises.len(),
        0 <= k < l < disjoint_pairs(premises, n).len(),
    ensures
        0 <= r.0.0 < r.0.1 < premises.len(),
        0 <= r.1.0 < r.1.1 < premises.len(),
        r.1.0 < n,
        r.0.0 < r.1.0 || (r.0.0 == r.1.0 && r.0.1 < r.1.1),
        disjoint_pairs(premises, n)[k] == seq![premises[r.0.0].0, premises[r.0.1].0],
        disjoint_pairs(premises, n)[l] == seq![premises[r.1.0].0, premises[r.1.1].0],
    decreases n,
{
    let all = premises.len() as int;
    let rest = disjoint_pairs(premises, n - 1);
    let row = pairs_with(premises, n - 1, all);
    if l < rest.len() {
        lemma_pairs_in_order(premises, n - 1, k, l)
    } else if k < rest.len() {
        let first = lemma_fighting_pair_at(premises, n - 1, k);
        let d = lemma_pair_at(premises, n - 1, all, l - rest.len());
        (first, (n - 1, d))
    } else {
        let (b, d) = lemma_row_in_order(premises, n - 1, all, k - rest.len(), l - rest.len());
        ((n - 1, b), (n - 1, d))
    }
}

/// The fighting pairs stand by the position of their first fact, and then of their
/// second, where no two premises are the same fact.
pub proof fn law_fighting_pairs_are_in_order(
    premises: Seq<DatedFact>,
    k: int,
    l: int,
    a: int,
    b: int,
    c: int,
    d: int,
)
    requires
        0 <= k < l < disjoint_pairs(premises, premises.len() as int).len(),
        0 <= a < b < premises.len(),
        0 <= c < d < premises.len(),
        disjoint_pairs(premises, premises.len() as int)[k] == seq![premises[a].0, premises[b].0],
        disjoint_pairs(premises, premises.len() as int)[l] == seq![premises[c].0, premises[d].0],
        forall|i: int, j: int|
            0 <= i < j < premises.len() ==> (#[trigger] premises[i]).0 != (
            #[trigger] premises[j]).0,
    ensures
        a < c || (a == c && b < d),
{
    let n = premises.len() as int;
    let pairs = disjoint_pairs(premises, n);
    let (first, second) = lemma_pairs_in_order(premises, n, k, l);
    assert(pairs[k][0] == premises[a].0 && pairs[k][1] == premises[b].0);
    assert(pairs[l][0] == premises[c].0 && pairs[l][1] == premises[d].0);
    assert(pairs[k][0] == premises[first.0].0 && pairs[k][1] == premises[first.1].0);
    assert(pairs[l][0] == premises[second.0].0 && pairs[l][1] == premises[second.1].0);
    assert(a == first.0 && b == first.1 && c == second.0 && d == second.1);
}

/// Whether a day is in the dates of all the kept facts.
pub open spec fn on_all_dates(premises: Seq<DatedFact>, keep: Set<u64>, day: int) -> bool {
    forall|i: int|
        0 <= i < premises.len() && keep.contains((#[trigger] premises[i]).0) ==> day_in(
            premises[i].1,
            day,
        )
}

/// Facts contradict each other exactly where no day is in the dates of all of them.
pub proof fn law_contradictory_where_no_day_is_left(premises: Seq<DatedFact>, keep: Set<u64>)
    requires
        all_valid::<UncertainDate>(premises),
    ensures
        contradictory::<UncertainDate>(premises, keep) <==> forall|day: int|
            !#[trigger] on_all_dates(premises, keep, day),
{
    let m = kept_meet::<UncertainDate>(premises, keep);
    if m.len() == 0 {
        assert forall|day: int| !#[trigger] on_all_dates(premises, keep, day) by {
            lemma_kept_days(premises, keep, day);
            if day_in(m, day) {
                let k = lemma_day_held_by(m, day);
            }
        }
    } else {
        lemma_kept_days(premises, keep, 0);
        let day = some_day(m[0]);
        assert(m[0].wf());
        lemma_day_in(m, 0, day);
        lemma_kept_days(premises, keep, day);
        assert(on_all_dates(premises, keep, day));
    }
}

/// No day is in the dates of all facts of a minimal fighting set, and where it has
/// more than one fact, some day is in the dates of all but any one of them.
pub proof fn law_every_fact_of_a_minimal_set_is_needed(premises: Seq<DatedFact>, keep: Set<u64>)
    requires
        all_valid::<UncertainDate>(premises),
        irreducible::<UncertainDate>(premises, keep),
    ensures
        forall|day: int| !#[trigger] on_all_dates(premises, keep, day),
        keep.len() > 1 ==> forall|x: u64| #[trigger]
            keep.contains(x) ==> exists|day: int|
                #[trigger] on_all_dates(premises, keep.remove(x), day),
        forall|x: u64| #[trigger]
            keep.contains(x) ==> exists|i: int|
                0 <= i < premises.len() && (#[trigger] premises[i]).0 == x,
{
    law_contradictory_where_no_day_is_left(premises, keep);
    assert forall|x: u64| keep.len() > 1 && #[trigger] keep.contains(x) implies exists|day: int|
        #[trigger] on_all_dates(premises, keep.remove(x), day) by {
        law_contradictory_where_no_day_is_left(premises, keep.remove(x));
    }
    assert forall|x: u64| #[trigger] keep.contains(x) implies exists|i: int|
        0 <= i < premises.len() && (#[trigger] premises[i]).0 == x by {
        let numbers = premises.map_values(|p: DatedFact| p.0);
        assert(numbers.to_set().contains(x));
        let i = numbers.index_of(x);
        assert(numbers[i] == premises[i].0);
    }
}

/// The days that all kept dates allow are the days of their meet.
pub proof fn lemma_kept_days(premises: Seq<DatedFact>, keep: Set<u64>, day: int)
    requires
        all_valid::<UncertainDate>(premises),
    ensures
        canonical(kept_meet::<UncertainDate>(premises, keep)),
        day_in(kept_meet::<UncertainDate>(premises, keep), day) <==> forall|i: int|
            0 <= i < premises.len() && keep.contains((#[trigger] premises[i]).0) ==> day_in(
                premises[i].1,
                day,
            ),
    decreases premises.len(),
{
    if premises.len() == 0 {
        broadcast use lemma_range_between;

        let top = kept_meet::<UncertainDate>(premises, keep);
        assert(top == seq![everything()]);
        lemma_day_in(top, 0, day);
    } else {
        let front = premises.drop_last();
        let last = premises.last();
        assert forall|i: int| 0 <= i < front.len() implies canonical((#[trigger] front[i]).1) by {
            assert(front[i] == premises[i]);
        }
        lemma_kept_days(front, keep, day);
        let m = kept_meet::<UncertainDate>(front, keep);
        assert(canonical(premises[premises.len() - 1].1));
        lemma_meet(m, last.1);
        let whole = kept_meet::<UncertainDate>(premises, keep);
        if day_in(whole, day) {
            assert forall|i: int|
                0 <= i < premises.len() && keep.contains(
                    (#[trigger] premises[i]).0,
                ) implies day_in(premises[i].1, day) by {
                if i < front.len() {
                    assert(front[i] == premises[i]);
                }
            }
        }
        if forall|i: int|
            0 <= i < premises.len() && keep.contains((#[trigger] premises[i]).0) ==> day_in(
                premises[i].1,
                day,
            ) {
            assert forall|i: int|
                0 <= i < front.len() && keep.contains((#[trigger] front[i]).0) implies day_in(
                front[i].1,
                day,
            ) by {
                assert(front[i] == premises[i]);
            }
            assert(keep.contains(premises[premises.len() - 1].0) ==> day_in(last.1, day));
        }
    }
}

/// The position of the date that starts last; an open start is first.
proof fn lemma_latest_start(premises: Seq<DatedFact>) -> (k: int)
    requires
        premises.len() > 0,
        forall|i: int|
            0 <= i < premises.len() ==> canonical((#[trigger] premises[i]).1)
                && premises[i].1.len() == 1,
    ensures
        0 <= k < premises.len(),
        forall|i: int|
            0 <= i < premises.len() && (#[trigger] premises[i]).1[0].lower() is Some
                ==> premises[k].1[0].lower() is Some && premises[i].1[0].lower()->0
                <= premises[k].1[0].lower()->0,
    decreases premises.len(),
{
    if premises.len() == 1 {
        0
    } else {
        let front = premises.drop_last();
        assert forall|i: int| 0 <= i < front.len() implies canonical((#[trigger] front[i]).1)
            && front[i].1.len() == 1 by {
            assert(front[i] == premises[i]);
        }
        let k = lemma_latest_start(front);
        let n = premises.len() - 1;
        let r = if premises[n].1[0].lower() is Some && (premises[k].1[0].lower() is None
            || premises[k].1[0].lower()->0 < premises[n].1[0].lower()->0) {
            n
        } else {
            k
        };
        assert forall|i: int|
            0 <= i < premises.len() && (#[trigger] premises[i]).1[0].lower() is Some implies
            premises[r].1[0].lower() is Some && premises[i].1[0].lower()->0
            <= premises[r].1[0].lower()->0 by {
            if i < n {
                assert(front[i] == premises[i]);
            }
            assert(front[k] == premises[k]);
        }
        r
    }
}

/// The position of the date that ends first; an open end is last.
proof fn lemma_earliest_end(premises: Seq<DatedFact>) -> (k: int)
    requires
        premises.len() > 0,
        forall|i: int|
            0 <= i < premises.len() ==> canonical((#[trigger] premises[i]).1)
                && premises[i].1.len() == 1,
    ensures
        0 <= k < premises.len(),
        forall|i: int|
            0 <= i < premises.len() && (#[trigger] premises[i]).1[0].upper() is Some
                ==> premises[k].1[0].upper() is Some && premises[k].1[0].upper()->0
                <= premises[i].1[0].upper()->0,
    decreases premises.len(),
{
    if premises.len() == 1 {
        0
    } else {
        let front = premises.drop_last();
        assert forall|i: int| 0 <= i < front.len() implies canonical((#[trigger] front[i]).1)
            && front[i].1.len() == 1 by {
            assert(front[i] == premises[i]);
        }
        let k = lemma_earliest_end(front);
        let n = premises.len() - 1;
        let r = if premises[n].1[0].upper() is Some && (premises[k].1[0].upper() is None
            || premises[n].1[0].upper()->0 < premises[k].1[0].upper()->0) {
            n
        } else {
            k
        };
        assert forall|i: int|
            0 <= i < premises.len() && (#[trigger] premises[i]).1[0].upper() is Some implies
            premises[r].1[0].upper() is Some && premises[r].1[0].upper()->0
            <= premises[i].1[0].upper()->0 by {
            if i < n {
                assert(front[i] == premises[i]);
            }
            assert(front[k] == premises[k]);
        }
        r
    }
}

/// Single-interval dates that pairwise have a day in common all have a day in
/// common (Helly's theorem in one dimension).
pub proof fn law_pairwise_overlap_is_joint(premises: Seq<DatedFact>) -> (day: int)
    requires
        premises.len() > 0,
        forall|i: int|
            0 <= i < premises.len() ==> canonical((#[trigger] premises[i]).1)
                && premises[i].1.len() == 1,
        forall|i: int, j: int|
            0 <= i < j < premises.len() ==> !dates_disjoint(
                (#[trigger] premises[i]).1,
                (#[trigger] premises[j]).1,
            ),
    ensures
        forall|i: int| 0 <= i < premises.len() ==> day_in((#[trigger] premises[i]).1, day),
{
    let s = lemma_latest_start(premises);
    let e = lemma_earliest_end(premises);
    assert(premises[s].1.len() == 1 && premises[e].1.len() == 1);
    let day = if premises[s].1[0].lower() is Some {
        premises[s].1[0].lower()->0
    } else {
        some_day(premises[e].1[0])
    };
    if premises[s].1[0].lower() is Some && premises[e].1[0].upper() is Some {
        // The latest start is no later than the earliest end.
        if s != e {
            let a = if s < e {
                premises[s].1
            } else {
                premises[e].1
            };
            let b = if s < e {
                premises[e].1
            } else {
                premises[s].1
            };
            assert(!dates_disjoint(a, b));
            lemma_meet(a, b);
            let m = meet_of(a, b);
            let d = some_day(m[0]);
            assert(m[0].holds(d));
            lemma_day_in(m, 0, d);
            let x = lemma_day_held_by(a, d);
            let y = lemma_day_held_by(b, d);
        } else {
            assert(premises[s].1[0].wf());
        }
    }
    assert forall|i: int| 0 <= i < premises.len() implies day_in((#[trigger] premises[i]).1, day) by {
        assert(premises[i].1[0].holds(day));
        lemma_day_in(premises[i].1, 0, day);
    }
    day
}

/// If single-interval dates have no day in common, two of them have none: the
/// pairwise search finds every such conflict.
pub proof fn law_pairs_are_complete(premises: Seq<DatedFact>)
    requires
        premises.len() > 0,
        forall|i: int|
            0 <= i < premises.len() ==> canonical((#[trigger] premises[i]).1)
                && premises[i].1.len() == 1,
        contradictory::<UncertainDate>(premises, fact_set(premises)),
    ensures
        disjoint_pairs(premises, premises.len() as int).len() > 0,
{
    if disjoint_pairs(premises, premises.len() as int).len() == 0 {
        assert forall|i: int, j: int| 0 <= i < j < premises.len() implies !dates_disjoint(
            (#[trigger] premises[i]).1,
            (#[trigger] premises[j]).1,
        ) by {
            if dates_disjoint(premises[i].1, premises[j].1) {
                lemma_pairs_with_grows(premises, i, j + 1, premises.len() as int);
                lemma_disjoint_pairs_grow(premises, i + 1, premises.len() as int);
            }
        }
        let day = law_pairwise_overlap_is_joint(premises);
        lemma_kept_days(premises, fact_set(premises), day);
        let m = kept_meet::<UncertainDate>(premises, fact_set(premises));
        assert(day_in(m, day));
        let k = lemma_day_held_by(m, day);
    }
}

proof fn lemma_pairs_with_grows(premises: Seq<DatedFact>, i: int, j: int, n: int)
    requires
        i < j <= n,
    ensures
        pairs_with(premises, i, j).len() <= pairs_with(premises, i, n).len(),
    decreases n - j,
{
    if j < n {
        lemma_pairs_with_grows(premises, i, j, n - 1);
    }
}

proof fn lemma_disjoint_pairs_grow(premises: Seq<DatedFact>, i: int, n: int)
    requires
        0 <= i <= n,
    ensures
        disjoint_pairs(premises, i).len() <= disjoint_pairs(premises, n).len(),
    decreases n - i,
{
    if i < n {
        lemma_disjoint_pairs_grow(premises, i, n - 1);
    }
}

/// The pairs of one fact name it first and differ in the second.
proof fn lemma_pairs_with_distinct(premises: Seq<DatedFact>, i: int, j: int)
    requires
        0 <= i < premises.len(),
        j <= premises.len(),
        forall|a: int, b: int|
            0 <= a < b < premises.len() ==> (#[trigger] premises[a]).0 != (
            #[trigger] premises[b]).0,
    ensures
        pairs_with(premises, i, j).no_duplicates(),
        forall|k: int|
            0 <= k < pairs_with(premises, i, j).len() ==> names_pair(
                premises,
                i,
                j,
                #[trigger] pairs_with(premises, i, j)[k],
            ),
    decreases j - i,
{
    if j > i + 1 {
        lemma_pairs_with_distinct(premises, i, j - 1);
        let rest = pairs_with(premises, i, j - 1);
        let all = pairs_with(premises, i, j);
        let last = seq![premises[i].0, premises[j - 1].0];
        assert forall|k: int| 0 <= k < rest.len() implies rest[k] != last && names_pair(
            premises,
            i,
            j,
            #[trigger] rest[k],
        ) by {
            let b = choose|b: int|
                i < b < j - 1 && rest[k] == seq![premises[i].0, (#[trigger] premises[b]).0];
            assert(premises[b].0 != premises[j - 1].0);
            assert(rest[k][1] == premises[b].0);
            assert(last[1] == premises[j - 1].0);
        }
        if dates_disjoint(premises[i].1, premises[j - 1].1) {
            assert(all == rest.push(last));
            assert(premises[j - 1].0 == last[1]);
            assert(names_pair(premises, i, j, last));
            assert forall|k: int| 0 <= k < all.len() implies names_pair(
                premises,
                i,
                j,
                #[trigger] all[k],
            ) by {
                if k < rest.len() {
                    assert(all[k] == rest[k]);
                }
            }
        }
    }
}

/// Whether `pair` names the fact at `i` and one after it, before position `j`.
spec fn names_pair(premises: Seq<DatedFact>, i: int, j: int, pair: Seq<u64>) -> bool {
    exists|b: int| i < b < j && pair == seq![premises[i].0, (#[trigger] premises[b]).0]
}

/// No two of the fighting pairs are the same, where no two premises are the same
/// fact.
pub proof fn law_fighting_pairs_are_distinct(premises: Seq<DatedFact>, i: int)
    requires
        0 <= i <= premises.len(),
        forall|a: int, b: int|
            0 <= a < b < premises.len() ==> (#[trigger] premises[a]).0 != (
            #[trigger] premises[b]).0,
    ensures
        disjoint_pairs(premises, i).no_duplicates(),
    decreases i,
{
    if i > 0 {
        law_fighting_pairs_are_distinct(premises, i - 1);
        let n = premises.len() as int;
        let rest = disjoint_pairs(premises, i - 1);
        let row = pairs_with(premises, i - 1, n);
        lemma_pairs_with_distinct(premises, i - 1, n);
        assert forall|k: int, l: int| 0 <= k < rest.len() && 0 <= l < row.len() implies #[trigger] rest[k]
            != #[trigger] row[l] by {
            let a = lemma_first_of_pair(premises, i - 1, k);
            assert(names_pair(premises, i - 1, n, row[l]));
            let b = choose|b: int|
                i - 1 < b < n && row[l] == seq![premises[i - 1].0, (#[trigger] premises[b]).0];
            assert(row[l][0] == premises[i - 1].0);
            assert(premises[a].0 != premises[i - 1].0);
        }
        assert((rest + row).no_duplicates());
    }
}

/// The pair at `k` names a fact before position `i` first.
proof fn lemma_first_of_pair(premises: Seq<DatedFact>, i: int, k: int) -> (a: int)
    requires
        0 <= i <= premises.len(),
        0 <= k < disjoint_pairs(premises, i).len(),
        forall|a: int, b: int|
            0 <= a < b < premises.len() ==> (#[trigger] premises[a]).0 != (
            #[trigger] premises[b]).0,
    ensures
        0 <= a < i,
        disjoint_pairs(premises, i)[k][0] == premises[a].0,
    decreases i,
{
    let n = premises.len() as int;
    let rest = disjoint_pairs(premises, i - 1);
    let row = pairs_with(premises, i - 1, n);
    if k < rest.len() {
        lemma_first_of_pair(premises, i - 1, k)
    } else {
        lemma_pairs_with_distinct(premises, i - 1, n);
        let pair = row[k - rest.len()];
        assert(names_pair(premises, i - 1, n, pair));
        i - 1
    }
}

/// A claim on either end of a construction or demolition, on either end of an event that
/// takes time, or on when any other happened, carries its date, and nothing else carries
/// one.
pub proof fn law_date_facts_carry_their_date<EntId: TotalOrder, EvtId: TotalOrder, ImgId: TotalOrder>(
    fact: StoredFact<EntId, EvtId, ImgId>,
)
    ensures
        (fact matches StoredFact::Factual(f) ==> match f.assertion {
            FactualAssertion::Construction {
                fact: bookend::ConstructionFact::Started { bound, .. },
            } => date_of(fact) == Some(bound),
            FactualAssertion::Construction {
                fact: bookend::ConstructionFact::Completed { bound, .. },
            } => date_of(fact) == Some(bound),
            FactualAssertion::Demolition {
                fact: bookend::DemolitionFact::Started { bound, .. },
            } => date_of(fact) == Some(bound),
            FactualAssertion::Demolition {
                fact: bookend::DemolitionFact::Completed { bound, .. },
            } => date_of(fact) == Some(bound),
            FactualAssertion::Event { fact: event::Fact::DurationalDate { bound, .. } } => date_of(
                fact,
            ) == Some(bound),
            FactualAssertion::Event { fact: event::Fact::PointDate { bound, .. } } => date_of(fact)
                == Some(bound),
            _ => date_of(fact) is None,
        }),
        !(fact is Factual) ==> date_of(fact) is None,
{
}

} // verus!
