//! Declarations and what facts make of them: which are mentioned, which are
//! known, and what id each comes to.
use vstd::prelude::*;

use super::state::bumped;
use crate::algebra::ordered::{
    ascending, keys, lemma_ascending_unique, lemma_take_to_set, OrderedSet, Standing, TotalOrder,
};
use crate::facts::ids::FactId;
use crate::facts::submit::{
    resolution_views, Decl, EntityIdx, EventIdx, ImageIdx, MatchOutcome, Origin, Resolution,
    ResolutionOrigin, SubmitFact,
};
use crate::nonempty::NonEmptyVec;

verus! {

// --- References ---

/// The positions of the entity declarations a fact mentions.
pub open spec fn entity_mentions(fact: SubmitFact) -> Seq<usize> {
    keys(fact.entities())
}

/// The positions of the event declarations a fact mentions.
pub open spec fn event_mentions(fact: SubmitFact) -> Seq<usize> {
    keys(fact.events())
}

/// The positions of the image declarations a fact mentions.
pub open spec fn image_mentions(fact: SubmitFact) -> Seq<usize> {
    keys(fact.images())
}

/// The positions that any of the facts mentions.
pub open spec fn refs_of(
    facts: Seq<SubmitFact>,
    mentions: spec_fn(SubmitFact) -> Seq<usize>,
) -> Set<usize> {
    Set::new(
        |i: usize|
            exists|k: int| 0 <= k < facts.len() && (#[trigger] mentions(facts[k])).contains(i),
    )
}

/// The positions of the entity declarations that facts mention.
pub open spec fn entity_refs(facts: Seq<SubmitFact>) -> Set<usize> {
    refs_of(facts, |f: SubmitFact| entity_mentions(f))
}

/// The positions of the event declarations that facts mention.
pub open spec fn event_refs(facts: Seq<SubmitFact>) -> Set<usize> {
    refs_of(facts, |f: SubmitFact| event_mentions(f))
}

/// The positions of the image declarations that facts mention.
pub open spec fn image_refs(facts: Seq<SubmitFact>) -> Set<usize> {
    refs_of(facts, |f: SubmitFact| image_mentions(f))
}

/// One more fact mentions what it mentions.
proof fn lemma_one_more_fact(
    facts: Seq<SubmitFact>,
    n: int,
    mentions: spec_fn(SubmitFact) -> Seq<usize>,
)
    requires
        0 <= n < facts.len(),
    ensures
        refs_of(facts.take(n + 1), mentions) == refs_of(facts.take(n), mentions).union(
            mentions(facts[n]).to_set(),
        ),
{
    let less = facts.take(n);
    let more = facts.take(n + 1);
    assert forall|i: usize| refs_of(more, mentions).contains(i) <==> refs_of(
        less,
        mentions,
    ).contains(i) || mentions(facts[n]).contains(i) by {
        if refs_of(more, mentions).contains(i) {
            let k = choose|k: int|
                0 <= k < more.len() && (#[trigger] mentions(more[k])).contains(i);
            if k < n {
                assert(less[k] == more[k]);
                assert(mentions(less[k]).contains(i));
            }
        }
        if refs_of(less, mentions).contains(i) {
            let k = choose|k: int|
                0 <= k < less.len() && (#[trigger] mentions(less[k])).contains(i);
            assert(more[k] == less[k]);
            assert(mentions(more[k]).contains(i));
        }
        if mentions(facts[n]).contains(i) {
            assert(more[n] == facts[n]);
            assert(mentions(more[n]).contains(i));
        }
    }
    assert(refs_of(more, mentions) =~= refs_of(less, mentions).union(mentions(facts[n]).to_set()));
}

/// No fact mentions nothing.
proof fn lemma_no_facts(facts: Seq<SubmitFact>, mentions: spec_fn(SubmitFact) -> Seq<usize>)
    ensures
        refs_of(facts.take(0), mentions) == Set::<usize>::empty(),
{
    assert(refs_of(facts.take(0), mentions) =~= Set::<usize>::empty());
}

/// Facts mention finitely many positions.
pub proof fn lemma_refs_finite(
    facts: Seq<SubmitFact>,
    mentions: spec_fn(SubmitFact) -> Seq<usize>,
)
    ensures
        refs_of(facts, mentions).finite(),
    decreases facts.len(),
{
    if facts.len() == 0 {
        lemma_no_facts(facts, mentions);
        assert(facts.take(0) =~= facts);
    } else {
        let n = facts.len() - 1;
        lemma_refs_finite(facts.take(n), mentions);
        lemma_one_more_fact(facts, n, mentions);
        assert(facts.take(n + 1) =~= facts);
        vstd::seq_lib::seq_to_set_is_finite(mentions(facts[n]));
    }
}

/// Add all of a list to a set.
fn insert_all<X: TotalOrder<V = usize> + Copy>(list: &Vec<X>, out: &mut OrderedSet<X>)
    ensures
        final(out)@ == old(out)@.union(keys(list@).to_set()),
{
    let ghost all = keys(list@);
    let ghost start = out@;
    let mut i: usize = 0;
    assert(start.union(all.take(0).to_set()) =~= start);
    while i < list.len()
        invariant
            i <= list@.len(),
            all == keys(list@),
            out@ == start.union(all.take(i as int).to_set()),
        decreases list.len() - i,
    {
        proof {
            lemma_take_to_set(all, i as int);
        }
        out.insert(list[i]);
        assert(out@ =~= start.union(all.take(i + 1).to_set()));
        i += 1;
    }
    assert(all.take(i as int) =~= all);
}

/// The positions that the facts of a commit mention, by kind. A meta fact
/// mentions none.
pub fn collect_idx_refs(facts: &Vec<SubmitFact>) -> (r: (
    OrderedSet<EntityIdx>,
    OrderedSet<EventIdx>,
    OrderedSet<ImageIdx>,
))
    ensures
        r.0@ == entity_refs(facts@),
        r.1@ == event_refs(facts@),
        r.2@ == image_refs(facts@),
{
    let mut entities: OrderedSet<EntityIdx> = OrderedSet::new();
    let mut events: OrderedSet<EventIdx> = OrderedSet::new();
    let mut images: OrderedSet<ImageIdx> = OrderedSet::new();
    let mut i: usize = 0;
    proof {
        lemma_no_facts(facts@, |f: SubmitFact| entity_mentions(f));
        lemma_no_facts(facts@, |f: SubmitFact| event_mentions(f));
        lemma_no_facts(facts@, |f: SubmitFact| image_mentions(f));
    }
    while i < facts.len()
        invariant
            i <= facts@.len(),
            entities@ == entity_refs(facts@.take(i as int)),
            events@ == event_refs(facts@.take(i as int)),
            images@ == image_refs(facts@.take(i as int)),
        decreases facts.len() - i,
    {
        let mut some_entities: Vec<EntityIdx> = Vec::new();
        let mut some_events: Vec<EventIdx> = Vec::new();
        let mut some_images: Vec<ImageIdx> = Vec::new();
        facts[i].for_each_id(&mut some_entities, &mut some_events, &mut some_images);
        assert(some_entities@ =~= facts@[i as int].entities());
        assert(some_events@ =~= facts@[i as int].events());
        assert(some_images@ =~= facts@[i as int].images());
        insert_all(&some_entities, &mut entities);
        insert_all(&some_events, &mut events);
        insert_all(&some_images, &mut images);
        proof {
            lemma_one_more_fact(facts@, i as int, |f: SubmitFact| entity_mentions(f));
            lemma_one_more_fact(facts@, i as int, |f: SubmitFact| event_mentions(f));
            lemma_one_more_fact(facts@, i as int, |f: SubmitFact| image_mentions(f));
        }
        i += 1;
    }
    assert(facts@.take(i as int) =~= facts@);
    (entities, events, images)
}

/// The members of a set of positions, ascending.
pub open spec fn listing(s: Set<usize>) -> Seq<usize> {
    choose|list: Seq<usize>| ascending::<usize>(list) && #[trigger] list.to_set() == s
}

/// An ascending list is the listing of its members.
proof fn lemma_listing(list: Seq<usize>, s: Set<usize>)
    requires
        ascending::<usize>(list),
        forall|x: usize| #[trigger] list.contains(x) <==> s.contains(x),
    ensures
        list == listing(s),
{
    assert(list.to_set() =~= s);
    let other = listing(s);
    assert(ascending::<usize>(other) && other.to_set() == s);
    assert forall|x: usize| list.contains(x) <==> other.contains(x) by {
        assert(other.to_set().contains(x) <==> s.contains(x));
    }
    lemma_ascending_unique::<usize>(list, other);
}

/// A finite set has a listing.
pub proof fn lemma_listing_lists(s: Set<usize>)
    requires
        s.finite(),
    ensures
        ascending::<usize>(listing(s)),
        listing(s).to_set() == s,
    decreases s.len(),
{
    let list = lemma_some_listing(s);
    assert(list.to_set() == s);
}

/// Some ascending list has the members of a finite set.
proof fn lemma_some_listing(s: Set<usize>) -> (list: Seq<usize>)
    requires
        s.finite(),
    ensures
        ascending::<usize>(list),
        list.to_set() == s,
    decreases s.len(),
{
    if s.len() == 0 {
        let list = Seq::<usize>::empty();
        assert(list.to_set() =~= s);
        list
    } else {
        let top = lemma_greatest(s);
        let rest = lemma_some_listing(s.remove(top));
        let list = rest.push(top);
        assert forall|a: int, b: int| 0 <= a < b < list.len() implies (#[trigger] list[a]) < (
        #[trigger] list[b]) by {
            if b < rest.len() {
                assert(rest[a] < rest[b]);
            } else {
                assert(rest.contains(rest[a]));
                assert(rest.to_set().contains(rest[a]));
                assert(s.remove(top).contains(rest[a]));
            }
        }
        assert forall|x: usize| list.to_set().contains(x) <==> s.contains(x) by {
            lemma_push_contains(rest, top, x);
            assert(rest.to_set().contains(x) <==> s.remove(top).contains(x));
        }
        assert(list.to_set() =~= s);
        list
    }
}

/// A finite set that is not empty has a greatest member.
proof fn lemma_greatest(s: Set<usize>) -> (top: usize)
    requires
        s.finite(),
        s.len() > 0,
    ensures
        s.contains(top),
        forall|x: usize| #[trigger] s.contains(x) ==> x <= top,
    decreases s.len(),
{
    let some = s.choose();
    let rest = s.remove(some);
    if rest.len() == 0 {
        assert forall|x: usize| #[trigger] s.contains(x) implies x <= some by {
            if x != some {
                assert(rest.contains(x));
            }
        }
        some
    } else {
        let top = lemma_greatest(rest);
        if some <= top {
            assert forall|x: usize| #[trigger] s.contains(x) implies x <= top by {
                if x != some {
                    assert(rest.contains(x));
                }
            }
            top
        } else {
            assert forall|x: usize| #[trigger] s.contains(x) implies x <= some by {
                if x != some {
                    assert(rest.contains(x));
                }
            }
            some
        }
    }
}

/// The mentioned positions at or past the end of the declarations.
pub open spec fn out_of_range(refs: Set<usize>, decl_count: usize) -> Seq<usize> {
    listing(refs.filter(|i: usize| i >= decl_count))
}

/// Every mentioned position past the end of its kind's declarations, ascending.
pub fn check_refs_in_range<Idx: TotalOrder<V = usize> + Copy>(
    refs: &OrderedSet<Idx>,
    decl_count: usize,
    position: impl Fn(Idx) -> usize,
) -> (r: Vec<usize>)
    requires
        forall|idx: Idx| call_requires(position, (idx,)),
        forall|idx: Idx, p: usize| call_ensures(position, (idx,), p) ==> p == idx@,
        forall|a: usize, b: usize| Idx::precedes(a, b) <==> a < b,
    ensures
        r@ == out_of_range(refs@, decl_count),
{
    let list = refs.as_slice();
    let ghost all = keys(list@);
    let ghost wanted = refs@.filter(|i: usize| i >= decl_count);
    let mut out: Vec<usize> = Vec::new();
    let mut i: usize = 0;
    while i < list.len()
        invariant
            i <= list@.len(),
            all == keys(list@),
            ascending::<Idx>(all),
            forall|idx: Idx| call_requires(position, (idx,)),
            forall|idx: Idx, p: usize| call_ensures(position, (idx,), p) ==> p == idx@,
            forall|a: usize, b: usize| Idx::precedes(a, b) <==> a < b,
            ascending::<usize>(out@),
            forall|x: usize| #[trigger]
                out@.contains(x) <==> all.take(i as int).contains(x) && x >= decl_count,
        decreases list.len() - i,
    {
        let at: usize = position(list[i]);
        let ghost before = out@;
        assert(all[i as int] == at);
        if at >= decl_count {
            out.push(at);
        }
        proof {
            let part = all.take(i as int);
            let more = all.take(i + 1);
            assert(more =~= part.push(at));
            assert forall|x: usize| #[trigger]
                out@.contains(x) <==> more.contains(x) && x >= decl_count by {
                lemma_push_contains(part, at, x);
                lemma_push_contains(before, at, x);
                assert(before.contains(x) <==> part.contains(x) && x >= decl_count);
            }
            assert forall|a: int, b: int| 0 <= a < b < out@.len() implies (#[trigger] out@[a]) < (
            #[trigger] out@[b]) by {
                if b < before.len() {
                    assert(before[a] < before[b]);
                } else {
                    assert(before.contains(before[a]));
                    assert(part.contains(before[a]));
                    let k = part.index_of(before[a]);
                    assert(Idx::precedes(all[k], all[i as int]));
                }
            }
        }
        i += 1;
    }
    proof {
        assert(all.take(i as int) =~= all);
        assert forall|x: usize| #[trigger] out@.contains(x) <==> wanted.contains(x) by {
            assert(all.to_set().contains(x) <==> refs@.contains(x));
        }
        lemma_listing(out@, wanted);
    }
    out
}

/// What a list with one more element contains.
proof fn lemma_push_contains(list: Seq<usize>, x: usize, y: usize)
    ensures
        list.push(x).contains(y) <==> list.contains(y) || y == x,
{
    let more = list.push(x);
    if list.contains(y) {
        let k = list.index_of(y);
        assert(more[k] == y);
    }
    if y == x {
        assert(more[list.len() as int] == y);
    }
    if more.contains(y) {
        let k = more.index_of(y);
        if k < list.len() {
            assert(list[k] == y);
        }
    }
}

/// The positions of declarations that no fact mentions, ascending, of the first
/// `n`.
pub open spec fn unused(refs: Set<usize>, n: nat) -> Seq<usize>
    decreases n,
{
    if n == 0 {
        Seq::empty()
    } else {
        let rest = unused(refs, (n - 1) as nat);
        if refs.contains((n - 1) as usize) {
            rest
        } else {
            rest.push((n - 1) as usize)
        }
    }
}

/// Every declaration position that no fact mentions, ascending.
pub fn check_all_decls_referenced<Idx: TotalOrder<V = usize> + Copy>(
    refs: &OrderedSet<Idx>,
    decl_count: usize,
    idx_ctor: impl Fn(usize) -> Idx,
) -> (r: Vec<usize>)
    requires
        forall|p: usize| call_requires(idx_ctor, (p,)),
        forall|p: usize, idx: Idx| call_ensures(idx_ctor, (p,), idx) ==> idx@ == p,
    ensures
        r@ == unused(refs@, decl_count as nat),
{
    let mut out: Vec<usize> = Vec::new();
    let mut i: usize = 0;
    while i < decl_count
        invariant
            i <= decl_count,
            forall|p: usize| call_requires(idx_ctor, (p,)),
            forall|p: usize, idx: Idx| call_ensures(idx_ctor, (p,), idx) ==> idx@ == p,
            out@ == unused(refs@, i as nat),
        decreases decl_count - i,
    {
        let idx = idx_ctor(i);
        if !refs.contains(&idx) {
            out.push(i);
        }
        i += 1;
    }
    out
}

// --- Declarations ---

/// The positions of declarations that name an id at or above the counter,
/// ascending, of the first `n`.
pub open spec fn unknown<Id: TotalOrder<V = u64>>(
    decls: Seq<Decl<Id>>,
    counter: u64,
    n: nat,
) -> Seq<usize>
    decreases n,
{
    if n == 0 {
        Seq::empty()
    } else {
        let rest = unknown(decls, counter, (n - 1) as nat);
        match decls[n - 1] {
            Decl::Existing { id } => if id@ < counter {
                rest
            } else {
                rest.push((n - 1) as usize)
            },
            Decl::Local => rest,
        }
    }
}

/// What the matcher made of the declaration at `i`; nothing where it says
/// nothing.
pub open spec fn outcome_at<Id>(
    outcomes: Seq<Option<MatchOutcome<Id>>>,
    i: int,
) -> Option<MatchOutcome<Id>> {
    if 0 <= i < outcomes.len() {
        outcomes[i]
    } else {
        None
    }
}

/// Whether the declaration at `i` needs a new id: every local one does, whatever it
/// was recognized as.
pub open spec fn mints<Id>(decls: Seq<Decl<Id>>, i: int) -> bool {
    decls[i] is Local
}

/// The counter after the first `n` declarations.
pub open spec fn counter_after<Id>(decls: Seq<Decl<Id>>, counter: u64, n: nat) -> u64
    decreases n,
{
    if n == 0 {
        counter
    } else {
        let before = counter_after(decls, counter, (n - 1) as nat);
        if mints(decls, n - 1) {
            bumped(before)
        } else {
            before
        }
    }
}

/// Whether `resolution` is what a declaration comes to; a new id is `fresh`.
pub open spec fn resolves<Id: TotalOrder<V = u64>>(
    decl: Decl<Id>,
    outcome: Option<MatchOutcome<Id>>,
    fresh: u64,
    resolution: (Id, Origin<Id>),
) -> bool {
    match decl {
        Decl::Existing { id } => resolution == (id, Origin::<Id>::DeclaredExisting),
        Decl::Local => {
            &&& resolution.0@ == fresh
            &&& resolution.1 == match outcome {
                Some(MatchOutcome::Matched { matched, .. }) => Origin::MatchedExisting { matched },
                Some(MatchOutcome::Mint { candidates }) => if candidates@.len() == 0 {
                    Origin::NewlyMinted
                } else {
                    Origin::Ambiguous { candidates: candidates@ }
                },
                None => Origin::NewlyMinted,
            }
        },
    }
}

/// Whether every declaration came to what it should.
pub open spec fn all_resolved<Id: TotalOrder<V = u64>>(
    decls: Seq<Decl<Id>>,
    outcomes: Seq<Option<MatchOutcome<Id>>>,
    counter: u64,
    resolutions: Seq<(Id, Origin<Id>)>,
) -> bool {
    &&& resolutions.len() == decls.len()
    &&& forall|i: int|
        0 <= i < decls.len() ==> resolves(
            decls[i],
            outcome_at(outcomes, i),
            counter_after(decls, counter, i as nat),
            #[trigger] resolutions[i],
        )
}

/// A new id, the thing that its declaration was recognized as, and the facts that
/// say so.
#[derive(Debug)]
pub struct Link<Id> {
    /// The new id.
    pub fresh: Id,
    /// The thing.
    pub matched: Id,
    /// The facts.
    pub basis: OrderedSet<FactId>,
}

/// A link as numbers.
pub open spec fn link_view<Id: TotalOrder<V = u64>>(link: Link<Id>) -> (u64, u64, Set<u64>) {
    (link.fresh@, link.matched@, link.basis@)
}

/// Links as numbers.
pub open spec fn link_views<Id: TotalOrder<V = u64>>(links: Seq<Link<Id>>) -> Seq<
    (u64, u64, Set<u64>),
> {
    links.map_values(|link: Link<Id>| link_view(link))
}

/// The links of the first `n` declarations: one for each that was recognized, save
/// where what it was recognized as is its own new id.
pub open spec fn links_of<Id: TotalOrder<V = u64>>(
    decls: Seq<Decl<Id>>,
    outcomes: Seq<Option<MatchOutcome<Id>>>,
    counter: u64,
    n: nat,
) -> Seq<(u64, u64, Set<u64>)>
    decreases n,
{
    if n == 0 {
        Seq::empty()
    } else {
        let rest = links_of(decls, outcomes, counter, (n - 1) as nat);
        let fresh = counter_after(decls, counter, (n - 1) as nat);
        match (decls[n - 1], outcome_at(outcomes, n - 1)) {
            (Decl::Local, Some(MatchOutcome::Matched { matched, basis })) => if matched@
                != fresh {
                rest.push((fresh, matched@, basis@))
            } else {
                rest
            },
            _ => rest,
        }
    }
}

/// Give every declaration of one kind its id.
///
/// A declared id passes through. A local declaration gets a new id, and the
/// matcher's outcome at its position says how it came by it; a missing outcome
/// counts as one without candidates. A declaration that was recognized gives a link
/// from its new id to what it is. `mint` makes the id of a number; `counter` holds
/// the next number.
pub fn resolve_decls<Id: TotalOrder<V = u64> + Copy>(
    decls: &Vec<Decl<Id>>,
    outcomes: Vec<Option<MatchOutcome<Id>>>,
    mint: impl Fn(u64) -> Id,
    counter: u64,
) -> (r: (Vec<Resolution<Id>>, u64, Vec<Link<Id>>))
    requires
        forall|n: u64| call_requires(mint, (n,)),
        forall|n: u64, id: Id| call_ensures(mint, (n,), id) ==> id@ == n,
    ensures
        all_resolved(decls@, outcomes@, counter, resolution_views(r.0@)),
        r.1 == counter_after(decls@, counter, decls@.len()),
        link_views(r.2@) == links_of(decls@, outcomes@, counter, decls@.len()),
        forall|k: int|
            0 <= k < r.2@.len() ==> (#[trigger] r.2@[k]).fresh@ != r.2@[k].matched@,
        r.2@.len() <= decls@.len(),
{
    let ghost all = outcomes@;
    let mut left = outcomes;
    let mut out: Vec<Resolution<Id>> = Vec::new();
    let mut links: Vec<Link<Id>> = Vec::new();
    let mut next: u64 = counter;
    let mut i: usize = 0;
    assert(left@ =~= all.skip(0));
    assert(link_views(links@) =~= Seq::empty());
    while i < decls.len()
        invariant
            i <= decls@.len(),
            forall|n: u64| call_requires(mint, (n,)),
            forall|n: u64, id: Id| call_ensures(mint, (n,), id) ==> id@ == n,
            i < all.len() ==> left@ == all.skip(i as int),
            i >= all.len() ==> left@.len() == 0,
            out@.len() == i,
            next == counter_after(decls@, counter, i as nat),
            forall|k: int|
                0 <= k < i ==> resolves(
                    decls@[k],
                    outcome_at(all, k),
                    counter_after(decls@, counter, k as nat),
                    (#[trigger] out@[k])@,
                ),
            link_views(links@) == links_of(decls@, all, counter, i as nat),
            forall|k: int|
                0 <= k < links@.len() ==> (#[trigger] links@[k]).fresh@ != links@[k].matched@,
            links@.len() <= i,
        decreases decls.len() - i,
    {
        let outcome = if left.len() > 0 {
            left.remove(0)
        } else {
            None
        };
        assert(outcome == outcome_at(all, i as int));
        assert(i + 1 < all.len() ==> left@ =~= all.skip(i + 1));
        let ghost linked = link_views(links@);
        let resolution = match decls[i] {
            Decl::Existing { id } => Resolution { id, origin: ResolutionOrigin::DeclaredExisting },
            Decl::Local => {
                let id = mint(next);
                next = advance(next);
                match outcome {
                    Some(MatchOutcome::Matched { matched, basis }) => {
                        match id.compare(&matched) {
                            Standing::Same => {},
                            _ => {
                                links.push(Link { fresh: id, matched, basis });
                                assert(link_views(links@) =~= linked.push(
                                    (id@, matched@, basis@),
                                ));
                            },
                        }
                        Resolution { id, origin: ResolutionOrigin::MatchedExisting { matched } }
                    },
                    Some(MatchOutcome::Mint { candidates }) => match NonEmptyVec::try_from_vec(
                        candidates,
                    ) {
                        Ok(candidates) => Resolution {
                            id,
                            origin: ResolutionOrigin::Ambiguous { candidates },
                        },
                        Err(_) => Resolution { id, origin: ResolutionOrigin::NewlyMinted },
                    },
                    None => Resolution { id, origin: ResolutionOrigin::NewlyMinted },
                }
            },
        };
        out.push(resolution);
        i += 1;
    }
    proof {
        let views = resolution_views(out@);
        assert forall|k: int| 0 <= k < decls@.len() implies resolves(
            decls@[k],
            outcome_at(all, k),
            counter_after(decls@, counter, k as nat),
            #[trigger] views[k],
        ) by {
            assert(views[k] == out@[k]@);
        }
    }
    (out, next, links)
}

/// The counter after one more id.
fn advance(counter: u64) -> (r: u64)
    ensures
        r == bumped(counter),
{
    if counter < u64::MAX {
        counter + 1
    } else {
        counter
    }
}

/// The ids that more than one declaration came to, ascending.
pub open spec fn repeated_ids(ids: Seq<u64>) -> Seq<u64> {
    choose|list: Seq<u64>|
        ascending::<u64>(list) && forall|x: u64| #[trigger]
            list.contains(x) <==> occurs_twice(ids, x)
}

/// Whether a number occurs more than once.
pub open spec fn occurs_twice(ids: Seq<u64>, x: u64) -> bool {
    exists|i: int, j: int| 0 <= i < j < ids.len() && #[trigger] ids[i] == x && #[trigger] ids[j] == x
}

/// The ids of resolutions as numbers.
pub open spec fn resolved_ids<Id: TotalOrder<V = u64>>(resolutions: Seq<Resolution<Id>>) -> Seq<
    u64,
> {
    resolutions.map_values(|r: Resolution<Id>| r.id@)
}

/// The ids that more than one declaration came to, ascending.
pub fn duplicate_resolved_ids<Id: TotalOrder<V = u64> + Copy>(
    resolutions: &Vec<Resolution<Id>>,
) -> (r: Vec<Id>)
    requires
        forall|a: u64, b: u64| Id::precedes(a, b) <==> a < b,
    ensures
        keys(r@) == repeated_ids(resolved_ids(resolutions@)),
{
    let ghost ids = resolved_ids(resolutions@);
    let mut seen: OrderedSet<Id> = OrderedSet::new();
    let mut repeated: OrderedSet<Id> = OrderedSet::new();
    let mut i: usize = 0;
    while i < resolutions.len()
        invariant
            i <= resolutions@.len(),
            ids == resolved_ids(resolutions@),
            forall|x: u64| #[trigger] seen@.contains(x) <==> ids.take(i as int).contains(x),
            forall|x: u64| #[trigger]
                repeated@.contains(x) <==> occurs_twice(ids.take(i as int), x),
        decreases resolutions.len() - i,
    {
        let id = resolutions[i].id;
        let ghost x = id@;
        let ghost part = ids.take(i as int);
        let ghost more = ids.take(i + 1);
        assert(ids[i as int] == x);
        assert(more =~= part.push(x));
        let fresh = seen.insert(id);
        if !fresh {
            repeated.insert(id);
        }
        proof {
            assert forall|y: u64| more.contains(y) <==> part.contains(y) || y == x by {
                if part.contains(y) {
                    let k = part.index_of(y);
                    assert(more[k] == y);
                }
                if more.contains(y) {
                    let k = more.index_of(y);
                    if k < part.len() {
                        assert(part[k] == y);
                    }
                }
                assert(more[i as int] == x);
            }
            assert forall|y: u64| occurs_twice(more, y) <==> occurs_twice(part, y) || (y == x
                && part.contains(x)) by {
                if occurs_twice(more, y) {
                    let (a, b) = choose|a: int, b: int|
                        0 <= a < b < more.len() && #[trigger] more[a] == y && #[trigger] more[b]
                            == y;
                    assert(part[a] == y);
                    if b < i {
                        assert(part[b] == y);
                    }
                }
                if occurs_twice(part, y) {
                    let (a, b) = choose|a: int, b: int|
                        0 <= a < b < part.len() && #[trigger] part[a] == y && #[trigger] part[b]
                            == y;
                    assert(more[a] == y && more[b] == y);
                }
                if y == x && part.contains(x) {
                    let a = part.index_of(x);
                    assert(more[a] == y && more[i as int] == y);
                }
            }
        }
        i += 1;
    }
    assert(ids.take(i as int) =~= ids);
    let out = repeated.into_vec();
    proof {
        let list = keys(out@);
        let other = repeated_ids(ids);
        assert(ascending::<u64>(list)) by {
            assert forall|a: int, b: int| 0 <= a < b < list.len() implies (#[trigger] list[a]) < (
            #[trigger] list[b]) by {
                assert(Id::precedes(list[a], list[b]));
            }
        }
        assert forall|x: u64| #[trigger] list.contains(x) <==> occurs_twice(ids, x) by {
            assert(list.to_set().contains(x) <==> repeated@.contains(x));
        }
        assert(ascending::<u64>(other) && forall|x: u64| #[trigger]
            other.contains(x) <==> occurs_twice(ids, x));
        lemma_ascending_unique::<u64>(list, other);
    }
    out
}

/// Two declarations that need new ids come to different ones, and to none that
/// was known before, as long as the counter does not reach its end.
pub proof fn law_minted_ids_are_fresh<Id: TotalOrder<V = u64>>(
    decls: Seq<Decl<Id>>,
    outcomes: Seq<Option<MatchOutcome<Id>>>,
    counter: u64,
    resolutions: Seq<(Id, Origin<Id>)>,
    i: int,
    j: int,
)
    requires
        all_resolved(decls, outcomes, counter, resolutions),
        counter + decls.len() <= u64::MAX,
        0 <= i < j < decls.len(),
        mints(decls, i),
        mints(decls, j),
    ensures
        counter <= resolutions[i].0@ < resolutions[j].0@,
        resolutions[j].0@ < counter_after(decls, counter, decls.len()),
{
    lemma_counter(decls, counter, i as nat);
    lemma_counter_grows(decls, counter, (i + 1) as nat, j as nat);
    lemma_counter_grows(decls, counter, (j + 1) as nat, decls.len());
    lemma_counter(decls, counter, j as nat);
    assert(resolves(
        decls[i],
        outcome_at(outcomes, i),
        counter_after(decls, counter, i as nat),
        resolutions[i],
    ));
    assert(resolves(
        decls[j],
        outcome_at(outcomes, j),
        counter_after(decls, counter, j as nat),
        resolutions[j],
    ));
}

/// The counter grows by one at most for each declaration.
proof fn lemma_counter<Id>(
    decls: Seq<Decl<Id>>,
    counter: u64,
    n: nat,
)
    requires
        counter + n <= u64::MAX,
    ensures
        counter <= counter_after(decls, counter, n) <= counter + n,
    decreases n,
{
    if n > 0 {
        lemma_counter(decls, counter, (n - 1) as nat);
    }
}

/// The counter never goes back.
proof fn lemma_counter_grows<Id>(
    decls: Seq<Decl<Id>>,
    counter: u64,
    m: nat,
    n: nat,
)
    requires
        m <= n,
    ensures
        counter_after(decls, counter, m) <= counter_after(decls, counter, n),
    decreases n,
{
    if m < n {
        lemma_counter_grows(decls, counter, m, (n - 1) as nat);
    }
}

/// Every declaration that was recognized as a known thing gives a link from its new
/// id to that thing.
pub proof fn law_recognized_declarations_are_linked<Id: TotalOrder<V = u64>>(
    decls: Seq<Decl<Id>>,
    outcomes: Seq<Option<MatchOutcome<Id>>>,
    counter: u64,
    i: int,
)
    requires
        0 <= i < decls.len(),
        decls[i] is Local,
        outcome_at(outcomes, i) is Some,
        outcome_at(outcomes, i)->0 is Matched,
        outcome_at(outcomes, i)->0->matched@ < counter,
    ensures
        links_of(decls, outcomes, counter, decls.len()).contains(
            (
                counter_after(decls, counter, i as nat),
                outcome_at(outcomes, i)->0->matched@,
                outcome_at(outcomes, i)->0->basis@,
            ),
        ),
{
    lemma_counter_grows(decls, counter, 0, i as nat);
    lemma_links_kept(decls, outcomes, counter, i, decls.len());
}

/// A link that a declaration gave stays.
proof fn lemma_links_kept<Id: TotalOrder<V = u64>>(
    decls: Seq<Decl<Id>>,
    outcomes: Seq<Option<MatchOutcome<Id>>>,
    counter: u64,
    i: int,
    n: nat,
)
    requires
        0 <= i < n <= decls.len(),
        decls[i] is Local,
        outcome_at(outcomes, i) is Some,
        outcome_at(outcomes, i)->0 is Matched,
        outcome_at(outcomes, i)->0->matched@ != counter_after(decls, counter, i as nat),
    ensures
        links_of(decls, outcomes, counter, n).contains(
            (
                counter_after(decls, counter, i as nat),
                outcome_at(outcomes, i)->0->matched@,
                outcome_at(outcomes, i)->0->basis@,
            ),
        ),
    decreases n,
{
    let link = (
        counter_after(decls, counter, i as nat),
        outcome_at(outcomes, i)->0->matched@,
        outcome_at(outcomes, i)->0->basis@,
    );
    let now = links_of(decls, outcomes, counter, n);
    let rest = links_of(decls, outcomes, counter, (n - 1) as nat);
    if i == n - 1 {
        assert(now == rest.push(link));
        assert(now[rest.len() as int] == link);
    } else {
        lemma_links_kept(decls, outcomes, counter, i, (n - 1) as nat);
        let k = rest.index_of(link);
        assert(now[k] == link);
    }
}

// --- What the lists of positions and ids hold ---

/// A position is mentioned exactly where some fact mentions it.
pub proof fn law_mentioned_by_some_fact(facts: Seq<SubmitFact>, x: usize)
    ensures
        entity_refs(facts).contains(x) <==> exists|k: int, j: int|
            0 <= k < facts.len() && 0 <= j < facts[k].entities().len()
                && #[trigger] facts[k].entities()[j]@ == x,
        event_refs(facts).contains(x) <==> exists|k: int, j: int|
            0 <= k < facts.len() && 0 <= j < facts[k].events().len()
                && #[trigger] facts[k].events()[j]@ == x,
        image_refs(facts).contains(x) <==> exists|k: int, j: int|
            0 <= k < facts.len() && 0 <= j < facts[k].images().len()
                && #[trigger] facts[k].images()[j]@ == x,
{
    let by_entity = |f: SubmitFact| entity_mentions(f);
    let by_event = |f: SubmitFact| event_mentions(f);
    let by_image = |f: SubmitFact| image_mentions(f);
    assert forall|k: int, j: int|
        0 <= k < facts.len() && 0 <= j < facts[k].entities().len()
            && #[trigger] facts[k].entities()[j]@ == x implies entity_refs(facts).contains(x) by {
        assert(by_entity(facts[k])[j] == x);
        assert(by_entity(facts[k]).contains(x));
    }
    assert forall|k: int, j: int|
        0 <= k < facts.len() && 0 <= j < facts[k].events().len()
            && #[trigger] facts[k].events()[j]@ == x implies event_refs(facts).contains(x) by {
        assert(by_event(facts[k])[j] == x);
        assert(by_event(facts[k]).contains(x));
    }
    assert forall|k: int, j: int|
        0 <= k < facts.len() && 0 <= j < facts[k].images().len()
            && #[trigger] facts[k].images()[j]@ == x implies image_refs(facts).contains(x) by {
        assert(by_image(facts[k])[j] == x);
        assert(by_image(facts[k]).contains(x));
    }
    if entity_refs(facts).contains(x) {
        let k = choose|k: int|
            0 <= k < facts.len() && (#[trigger] by_entity(facts[k])).contains(x);
        let j = by_entity(facts[k]).index_of(x);
        assert(facts[k].entities()[j]@ == x);
    }
    if event_refs(facts).contains(x) {
        let k = choose|k: int|
            0 <= k < facts.len() && (#[trigger] by_event(facts[k])).contains(x);
        let j = by_event(facts[k]).index_of(x);
        assert(facts[k].events()[j]@ == x);
    }
    if image_refs(facts).contains(x) {
        let k = choose|k: int|
            0 <= k < facts.len() && (#[trigger] by_image(facts[k])).contains(x);
        let j = by_image(facts[k]).index_of(x);
        assert(facts[k].images()[j]@ == x);
    }
}

/// The positions out of range are the mentioned ones past the end, each once, in
/// ascending order.
pub proof fn law_out_of_range_are_past_the_end(refs: Set<usize>, decl_count: usize)
    requires
        refs.finite(),
    ensures
        forall|x: usize| #[trigger]
            out_of_range(refs, decl_count).contains(x) <==> refs.contains(x) && decl_count <= x,
        forall|a: int, b: int|
            0 <= a < b < out_of_range(refs, decl_count).len() ==> #[trigger] out_of_range(
                refs,
                decl_count,
            )[a] < #[trigger] out_of_range(refs, decl_count)[b],
{
    let wanted = refs.filter(|i: usize| i >= decl_count);
    lemma_listing_lists(wanted);
    let list = out_of_range(refs, decl_count);
    assert forall|x: usize| #[trigger] list.contains(x) <==> refs.contains(x) && decl_count
        <= x by {
        assert(list.to_set().contains(x) <==> wanted.contains(x));
    }
    assert forall|a: int, b: int| 0 <= a < b < list.len() implies #[trigger] list[a]
        < #[trigger] list[b] by {
        assert(usize::precedes(list[a], list[b]));
    }
}

/// The unused positions are those of declarations that are not mentioned, each once, in
/// ascending order.
pub proof fn law_unused_are_not_mentioned(refs: Set<usize>, n: nat)
    requires
        n <= usize::MAX,
    ensures
        forall|x: usize| #[trigger] unused(refs, n).contains(x) <==> x < n && !refs.contains(x),
        forall|a: int, b: int|
            0 <= a < b < unused(refs, n).len() ==> #[trigger] unused(refs, n)[a]
                < #[trigger] unused(refs, n)[b],
    decreases n,
{
    if n > 0 {
        law_unused_are_not_mentioned(refs, (n - 1) as nat);
        let rest = unused(refs, (n - 1) as nat);
        let all = unused(refs, n);
        let last = (n - 1) as usize;
        assert forall|x: usize| #[trigger] all.contains(x) <==> x < n && !refs.contains(x) by {
            assert(rest.contains(x) <==> x < n - 1 && !refs.contains(x));
            if !refs.contains(last) {
                lemma_push_contains(rest, last, x);
            }
        }
        assert forall|a: int, b: int| 0 <= a < b < all.len() implies #[trigger] all[a]
            < #[trigger] all[b] by {
            if b < rest.len() {
                assert(rest[a] < rest[b]);
            } else {
                assert(rest.contains(rest[a]));
            }
        }
    } else {
        assert(unused(refs, n) =~= Seq::empty());
    }
}

/// The unknown positions are those of declarations that name an id which was never
/// minted, each once, in ascending order.
pub proof fn law_unknown_were_never_minted<Id: TotalOrder<V = u64>>(
    decls: Seq<Decl<Id>>,
    counter: u64,
    n: nat,
)
    requires
        n <= decls.len(),
        n <= usize::MAX,
    ensures
        forall|x: usize| #[trigger]
            unknown(decls, counter, n).contains(x) <==> x < n && (decls[x as int] matches
                Decl::Existing { id } && counter <= id@),
        forall|a: int, b: int|
            0 <= a < b < unknown(decls, counter, n).len() ==> #[trigger] unknown(
                decls,
                counter,
                n,
            )[a] < #[trigger] unknown(decls, counter, n)[b],
    decreases n,
{
    if n > 0 {
        law_unknown_were_never_minted(decls, counter, (n - 1) as nat);
        let rest = unknown(decls, counter, (n - 1) as nat);
        let all = unknown(decls, counter, n);
        let last = (n - 1) as usize;
        assert forall|x: usize| #[trigger] all.contains(x) <==> x < n && (decls[x as int] matches
            Decl::Existing { id } && counter <= id@) by {
            assert(rest.contains(x) <==> x < n - 1 && (decls[x as int] matches Decl::Existing {
                id,
            } && counter <= id@));
            lemma_push_contains(rest, last, x);
        }
        assert forall|a: int, b: int| 0 <= a < b < all.len() implies #[trigger] all[a]
            < #[trigger] all[b] by {
            if b < rest.len() {
                assert(rest[a] < rest[b]);
            } else {
                assert(rest.contains(rest[a]));
            }
        }
    } else {
        assert(unknown(decls, counter, n) =~= Seq::empty());
    }
}

/// Only finitely many numbers occur more than once.
proof fn lemma_repeated_finite(ids: Seq<u64>)
    ensures
        Set::new(|x: u64| occurs_twice(ids, x)).finite(),
{
    let s = Set::new(|x: u64| occurs_twice(ids, x));
    assert forall|x: u64| s.contains(x) implies ids.to_set().contains(x) by {
        let (i, j) = choose|i: int, j: int|
            0 <= i < j < ids.len() && #[trigger] ids[i] == x && #[trigger] ids[j] == x;
        assert(ids.contains(ids[i]));
    }
    vstd::seq_lib::seq_to_set_is_finite(ids);
    vstd::set_lib::lemma_set_subset_finite(ids.to_set(), s);
}

/// Some ascending list has the members of a finite set of numbers.
proof fn lemma_some_number_listing(s: Set<u64>) -> (list: Seq<u64>)
    requires
        s.finite(),
    ensures
        ascending::<u64>(list),
        forall|x: u64| #[trigger] list.contains(x) <==> s.contains(x),
    decreases s.len(),
{
    if s.len() == 0 {
        assert(s =~= Set::empty());
        Seq::<u64>::empty()
    } else {
        let top = lemma_greatest_number(s);
        let rest = lemma_some_number_listing(s.remove(top));
        let list = rest.push(top);
        assert forall|a: int, b: int| 0 <= a < b < list.len() implies (#[trigger] list[a]) < (
        #[trigger] list[b]) by {
            if b < rest.len() {
                assert(u64::precedes(rest[a], rest[b]));
            } else {
                assert(rest.contains(rest[a]));
            }
        }
        assert forall|x: u64| #[trigger] list.contains(x) <==> s.contains(x) by {
            if list.contains(x) {
                let k = list.index_of(x);
                if k < rest.len() {
                    assert(rest[k] == x);
                    assert(rest.contains(x));
                }
            }
            if s.contains(x) {
                if x == top {
                    assert(list[rest.len() as int] == x);
                } else {
                    assert(rest.contains(x));
                    assert(list[rest.index_of(x)] == x);
                }
            }
        }
        list
    }
}

/// A finite set of numbers that is not empty has a greatest member.
proof fn lemma_greatest_number(s: Set<u64>) -> (top: u64)
    requires
        s.finite(),
        s.len() > 0,
    ensures
        s.contains(top),
        forall|x: u64| #[trigger] s.contains(x) ==> x <= top,
    decreases s.len(),
{
    let some = s.choose();
    let rest = s.remove(some);
    if rest.len() == 0 {
        assert forall|x: u64| #[trigger] s.contains(x) implies x <= some by {
            if x != some {
                assert(rest.contains(x));
            }
        }
        some
    } else {
        let top = lemma_greatest_number(rest);
        let most = if some <= top {
            top
        } else {
            some
        };
        assert forall|x: u64| #[trigger] s.contains(x) implies x <= most by {
            if x != some {
                assert(rest.contains(x));
            }
        }
        most
    }
}

/// The repeated ids are those at two positions or more, each once, in ascending order.
pub proof fn law_repeated_ids_occur_twice(ids: Seq<u64>)
    ensures
        forall|x: u64| #[trigger]
            repeated_ids(ids).contains(x) <==> exists|i: int, j: int|
                0 <= i < j < ids.len() && #[trigger] ids[i] == x && #[trigger] ids[j] == x,
        forall|a: int, b: int|
            0 <= a < b < repeated_ids(ids).len() ==> #[trigger] repeated_ids(ids)[a]
                < #[trigger] repeated_ids(ids)[b],
{
    lemma_repeated_finite(ids);
    let s = Set::new(|x: u64| occurs_twice(ids, x));
    let list = lemma_some_number_listing(s);
    assert forall|x: u64| #[trigger] list.contains(x) <==> occurs_twice(ids, x) by {
        assert(s.contains(x) <==> occurs_twice(ids, x));
    }
    let all = repeated_ids(ids);
    assert(ascending::<u64>(all) && forall|x: u64| #[trigger]
        all.contains(x) <==> occurs_twice(ids, x));
    assert forall|a: int, b: int| 0 <= a < b < all.len() implies #[trigger] all[a]
        < #[trigger] all[b] by {
        assert(u64::precedes(all[a], all[b]));
    }
}

/// One id is minted for each local declaration, and none for any other.
pub proof fn law_one_id_for_each_local_declaration<Id>(
    decls: Seq<Decl<Id>>,
    counter: u64,
    n: nat,
)
    requires
        n <= decls.len(),
        counter + n <= u64::MAX,
    ensures
        Set::new(|k: int| 0 <= k < n && decls[k] is Local).finite(),
        counter_after(decls, counter, n) == counter + Set::new(
            |k: int| 0 <= k < n && decls[k] is Local,
        ).len(),
        Set::new(|k: int| 0 <= k < n && decls[k] is Local).len() <= n,
    decreases n,
{
    let all = Set::new(|k: int| 0 <= k < n && decls[k] is Local);
    if n == 0 {
        assert(all =~= Set::empty());
    } else {
        law_one_id_for_each_local_declaration(decls, counter, (n - 1) as nat);
        let rest = Set::new(|k: int| 0 <= k < n - 1 && decls[k] is Local);
        if decls[n - 1] is Local {
            assert(all =~= rest.insert(n - 1));
        } else {
            assert(all =~= rest);
        }
    }
}

/// What a declaration comes to: one that names an id to that id, and a local one to a
/// new id, which is marked by what the matcher made of it.
pub proof fn law_declaration_comes_to_an_id<Id: TotalOrder<V = u64>>(
    decls: Seq<Decl<Id>>,
    outcomes: Seq<Option<MatchOutcome<Id>>>,
    counter: u64,
    resolutions: Seq<(Id, Origin<Id>)>,
    i: int,
)
    requires
        all_resolved(decls, outcomes, counter, resolutions),
        0 <= i < decls.len(),
        counter + decls.len() <= u64::MAX,
    ensures
        resolutions.len() == decls.len(),
        (decls[i] matches Decl::Existing { id } ==> resolutions[i].0 == id
            && resolutions[i].1 is DeclaredExisting),
        decls[i] is Local ==> {
            &&& resolutions[i].0@ == counter + Set::new(
                |k: int| 0 <= k < i && decls[k] is Local,
            ).len()
            &&& if i < outcomes.len() {
                match outcomes[i] {
                    Some(MatchOutcome::Matched { matched, .. }) => resolutions[i].1 == (
                    Origin::MatchedExisting { matched }),
                    Some(MatchOutcome::Mint { candidates }) => if candidates@.len() == 0 {
                        resolutions[i].1 is NewlyMinted
                    } else {
                        resolutions[i].1 == (Origin::Ambiguous { candidates: candidates@ })
                    },
                    None => resolutions[i].1 is NewlyMinted,
                }
            } else {
                resolutions[i].1 is NewlyMinted
            }
        },
{
    law_one_id_for_each_local_declaration(decls, counter, i as nat);
    assert(resolves(
        decls[i],
        outcome_at(outcomes, i),
        counter_after(decls, counter, i as nat),
        resolutions[i],
    ));
}

/// Each link is that of a local declaration which the matcher recognized, from its new
/// id to what it was recognized as.
pub proof fn law_links_are_of_recognized_declarations<Id: TotalOrder<V = u64>>(
    decls: Seq<Decl<Id>>,
    outcomes: Seq<Option<MatchOutcome<Id>>>,
    counter: u64,
    n: nat,
    at: int,
) -> (i: int)
    requires
        n <= decls.len(),
        counter + decls.len() <= u64::MAX,
        0 <= at < links_of(decls, outcomes, counter, n).len(),
    ensures
        0 <= i < n,
        i < outcomes.len(),
        decls[i] is Local,
        outcomes[i] is Some,
        outcomes[i]->0 is Matched,
        links_of(decls, outcomes, counter, n)[at].0 == counter + Set::new(
            |k: int| 0 <= k < i && decls[k] is Local,
        ).len(),
        links_of(decls, outcomes, counter, n)[at].1 == outcomes[i]->0->matched@,
        links_of(decls, outcomes, counter, n)[at].2 == outcomes[i]->0->basis@,
        links_of(decls, outcomes, counter, n)[at].0 != links_of(decls, outcomes, counter, n)[at].1,
    decreases n,
{
    let rest = links_of(decls, outcomes, counter, (n - 1) as nat);
    if at < rest.len() {
        law_links_are_of_recognized_declarations(decls, outcomes, counter, (n - 1) as nat, at)
    } else {
        law_one_id_for_each_local_declaration(decls, counter, (n - 1) as nat);
        n - 1
    }
}

} // verus!
