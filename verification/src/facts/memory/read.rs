//! Reading the store, and the store with a commit that is being prepared, at a
//! snapshot.
use vstd::prelude::*;

use super::ids::{MemStoredFact, MemoryEntityId, MemoryEventId, MemoryImageId};
use super::index::Index;
use super::retraction::{lemma_bounded_set, lemma_retraction, retraction, retracts, Edges};
use super::state::{
    entity_keys, event_keys, image_keys, lists_mentions, recorded, Inner, Pending, UnionSource,
};
use crate::algebra::ordered::{ascending, keys, OrderedSet, TotalOrder};
use crate::facts::ids::{CommitId, FactId};
use crate::facts::schema::{row_ids, FactPage, PageItem};
use crate::facts::submit::{FactLookup, FactPlacement};

verus! {

/// What is at a fact id of an in-memory store.
pub type MemFactLookup<'a> = FactLookup<'a, MemoryEntityId, MemoryEventId, MemoryImageId>;

/// A view of committed facts, and of pending ones where there are any, below a
/// snapshot.
pub struct ReadCore<'a> {
    /// The state of the store.
    pub committed: &'a Inner,
    /// The delta of a commit that is being prepared.
    pub pending: Option<&'a Pending>,
    /// The ids at or above it are not seen.
    pub snapshot: FactId,
}

/// Where a fact id lies, whatever the snapshot.
#[derive(Debug, Clone, Copy, PartialEq, Eq, Structural)]
pub enum Partition {
    /// At this position of the committed facts.
    Committed(usize),
    /// At this position of the pending facts.
    Pending(usize),
    /// Past both.
    Beyond,
}

/// Whether a page shows what it should of the ids `about`: the first `limit` of
/// those from `cursor` on that are below the snapshot and not retracted, and,
/// where it is full, the id that comes next below the snapshot, shown or not. It
/// names none only where none is left.
pub open spec fn is_page(
    ids: Seq<u64>,
    next: Option<u64>,
    about: Set<u64>,
    shown: spec_fn(u64) -> bool,
    snapshot: u64,
    cursor: u64,
    limit: nat,
) -> bool {
    &&& ascending::<FactId>(ids)
    &&& ids.len() <= limit
    &&& forall|k: int|
        0 <= k < ids.len() ==> cursor <= #[trigger] ids[k] && ids[k] < snapshot && about.contains(
            ids[k],
        ) && shown(ids[k])
    &&& match next {
        Some(stop) => {
            &&& ids.len() == limit
            &&& cursor <= stop < snapshot
            &&& about.contains(stop)
            &&& forall|k: int| 0 <= k < ids.len() ==> #[trigger] ids[k] < stop
            &&& forall|x: u64| #[trigger]
                about.contains(x) && cursor <= x < stop ==> {
                    ||| shown(x) && ids.contains(x)
                    ||| !shown(x) && (limit > 0 && x < ids.last())
                }
        },
        None => {
            &&& forall|x: u64| #[trigger]
                about.contains(x) && cursor <= x < snapshot && shown(x) ==> ids.contains(x)
            &&& ids.len() == limit && limit > 0 ==> forall|x: u64| #[trigger]
                about.contains(x) && cursor <= x < snapshot ==> x <= ids.last()
        },
    }
}

impl<'a> ReadCore<'a> {
    /// The committed facts and then the pending ones.
    pub open spec fn facts(self) -> Seq<MemStoredFact> {
        match self.pending {
            Some(pending) => self.committed.facts@ + pending.facts@,
            None => self.committed.facts@,
        }
    }

    /// The store and the delta are consistent.
    pub open spec fn wf(self) -> bool {
        &&& self.committed.wf()
        &&& match self.pending {
            Some(pending) => pending.wf(*self.committed),
            None => true,
        }
    }

    /// For each fact, the facts that retract it.
    pub open spec fn edges(self) -> Edges {
        |t: u64|
            match self.pending {
                Some(pending) => self.committed.retractors.at(t).union(pending.retractors.at(t)),
                None => self.committed.retractors.at(t),
            }
    }

    /// The lowest fact that effectively retracts a fact at the snapshot.
    pub open spec fn retraction_of(self, id: u64) -> Option<u64> {
        retraction(self.edges(), self.snapshot@, id)
    }

    /// Whether a fact is seen at the snapshot and not retracted.
    pub open spec fn active(self, id: u64) -> bool {
        id < self.snapshot@ && id < self.facts().len() && self.retraction_of(id) is None
    }

    /// How many facts are seen at the snapshot.
    pub open spec fn seen(self) -> nat {
        if self.snapshot@ < self.facts().len() {
            self.snapshot@ as nat
        } else {
            self.facts().len()
        }
    }

    /// Which half an id lies in, whatever the snapshot.
    pub fn locate(&self, id: FactId) -> (r: Partition)
        requires
            self.wf(),
        ensures
            id@ < self.committed.facts@.len() ==> (r matches Partition::Committed(i) && i == id@),
            self.committed.facts@.len() <= id@ < self.facts().len() ==> (r matches
                Partition::Pending(i) && i == id@ - self.committed.facts@.len()),
            id@ >= self.facts().len() ==> r == Partition::Beyond,
    {
        let committed_len: u64 = self.committed.facts.len() as u64;
        if id.get() < committed_len {
            return Partition::Committed(id.get() as usize);
        }
        match self.pending {
            Some(pending) => {
                let offset: u64 = id.get() - committed_len;
                if offset < pending.facts.len() as u64 {
                    Partition::Pending(offset as usize)
                } else {
                    Partition::Beyond
                }
            },
            None => Partition::Beyond,
        }
    }

    /// The fact with this id, whatever the snapshot; `None` past both halves.
    pub fn fact_slot(&self, id: FactId) -> (r: Option<&'a MemStoredFact>)
        requires
            self.wf(),
        ensures
            r is Some <==> id@ < self.facts().len(),
            r is Some ==> *r->0 == self.facts()[id@ as int],
    {
        match self.locate(id) {
            Partition::Committed(i) => Some(&self.committed.facts[i]),
            Partition::Pending(i) => match self.pending {
                Some(pending) => Some(&pending.facts[i]),
                None => None,
            },
            Partition::Beyond => None,
        }
    }

    /// What is at a fact id: nothing yet at or above the snapshot, nothing past
    /// both halves, and else a fact that is retracted or active.
    pub fn fact_at(&self, id: FactId) -> (r: MemFactLookup<'a>)
        requires
            self.wf(),
        ensures
            id@ >= self.snapshot@ ==> r is Future,
            id@ < self.snapshot@ && id@ >= self.facts().len() ==> r is Unknown,
            id@ < self.seen() ==> match self.retraction_of(id@) {
                Some(by) => r matches FactLookup::Retracted { by: x } && x@ == by,
                None => r matches FactLookup::Active(fact) && *fact == self.facts()[id@ as int],
            },
    {
        if id.get() >= self.snapshot.get() {
            return FactLookup::Future;
        }
        match self.fact_slot(id) {
            Some(fact) => self.resolve_active_or_retracted(id, fact),
            None => FactLookup::Unknown,
        }
    }

    /// A fact, retracted or active.
    pub fn resolve_active_or_retracted(&self, id: FactId, fact: &'a MemStoredFact) -> (r:
        MemFactLookup<'a>)
        ensures
            match self.retraction_of(id@) {
                Some(by) => r matches FactLookup::Retracted { by: x } && x@ == by,
                None => r matches FactLookup::Active(f) && *f == *fact,
            },
    {
        match self.retracted_by(id) {
            Some(by) => FactLookup::Retracted { by },
            None => FactLookup::Active(fact),
        }
    }

    /// Every fact that retracts a fact, committed or pending.
    pub fn retractor_ids(&self, id: FactId) -> (r: Vec<FactId>)
        ensures
            keys(r@).to_set() == (self.edges())(id@),
    {
        let mut out: Vec<FactId> = Vec::new();
        let ghost committed = self.committed.retractors.at(id@);
        match self.committed.retractors.get(&id) {
            Some(ids) => append_ids(ids, &mut out),
            None => {},
        }
        assert(keys(out@).to_set() =~= committed);
        match self.pending {
            Some(pending) => {
                match pending.retractors.get(&id) {
                    Some(ids) => append_ids(ids, &mut out),
                    None => {},
                }
                assert(keys(out@).to_set() =~= (self.edges())(id@));
            },
            None => {},
        }
        out
    }

    /// The retractors of a fact that are below the snapshot.
    fn visible_retractors(&self, id: FactId) -> (r: Vec<FactId>)
        ensures
            forall|x: u64| #[trigger]
                keys(r@).contains(x) <==> (self.edges())(id@).contains(x) && x < self.snapshot@,
    {
        let all = self.retractor_ids(id);
        let ghost whole = keys(all@);
        let mut out: Vec<FactId> = Vec::new();
        let mut i: usize = 0;
        while i < all.len()
            invariant
                i <= all@.len(),
                whole == keys(all@),
                forall|x: u64| #[trigger]
                    keys(out@).contains(x) <==> whole.take(i as int).contains(x) && x
                        < self.snapshot@,
            decreases all.len() - i,
        {
            let ghost before = keys(out@);
            let x = all[i];
            if x.get() < self.snapshot.get() {
                out.push(x);
                assert(keys(out@) =~= before.push(x@));
            }
            proof {
                let part = whole.take(i as int);
                let more = whole.take(i + 1);
                crate::algebra::ordered::lemma_take_to_set(whole, i as int);
                assert forall|y: u64| #[trigger]
                    keys(out@).contains(y) <==> more.contains(y) && y < self.snapshot@ by {
                    assert(more.to_set().contains(y) <==> part.to_set().insert(x@).contains(y));
                    if keys(out@).contains(y) && y != x@ {
                        let k = keys(out@).index_of(y);
                        assert(before.contains(y)) by {
                            if k < before.len() {
                                assert(before[k] == y);
                            }
                        }
                    }
                    if before.contains(y) {
                        let k = before.index_of(y);
                        assert(keys(out@)[k] == y);
                    }
                    if y == x@ && y < self.snapshot@ {
                        assert(keys(out@)[before.len() as int] == y);
                    }
                }
            }
            i += 1;
        }
        assert(whole.take(i as int) =~= whole);
        assert forall|x: u64| #[trigger]
            keys(out@).contains(x) <==> (self.edges())(id@).contains(x) && x < self.snapshot@ by {
            assert(whole.to_set().contains(x) <==> (self.edges())(id@).contains(x));
        }
        out
    }

    /// The facts reachable from a fact through visible retractor edges, itself
    /// one of them.
    fn retractors_above(&self, id: FactId) -> (r: OrderedSet<FactId>)
        ensures
            r@.contains(id@),
            forall|t: u64, x: u64|
                r@.contains(t) && #[trigger] (self.edges())(t).contains(x) && x < self.snapshot@
                    ==> r@.contains(x),
    {
        let mut subgraph: OrderedSet<FactId> = OrderedSet::new();
        let mut frontier: Vec<FactId> = Vec::new();
        frontier.push(id);
        let ghost bound: nat = if id@ < self.snapshot@ {
            self.snapshot@ as nat
        } else {
            id@ as nat + 1
        };
        assert(keys(frontier@)[0] == id@);
        proof {
            lemma_bounded_set(subgraph@, bound);
        }
        while frontier.len() > 0
            invariant
                subgraph@.contains(id@) || keys(frontier@).contains(id@),
                self.snapshot@ <= bound,
                id@ < bound,
                forall|x: u64| subgraph@.contains(x) ==> x < bound,
                forall|k: int| 0 <= k < frontier@.len() ==> (#[trigger] frontier@[k])@ < bound,
                forall|t: u64, x: u64|
                    subgraph@.contains(t) && #[trigger] (self.edges())(t).contains(x) && x
                        < self.snapshot@ ==> subgraph@.contains(x) || keys(frontier@).contains(x),
                subgraph@.finite(),
            decreases bound - subgraph@.len(), frontier@.len(),
        {
            let ghost list = keys(frontier@);
            let ghost held = subgraph@;
            let next = match frontier.pop() {
                Some(next) => next,
                None => {
                    return subgraph;
                },
            };
            let ghost rest = keys(frontier@);
            assert(list =~= rest.push(next@));
            assert(forall|x: u64| list.contains(x) ==> rest.contains(x) || x == next@) by {
                assert forall|x: u64| list.contains(x) implies rest.contains(x) || x == next@ by {
                    let k = list.index_of(x);
                    if k < rest.len() {
                        assert(rest[k] == x);
                    }
                }
            }
            let fresh = subgraph.insert(next);
            if fresh {
                let mut more = self.visible_retractors(next);
                let ghost added = keys(more@);
                frontier.append(&mut more);
                proof {
                    let whole = keys(frontier@);
                    assert(whole =~= rest + added);
                    assert forall|x: u64| rest.contains(x) || added.contains(
                        x,
                    ) implies whole.contains(x) by {
                        if rest.contains(x) {
                            let k = rest.index_of(x);
                            assert(whole[k] == x);
                        } else {
                            let k = added.index_of(x);
                            assert(whole[rest.len() + k] == x);
                        }
                    }
                    assert forall|k: int| 0 <= k < frontier@.len() implies (
                    #[trigger] frontier@[k])@ < bound by {
                        assert(whole[k] == frontier@[k]@);
                        if k >= rest.len() {
                            assert(added[k - rest.len()] == whole[k]);
                            assert(added.contains(whole[k]));
                        } else {
                            assert(list[k] == rest[k]);
                        }
                    }
                    assert forall|t: u64, x: u64|
                        subgraph@.contains(t) && #[trigger] (self.edges())(t).contains(x) && x
                            < self.snapshot@ implies subgraph@.contains(x) || whole.contains(
                        x,
                    ) by {
                        if t == next@ {
                            assert(added.contains(x));
                        } else {
                            assert(held.contains(x) || list.contains(x));
                        }
                    }
                    lemma_bounded_set(subgraph@, bound);
                }
            } else {
                assert(subgraph@ =~= held);
            }
        }
        assert(keys(frontier@) =~= Seq::<u64>::empty());
        subgraph
    }

    /// The lowest [`FactId`] effectively retracting a fact at this snapshot, or
    /// `None`: the lowest of its retractors that is visible and not itself
    /// effectively retracted.
    ///
    /// Walks only the facts bearing on the given one, from the highest id to the
    /// lowest, so that the fate of each retractor is known before that of what it
    /// retracts.
    pub fn retracted_by(&self, id: FactId) -> (r: Option<FactId>)
        ensures
            r is Some <==> self.retraction_of(id@) is Some,
            r is Some ==> r->0@ == self.retraction_of(id@)->0,
    {
        let subgraph = self.retractors_above(id);
        let order = subgraph.as_slice();
        let ghost list = keys(order@);
        let ghost edges = self.edges();
        let mut fates: Vec<Option<FactId>> = Vec::new();
        let total: usize = order.len();
        let mut left: usize = total;
        // `fates` holds the fates of order[left..], the last one first.
        while left > 0
            invariant
                left <= total == order@.len(),
                list == keys(order@),
                list.to_set() == subgraph@,
                ascending::<FactId>(list),
                edges == self.edges(),
                fates@.len() == order@.len() - left,
                forall|k: int|
                    left <= k < order@.len() ==> fate_view(
                        #[trigger] fates@[order@.len() - 1 - k],
                    ) == self.retraction_of(list[k]),
                forall|t: u64, x: u64|
                    subgraph@.contains(t) && #[trigger] (self.edges())(t).contains(x) && x
                        < self.snapshot@ ==> subgraph@.contains(x),
            decreases left,
        {
            left -= 1;
            let current = order[left];
            let candidates = self.visible_retractors(current);
            let ghost whole = keys(candidates@);
            assert(list[left as int] == current@);
            assert(list.to_set().contains(current@));
            let mut best: Option<FactId> = None;
            let mut i: usize = 0;
            while i < candidates.len()
                invariant
                    i <= candidates@.len(),
                    left < total == order@.len(),
                    current@ == list[left as int],
                    subgraph@.contains(current@),
                    whole == keys(candidates@),
                    list == keys(order@),
                    list.to_set() == subgraph@,
                    ascending::<FactId>(list),
                    edges == self.edges(),
                    fates@.len() == order@.len() - left - 1,
                    forall|k: int|
                        left < k < order@.len() ==> fate_view(
                            #[trigger] fates@[order@.len() - 1 - k],
                        ) == self.retraction_of(list[k]),
                    forall|t: u64, x: u64|
                        subgraph@.contains(t) && #[trigger] (self.edges())(t).contains(x) && x
                            < self.snapshot@ ==> subgraph@.contains(x),
                    forall|x: u64| #[trigger]
                        whole.contains(x) <==> (self.edges())(current@).contains(x) && x
                            < self.snapshot@,
                    match best {
                        Some(by) => {
                            &&& whole.take(i as int).contains(by@)
                            &&& retracts(edges, self.snapshot@, current@, by@)
                            &&& forall|k: int|
                                0 <= k < i && retracts(
                                    edges,
                                    self.snapshot@,
                                    current@,
                                    #[trigger] whole[k],
                                ) ==> by@ <= whole[k]
                        },
                        None => forall|k: int|
                            0 <= k < i ==> !retracts(
                                edges,
                                self.snapshot@,
                                current@,
                                #[trigger] whole[k],
                            ),
                    },
                decreases candidates.len() - i,
            {
                let candidate = candidates[i];
                assert(whole[i as int] == candidate@);
                assert(whole.contains(candidate@));
                assert((self.edges())(current@).contains(candidate@));
                let taken_back = known_fate(order, left + 1, &fates, candidate);
                proof {
                    assert(subgraph@.contains(candidate@));
                    assert(list.contains(candidate@));
                    let at = list.index_of(candidate@);
                    if candidate@ > current@ {
                        assert(at > left) by {
                            if at < left {
                                assert(list[at] < list[left as int]);
                            }
                        }
                        assert(fate_view(fates@[order@.len() - 1 - at]) == self.retraction_of(
                            list[at],
                        ));
                    } else if at > left {
                        assert(list[left as int] < list[at]);
                    }
                    assert(taken_back == (candidate@ > current@ && self.retraction_of(
                        candidate@,
                    ) is Some));
                }
                let counts = !taken_back;
                assert(counts == retracts(edges, self.snapshot@, current@, candidate@));
                let lower = match best {
                    Some(by) => candidate.get() < by.get(),
                    None => true,
                };
                let ghost prior = whole.take(i as int);
                let ghost more = whole.take(i + 1);
                assert(more[i as int] == candidate@);
                if counts && lower {
                    best = Some(candidate);
                    assert(more.contains(candidate@));
                } else {
                    proof {
                        if best is Some {
                            let k = prior.index_of(best->0@);
                            assert(more[k] == best->0@);
                        }
                    }
                }
                i += 1;
            }
            proof {
                assert(whole.take(i as int) =~= whole);
                lemma_retraction(edges, self.snapshot@, current@);
                assert forall|x: u64| retracts(edges, self.snapshot@, current@, x) implies exists|
                    k: int,
                | 0 <= k < whole.len() && #[trigger] whole[k] == x by {
                    assert(whole.contains(x));
                    let k = whole.index_of(x);
                    assert(whole[k] == x);
                }
                match (best, self.retraction_of(current@)) {
                    (Some(by), Some(other)) => {
                        if other < by@ {
                            assert(retracts(edges, self.snapshot@, current@, other));
                        }
                        if by@ < other {
                            assert(!retracts(edges, self.snapshot@, current@, by@));
                        }
                    },
                    (Some(by), None) => {
                        assert(!retracts(edges, self.snapshot@, current@, by@));
                    },
                    (None, Some(other)) => {
                        assert(retracts(edges, self.snapshot@, current@, other));
                    },
                    (None, None) => {},
                }
            }
            let ghost prior = fates@;
            fates.push(best);
            proof {
                let n = order@.len() as int;
                assert forall|k: int| left <= k < n implies fate_view(
                    #[trigger] fates@[n - 1 - k],
                ) == self.retraction_of(list[k]) by {
                    if k > left {
                        assert(fates@[n - 1 - k] == prior[n - 1 - k]);
                    }
                }
            }
        }
        let r = fate_of(order, &fates, id);
        r
    }

    /// Whether a commit with this id has landed; one whose facts were taken back
    /// has.
    pub fn commit_known_at(&self, id: &CommitId) -> (r: bool)
        ensures
            r == recorded(self.committed.commits@, id@),
    {
        match self.committed.find_commit(id) {
            Some(_) => true,
            None => false,
        }
    }

    /// Where an id sits, seen from the snapshot.
    pub fn placement_at(&self, id: FactId) -> (r: FactPlacement)
        requires
            self.wf(),
        ensures
            r == (if id@ >= self.snapshot@ || id@ >= self.facts().len() {
                FactPlacement::Absent
            } else if id@ < self.committed.facts@.len() {
                FactPlacement::Committed
            } else {
                FactPlacement::InFlight
            }),
    {
        if id.get() >= self.snapshot.get() {
            return FactPlacement::Absent;
        }
        match self.locate(id) {
            Partition::Committed(_) => FactPlacement::Committed,
            Partition::Pending(_) => FactPlacement::InFlight,
            Partition::Beyond => FactPlacement::Absent,
        }
    }
}

/// A fate as a number.
pub open spec fn fate_view(fate: Option<FactId>) -> Option<u64> {
    match fate {
        Some(by) => Some(by@),
        None => None,
    }
}

/// Whether an id stands at or after `from` in the order and is known to be
/// retracted.
fn known_fate(order: &[FactId], from: usize, fates: &Vec<Option<FactId>>, id: FactId) -> (r: bool)
    requires
        from <= order@.len(),
        fates@.len() == order@.len() - from,
    ensures
        r ==> exists|k: int|
            from <= k < order@.len() && #[trigger] order@[k]@ == id@ && fates@[order@.len() - 1
                - k] is Some,
        !r ==> forall|k: int|
            from <= k < order@.len() && #[trigger] order@[k]@ == id@ ==> fates@[order@.len() - 1
                - k] is None,
{
    let mut k: usize = from;
    while k < order.len()
        invariant
            from <= k <= order@.len(),
            fates@.len() == order@.len() - from,
            forall|j: int|
                from <= j < k && #[trigger] order@[j]@ == id@ ==> fates@[order@.len() - 1
                    - j] is None,
        decreases order.len() - k,
    {
        if order[k].get() == id.get() {
            match fates[order.len() - 1 - k] {
                Some(_) => {
                    assert(order@[k as int]@ == id@);
                    return true;
                },
                None => {},
            }
        }
        k += 1;
    }
    false
}

/// The fate of the id that stands in the order.
fn fate_of(order: &[FactId], fates: &Vec<Option<FactId>>, id: FactId) -> (r: Option<FactId>)
    requires
        fates@.len() == order@.len(),
        keys(order@).contains(id@),
        keys(order@).no_duplicates(),
    ensures
        forall|k: int|
            0 <= k < order@.len() && #[trigger] order@[k]@ == id@ ==> r == fates@[order@.len() - 1
                - k],
{
    let mut k: usize = 0;
    while k < order.len()
        invariant
            k <= order@.len(),
            fates@.len() == order@.len(),
            keys(order@).no_duplicates(),
            forall|j: int| 0 <= j < k ==> #[trigger] order@[j]@ != id@,
        decreases order.len() - k,
    {
        if order[k].get() == id.get() {
            let r = fates[order.len() - 1 - k];
            proof {
                assert forall|j: int| 0 <= j < order@.len() && #[trigger] order@[j]@ == id@ implies r
                    == fates@[order@.len() - 1 - j] by {
                    assert(keys(order@)[j] == keys(order@)[k as int]);
                }
            }
            return r;
        }
        k += 1;
    }
    None
}

/// Append the members of a set.
fn append_ids(ids: &OrderedSet<FactId>, out: &mut Vec<FactId>)
    ensures
        keys(final(out)@).to_set() == keys(old(out)@).to_set().union(ids@),
{
    let list = ids.as_slice();
    let ghost start = keys(out@);
    let ghost whole = keys(list@);
    let mut i: usize = 0;
    assert(start + whole.take(0) =~= start);
    while i < list.len()
        invariant
            i <= list@.len(),
            whole == keys(list@),
            keys(out@) == start + whole.take(i as int),
        decreases list.len() - i,
    {
        let ghost prior = keys(out@);
        out.push(list[i]);
        assert(keys(out@) =~= prior.push(whole[i as int]));
        assert(whole.take(i + 1) =~= whole.take(i as int).push(whole[i as int]));
        assert(keys(out@) =~= start + whole.take(i + 1));
        i += 1;
    }
    proof {
        assert(whole.take(i as int) =~= whole);
        assert forall|x: u64| (start + whole).contains(x) <==> start.contains(x)
            || whole.contains(x) by {
            if start.contains(x) {
                let k = start.index_of(x);
                assert((start + whole)[k] == x);
            }
            if whole.contains(x) {
                let k = whole.index_of(x);
                assert((start + whole)[start.len() + k] == x);
            }
        }
        assert((start + whole).to_set() =~= start.to_set().union(whole.to_set()));
    }
}

// --- Pages ---

/// Append the members of a set from `cursor` on.
fn append_from(ids: &OrderedSet<FactId>, cursor: FactId, out: &mut Vec<FactId>)
    requires
        ascending::<FactId>(keys(old(out)@)),
        forall|x: u64, y: u64|
            keys(old(out)@).contains(x) && #[trigger] ids@.contains(y) ==> #[trigger] lt(x, y),
    ensures
        ascending::<FactId>(keys(final(out)@)),
        forall|x: u64| #[trigger]
            keys(final(out)@).contains(x) <==> keys(old(out)@).contains(x) || ids@.contains(x)
                && cursor@ <= x,
{
    let list = ids.as_slice();
    let ghost start = keys(out@);
    let ghost whole = keys(list@);
    assert(whole == ids.list());
    let mut i: usize = 0;
    while i < list.len()
        invariant
            i <= list@.len(),
            whole == keys(list@),
            whole.to_set() == ids@,
            ascending::<FactId>(whole),
            forall|x: u64, y: u64|
                start.contains(x) && #[trigger] ids@.contains(y) ==> #[trigger] lt(x, y),
            ascending::<FactId>(keys(out@)),
            forall|x: u64| #[trigger]
                keys(out@).contains(x) <==> start.contains(x) || whole.take(i as int).contains(x)
                    && cursor@ <= x,
        decreases list.len() - i,
    {
        let x = list[i];
        let ghost prior = keys(out@);
        assert(whole[i as int] == x@);
        assert(whole.contains(x@) && ids@.contains(x@)) by {
            assert(whole.to_set().contains(x@));
        }
        if x.get() >= cursor.get() {
            out.push(x);
            assert(keys(out@) =~= prior.push(x@));
        }
        proof {
            let part = whole.take(i as int);
            let more = whole.take(i + 1);
            crate::algebra::ordered::lemma_take_to_set(whole, i as int);
            assert forall|a: int, b: int| 0 <= a < b < keys(out@).len() implies (
            #[trigger] keys(out@)[a]) < (#[trigger] keys(out@)[b]) by {
                if b < prior.len() {
                    assert(prior[a] < prior[b]);
                } else {
                    let y = prior[a];
                    assert(prior.contains(y));
                    assert(keys(out@)[a] == y);
                    if start.contains(y) {
                        assert(lt(y, x@));
                    } else {
                        assert(part.contains(y));
                        let k = part.index_of(y);
                        assert(whole[k] < whole[i as int]);
                    }
                }
            }
            assert forall|y: u64| #[trigger]
                keys(out@).contains(y) <==> start.contains(y) || more.contains(y) && cursor@
                    <= y by {
                assert(more.to_set().contains(y) <==> part.to_set().insert(x@).contains(y));
                assert(prior.contains(y) <==> start.contains(y) || part.contains(y) && cursor@
                    <= y);
                if prior.contains(y) {
                    let k = prior.index_of(y);
                    assert(keys(out@)[k] == y);
                }
                if keys(out@).contains(y) {
                    let k = keys(out@).index_of(y);
                    if k < prior.len() {
                        assert(prior[k] == y);
                        assert(prior.contains(y));
                    }
                }
                if y == x@ && cursor@ <= y {
                    assert(keys(out@)[prior.len() as int] == y);
                }
            }
        }
        i += 1;
    }
    proof {
        assert(whole.take(i as int) =~= whole);
        assert forall|x: u64| #[trigger]
            keys(out@).contains(x) <==> start.contains(x) || ids@.contains(x) && cursor@ <= x by {
            assert(whole.to_set().contains(x) <==> ids@.contains(x));
        }
    }
}

/// The order of numbers.
pub open spec fn lt(x: u64, y: u64) -> bool {
    x < y
}

/// A page over borrowed facts.
pub type MemPage<'a, S> = FactPage<&'a MemStoredFact, S>;

/// The cursor of a page as a number.
pub open spec fn cursor_view(cursor: Option<FactId>) -> Option<u64> {
    match cursor {
        Some(id) => Some(id@),
        None => None,
    }
}

impl<'a> ReadCore<'a> {
    /// The facts listed under a subject, committed and pending.
    pub open spec fn listed<S: TotalOrder>(
        self,
        backlinks: Index<S>,
        pending_backlinks: Option<&Index<S>>,
        subject: S::V,
    ) -> Set<u64> {
        match pending_backlinks {
            Some(pending) => backlinks.at(subject).union(pending.at(subject)),
            None => backlinks.at(subject),
        }
    }

    /// The two lists of facts under a subject lie in their own halves.
    pub open spec fn halves<S: TotalOrder>(
        self,
        backlinks: Index<S>,
        pending_backlinks: Option<&Index<S>>,
        subject: S::V,
    ) -> bool {
        &&& forall|x: u64| #[trigger]
            backlinks.at(subject).contains(x) ==> x < self.committed.facts@.len()
        &&& match pending_backlinks {
            Some(pending) => forall|x: u64| #[trigger]
                pending.at(subject).contains(x) ==> self.committed.facts@.len() <= x
                    < self.facts().len(),
            None => true,
        }
    }

    /// A page of the facts listed under a subject, active and below the snapshot,
    /// from `cursor` on. The subject is its own representative.
    ///
    /// `next_cursor` is the first listed fact below the snapshot that the page had
    /// no room for, and `None` where there is none. A retracted fact takes no
    /// room.
    pub fn facts_about<S: TotalOrder + Copy>(
        &self,
        backlinks: &Index<S>,
        pending_backlinks: Option<&Index<S>>,
        subject: S,
        cursor: FactId,
        limit: usize,
    ) -> (r: MemPage<'a, S>)
        requires
            self.wf(),
            self.halves(*backlinks, pending_backlinks, subject@),
            limit > 0,
        ensures
            is_page(
                row_ids(r.items@),
                cursor_view(r.next_cursor),
                self.listed(*backlinks, pending_backlinks, subject@),
                |x: u64| self.active(x),
                self.snapshot@,
                cursor@,
                limit as nat,
            ),
            forall|k: int|
                0 <= k < r.items@.len() ==> *(#[trigger] r.items@[k]).fact
                    == self.facts()[r.items@[k].fact_id@ as int] && r.items@[k].representative
                    == subject,
    {
        let ghost about = self.listed(*backlinks, pending_backlinks, subject@);
        let ghost shown = |x: u64| self.active(x);
        let mut ids: Vec<FactId> = Vec::new();
        match backlinks.get(&subject) {
            Some(set) => append_from(set, cursor, &mut ids),
            None => {},
        }
        match pending_backlinks {
            Some(pending) => match pending.get(&subject) {
                Some(set) => append_from(set, cursor, &mut ids),
                None => {},
            },
            None => {},
        }
        let ghost list = keys(ids@);
        assert forall|x: u64| #[trigger] list.contains(x) <==> about.contains(x) && cursor@ <= x by {}
        assert(ascending::<FactId>(list));
        let mut items: Vec<PageItem<&'a MemStoredFact, S>> = Vec::new();
        let mut i: usize = 0;
        while i < ids.len()
            invariant
                i <= ids@.len(),
                self.wf(),
                self.halves(*backlinks, pending_backlinks, subject@),
                limit > 0,
                list == keys(ids@),
                about == self.listed(*backlinks, pending_backlinks, subject@),
                shown == (|x: u64| self.active(x)),
                ascending::<FactId>(list),
                forall|x: u64| #[trigger] list.contains(x) <==> about.contains(x) && cursor@ <= x,
                items@.len() <= limit,
                forall|k: int| 0 <= k < i ==> #[trigger] list[k] < self.snapshot@,
                chosen(row_ids(items@), list.take(i as int), shown),
                forall|k: int|
                    0 <= k < items@.len() ==> *(#[trigger] items@[k]).fact
                        == self.facts()[items@[k].fact_id@ as int] && items@[k].representative
                        == subject,
                items@.len() == limit ==> i > 0 && row_ids(items@).last() == list[i - 1],
            decreases ids.len() - i,
        {
            let id = ids[i];
            assert(list[i as int] == id@);
            assert(list.contains(id@));
            if id.get() >= self.snapshot.get() {
                proof {
                    lemma_page_end(
                        row_ids(items@),
                        list,
                        i as int,
                        about,
                        shown,
                        self.snapshot@,
                        cursor@,
                        limit as nat,
                    );
                }
                return FactPage { items, next_cursor: None };
            }
            if items.len() == limit {
                proof {
                    lemma_page_full(
                        row_ids(items@),
                        list,
                        i as int,
                        about,
                        shown,
                        self.snapshot@,
                        cursor@,
                        limit as nat,
                    );
                }
                return FactPage { items, next_cursor: Some(id) };
            }
            let ghost before = row_ids(items@);
            let ghost part = list.take(i as int);
            assert(list.take(i + 1) =~= part.push(id@));
            assert(id@ < self.facts().len());
            match self.retracted_by(id) {
                Some(_) => {
                    assert(!shown(id@));
                    proof {
                        lemma_chosen_skip(before, part, id@, shown);
                    }
                },
                None => {
                    match self.fact_slot(id) {
                        Some(fact) => {
                            items.push(PageItem { fact_id: id, fact, representative: subject });
                            assert(row_ids(items@) =~= before.push(id@));
                            assert(shown(id@));
                            proof {
                                lemma_chosen_take(before, part, id@, shown);
                            }
                        },
                        None => {
                            assert(false);
                        },
                    }
                },
            }
            i += 1;
        }
        proof {
            assert(list.take(i as int) =~= list);
            lemma_page_end(
                row_ids(items@),
                list,
                i as int,
                about,
                shown,
                self.snapshot@,
                cursor@,
                limit as nat,
            );
        }
        FactPage { items, next_cursor: None }
    }
}

/// `ids` are the shown ones of `list`, in order.
pub open spec fn chosen(ids: Seq<u64>, list: Seq<u64>, shown: spec_fn(u64) -> bool) -> bool {
    &&& ascending::<FactId>(ids)
    &&& forall|x: u64| #[trigger] ids.contains(x) <==> list.contains(x) && shown(x)
}

/// One that is not shown changes nothing.
proof fn lemma_chosen_skip(ids: Seq<u64>, list: Seq<u64>, x: u64, shown: spec_fn(u64) -> bool)
    requires
        chosen(ids, list, shown),
        !shown(x),
    ensures
        chosen(ids, list.push(x), shown),
{
    let more = list.push(x);
    assert forall|y: u64| #[trigger] ids.contains(y) <==> more.contains(y) && shown(y) by {
        lemma_push_contains(list, x, y);
    }
}

/// What a list with one more element contains.
proof fn lemma_push_contains(list: Seq<u64>, x: u64, y: u64)
    ensures
        list.push(x).contains(y) <==> list.contains(y) || y == x,
{
    let more = list.push(x);
    if list.contains(y) {
        let k = list.index_of(y);
        assert(more[k] == y);
    }
    if y == x {
        assert(more[list.len() as int] == y);
    }
    if more.contains(y) {
        let k = more.index_of(y);
        if k < list.len() {
            assert(list[k] == y);
        }
    }
}

/// One that is shown and comes after all of the list is taken.
proof fn lemma_chosen_take(ids: Seq<u64>, list: Seq<u64>, x: u64, shown: spec_fn(u64) -> bool)
    requires
        chosen(ids, list, shown),
        shown(x),
        ascending::<FactId>(list.push(x)),
    ensures
        chosen(ids.push(x), list.push(x), shown),
{
    let more = list.push(x);
    let out = ids.push(x);
    assert forall|y: u64| #[trigger] out.contains(y) <==> more.contains(y) && shown(y) by {
        lemma_push_contains(list, x, y);
        lemma_push_contains(ids, x, y);
        assert(ids.contains(y) <==> list.contains(y) && shown(y));
    }
    assert forall|a: int, b: int| 0 <= a < b < out.len() implies (#[trigger] out[a]) < (
    #[trigger] out[b]) by {
        if b < ids.len() {
            assert(ids[a] < ids[b]);
        } else {
            assert(ids.contains(ids[a]));
            assert(list.contains(ids[a]));
            let k = list.index_of(ids[a]);
            assert(more[k] < more[list.len() as int]);
        }
    }
}

/// A scan that met the snapshot, or the end of the list, is a last page.
proof fn lemma_page_end(
    ids: Seq<u64>,
    list: Seq<u64>,
    i: int,
    about: Set<u64>,
    shown: spec_fn(u64) -> bool,
    snapshot: u64,
    cursor: u64,
    limit: nat,
)
    requires
        0 <= i <= list.len(),
        ascending::<FactId>(list),
        forall|x: u64| #[trigger] list.contains(x) <==> about.contains(x) && cursor <= x,
        forall|k: int| 0 <= k < i ==> #[trigger] list[k] < snapshot,
        i < list.len() ==> list[i] >= snapshot,
        chosen(ids, list.take(i), shown),
        ids.len() <= limit,
        ids.len() == limit && limit > 0 ==> i > 0 && ids.last() == list[i - 1],
    ensures
        is_page(ids, None, about, shown, snapshot, cursor, limit),
{
    let part = list.take(i);
    lemma_ids_in_part(ids, list, i, about, shown, snapshot, cursor);
    assert forall|x: u64| #[trigger]
        about.contains(x) && cursor <= x < snapshot && shown(x) implies ids.contains(x) by {
        assert(list.contains(x));
        let k = list.index_of(x);
        if k >= i {
            if k > i {
                assert(list[i] < list[k]);
            }
            assert(false);
        }
        assert(part[k] == x);
        assert(part.contains(x));
    }
    if ids.len() == limit && limit > 0 {
        assert forall|x: u64| #[trigger] about.contains(x) && cursor <= x < snapshot implies x
            <= ids.last() by {
            assert(list.contains(x));
            let k = list.index_of(x);
            if k > i {
                assert(list[i] < list[k]);
            }
            if k < i - 1 {
                assert(list[k] < list[i - 1]);
            }
        }
    }
}

/// What is taken is listed, from the cursor on, and below the snapshot.
proof fn lemma_ids_in_part(
    ids: Seq<u64>,
    list: Seq<u64>,
    i: int,
    about: Set<u64>,
    shown: spec_fn(u64) -> bool,
    snapshot: u64,
    cursor: u64,
)
    requires
        0 <= i <= list.len(),
        forall|x: u64| #[trigger] list.contains(x) <==> about.contains(x) && cursor <= x,
        forall|k: int| 0 <= k < i ==> #[trigger] list[k] < snapshot,
        chosen(ids, list.take(i), shown),
    ensures
        forall|k: int|
            0 <= k < ids.len() ==> cursor <= #[trigger] ids[k] && ids[k] < snapshot
                && about.contains(ids[k]) && shown(ids[k]),
{
    let part = list.take(i);
    assert forall|k: int| 0 <= k < ids.len() implies cursor <= #[trigger] ids[k] && ids[k]
        < snapshot && about.contains(ids[k]) && shown(ids[k]) by {
        let x = ids[k];
        assert(ids.contains(x));
        assert(part.contains(x));
        let j = part.index_of(x);
        assert(list[j] == x);
        assert(list.contains(x));
    }
}

/// A scan that filled the page and met one more listed id is a full page.
proof fn lemma_page_full(
    ids: Seq<u64>,
    list: Seq<u64>,
    i: int,
    about: Set<u64>,
    shown: spec_fn(u64) -> bool,
    snapshot: u64,
    cursor: u64,
    limit: nat,
)
    requires
        0 < i < list.len(),
        ascending::<FactId>(list),
        forall|x: u64| #[trigger] list.contains(x) <==> about.contains(x) && cursor <= x,
        forall|k: int| 0 <= k <= i ==> #[trigger] list[k] < snapshot,
        chosen(ids, list.take(i), shown),
        ids.len() == limit,
        limit > 0,
        ids.last() == list[i - 1],
    ensures
        is_page(ids, Some(list[i]), about, shown, snapshot, cursor, limit),
{
    let part = list.take(i);
    let stop = list[i];
    assert(list.contains(stop));
    lemma_ids_in_part(ids, list, i, about, shown, snapshot, cursor);
    assert forall|k: int| 0 <= k < ids.len() implies #[trigger] ids[k] < stop by {
        assert(ids.contains(ids[k]));
        assert(part.contains(ids[k]));
        let j = part.index_of(ids[k]);
        assert(list[j] < list[i]);
    }
    assert forall|x: u64| #[trigger] about.contains(x) && cursor <= x < stop implies {
        ||| shown(x) && ids.contains(x)
        ||| !shown(x) && (limit > 0 && x < ids.last())
    } by {
        assert(list.contains(x));
        let k = list.index_of(x);
        if k > i {
            assert(list[i] < list[k]);
        }
        assert(k < i);
        assert(part[k] == x);
        assert(part.contains(x));
        if !shown(x) {
            if k == i - 1 {
                assert(ids.contains(ids.last()));
                assert(shown(ids.last()));
            } else {
                assert(list[k] < list[i - 1]);
            }
        }
    }
}

/// The facts that mention a key, whatever the snapshot.
pub open spec fn mentioning(
    facts: Seq<MemStoredFact>,
    mentions: spec_fn(MemStoredFact) -> Seq<u64>,
    key: u64,
) -> Set<u64> {
    Set::new(|x: u64| x < facts.len() && mentions(facts[x as int]).contains(key))
}

impl<'a> ReadCore<'a> {
    /// What is listed under a key is what mentions it.
    proof fn lemma_listed<S: TotalOrder<V = u64>>(
        self,
        backlinks: Index<S>,
        pending_backlinks: Option<&Index<S>>,
        mentions: spec_fn(MemStoredFact) -> Seq<u64>,
        key: u64,
    )
        requires
            self.wf(),
            lists_mentions(backlinks, self.committed.facts@, 0, mentions),
            pending_backlinks is Some <==> self.pending is Some,
            pending_backlinks is Some ==> lists_mentions(
                *pending_backlinks->0,
                self.pending->0.facts@,
                self.committed.facts@.len(),
                mentions,
            ),
        ensures
            self.halves(backlinks, pending_backlinks, key),
            self.listed(backlinks, pending_backlinks, key) == mentioning(
                self.facts(),
                mentions,
                key,
            ),
    {
        let base = self.committed.facts@.len();
        let about = self.listed(backlinks, pending_backlinks, key);
        assert forall|x: u64| about.contains(x) <==> mentioning(
            self.facts(),
            mentions,
            key,
        ).contains(x) by {
            assert(backlinks.at(key).contains(x) <==> 0 <= x < 0 + base && mentions(
                self.committed.facts@[x - 0],
            ).contains(key));
            match pending_backlinks {
                Some(pending) => {
                    assert(pending.at(key).contains(x) <==> base <= x < base
                        + self.pending->0.facts@.len() && mentions(
                        self.pending->0.facts@[x - base],
                    ).contains(key));
                },
                None => {},
            }
        }
        assert(about =~= mentioning(self.facts(), mentions, key));
    }

    /// A page of the active facts that mention an entity. See
    /// [`facts_about`](Self::facts_about).
    pub fn all_facts_about_entity(&self, entity: MemoryEntityId, cursor: FactId, limit: usize) -> (r:
        MemPage<'a, MemoryEntityId>)
        requires
            self.wf(),
            limit > 0,
        ensures
            is_page(
                row_ids(r.items@),
                cursor_view(r.next_cursor),
                mentioning(self.facts(), |f: MemStoredFact| entity_keys(f), entity@),
                |x: u64| self.active(x),
                self.snapshot@,
                cursor@,
                limit as nat,
            ),
            forall|k: int|
                0 <= k < r.items@.len() ==> *(#[trigger] r.items@[k]).fact
                    == self.facts()[r.items@[k].fact_id@ as int] && r.items@[k].representative
                    == entity,
    {
        let pending = match self.pending {
            Some(pending) => Some(&pending.entity_backlinks),
            None => None,
        };
        proof {
            self.lemma_listed(
                self.committed.entity_backlinks,
                pending,
                |f: MemStoredFact| entity_keys(f),
                entity@,
            );
        }
        self.facts_about(&self.committed.entity_backlinks, pending, entity, cursor, limit)
    }

    /// A page of the active facts that mention an event. See
    /// [`facts_about`](Self::facts_about).
    pub fn all_facts_about_event(&self, event: MemoryEventId, cursor: FactId, limit: usize) -> (r:
        MemPage<'a, MemoryEventId>)
        requires
            self.wf(),
            limit > 0,
        ensures
            is_page(
                row_ids(r.items@),
                cursor_view(r.next_cursor),
                mentioning(self.facts(), |f: MemStoredFact| event_keys(f), event@),
                |x: u64| self.active(x),
                self.snapshot@,
                cursor@,
                limit as nat,
            ),
            forall|k: int|
                0 <= k < r.items@.len() ==> *(#[trigger] r.items@[k]).fact
                    == self.facts()[r.items@[k].fact_id@ as int] && r.items@[k].representative
                    == event,
    {
        let pending = match self.pending {
            Some(pending) => Some(&pending.event_backlinks),
            None => None,
        };
        proof {
            self.lemma_listed(
                self.committed.event_backlinks,
                pending,
                |f: MemStoredFact| event_keys(f),
                event@,
            );
        }
        self.facts_about(&self.committed.event_backlinks, pending, event, cursor, limit)
    }

    /// A page of the active facts that mention an image. See
    /// [`facts_about`](Self::facts_about).
    pub fn all_facts_about_image(&self, image: MemoryImageId, cursor: FactId, limit: usize) -> (r:
        MemPage<'a, MemoryImageId>)
        requires
            self.wf(),
            limit > 0,
        ensures
            is_page(
                row_ids(r.items@),
                cursor_view(r.next_cursor),
                mentioning(self.facts(), |f: MemStoredFact| image_keys(f), image@),
                |x: u64| self.active(x),
                self.snapshot@,
                cursor@,
                limit as nat,
            ),
            forall|k: int|
                0 <= k < r.items@.len() ==> *(#[trigger] r.items@[k]).fact
                    == self.facts()[r.items@[k].fact_id@ as int] && r.items@[k].representative
                    == image,
    {
        let pending = match self.pending {
            Some(pending) => Some(&pending.image_backlinks),
            None => None,
        };
        proof {
            self.lemma_listed(
                self.committed.image_backlinks,
                pending,
                |f: MemStoredFact| image_keys(f),
                image@,
            );
        }
        self.facts_about(&self.committed.image_backlinks, pending, image, cursor, limit)
    }
}

impl<'g> UnionSource<'g> {
    /// The view of all facts, committed and pending.
    pub fn lend_core<'a>(&'a self) -> (r: ReadCore<'a>)
        requires
            self.wf(),
        ensures
            r.wf(),
            *r.committed == *self.committed,
            r.pending == Some(&self.pending),
            r.snapshot@ == self.total(),
            r.seen() == self.total(),
    {
        ReadCore {
            committed: self.committed,
            pending: Some(&self.pending),
            snapshot: self.snapshot(),
        }
    }
}

// --- Walks over pages ---

/// `ids` are all shown ids of `about` from `cursor` on and below the snapshot,
/// ascending.
pub open spec fn covers(
    ids: Seq<u64>,
    about: Set<u64>,
    shown: spec_fn(u64) -> bool,
    snapshot: u64,
    cursor: u64,
) -> bool {
    &&& ascending::<FactId>(ids)
    &&& forall|x: u64| #[trigger]
        ids.contains(x) <==> about.contains(x) && shown(x) && cursor <= x < snapshot
}

/// Pages of which each starts where the one before says, and the last says that
/// there is no more.
pub open spec fn whole_walk(
    pages: Seq<(Seq<u64>, Option<u64>)>,
    about: Set<u64>,
    shown: spec_fn(u64) -> bool,
    snapshot: u64,
    cursor: u64,
    limit: nat,
) -> bool
    decreases pages.len(),
{
    &&& pages.len() > 0
    &&& is_page(pages[0].0, pages[0].1, about, shown, snapshot, cursor, limit)
    &&& match pages[0].1 {
        Some(stop) => whole_walk(pages.skip(1), about, shown, snapshot, stop, limit),
        None => pages.len() == 1,
    }
}

/// The ids of pages, one after the other.
pub open spec fn joined(pages: Seq<(Seq<u64>, Option<u64>)>) -> Seq<u64>
    decreases pages.len(),
{
    if pages.len() == 0 {
        Seq::empty()
    } else {
        pages[0].0 + joined(pages.skip(1))
    }
}

/// Walking the pages of whatever size to the end gives exactly the shown ids from
/// the cursor on, in ascending order and none twice.
pub proof fn law_pages_cover(
    pages: Seq<(Seq<u64>, Option<u64>)>,
    about: Set<u64>,
    shown: spec_fn(u64) -> bool,
    snapshot: u64,
    cursor: u64,
    limit: nat,
)
    requires
        limit > 0,
        whole_walk(pages, about, shown, snapshot, cursor, limit),
    ensures
        covers(joined(pages), about, shown, snapshot, cursor),
    decreases pages.len(),
{
    let first = pages[0].0;
    match pages[0].1 {
        None => {
            assert(joined(pages.skip(1)) =~= Seq::<u64>::empty());
            assert(joined(pages) =~= first);
            assert forall|x: u64| #[trigger] first.contains(x) implies about.contains(x) && shown(x)
                && cursor <= x < snapshot by {
                let k = first.index_of(x);
                assert(first[k] == x);
            }
        },
        Some(stop) => {
            law_pages_cover(pages.skip(1), about, shown, snapshot, stop, limit);
            let rest = joined(pages.skip(1));
            let all = first + rest;
            assert(joined(pages) == all);
            assert forall|a: int, b: int| 0 <= a < b < all.len() implies (#[trigger] all[a]) < (
            #[trigger] all[b]) by {
                if b < first.len() {
                    assert(first[a] < first[b]);
                } else {
                    let y = rest[b - first.len()];
                    assert(all[b] == y);
                    assert(rest.contains(y));
                    if a < first.len() {
                        assert(first[a] < stop);
                        assert(stop <= y);
                    } else {
                        assert(rest[a - first.len()] < y);
                    }
                }
            }
            assert forall|x: u64| #[trigger] all.contains(x) <==> about.contains(x) && shown(x)
                && cursor <= x < snapshot by {
                if first.contains(x) {
                    let k = first.index_of(x);
                    assert(first[k] == x);
                    assert(all[k] == x);
                }
                if rest.contains(x) {
                    let k = rest.index_of(x);
                    assert(all[first.len() + k] == x);
                }
                if all.contains(x) {
                    let k = all.index_of(x);
                    if k < first.len() {
                        assert(first[k] == x);
                        assert(first.contains(x));
                    } else {
                        assert(rest[k - first.len()] == x);
                        assert(rest.contains(x));
                    }
                }
            }
        },
    }
}

/// The facts about a subject are those that mention it, in any of the places where a
/// fact can.
pub proof fn law_facts_about_are_those_that_mention(facts: Seq<MemStoredFact>, key: u64, x: u64)
    ensures
        mentioning(facts, |f: MemStoredFact| entity_keys(f), key).contains(x) <==> x < facts.len()
            && exists|j: int|
            0 <= j < facts[x as int].entities().len() && (
            #[trigger] facts[x as int].entities()[j])@ == key,
        mentioning(facts, |f: MemStoredFact| event_keys(f), key).contains(x) <==> x < facts.len()
            && exists|j: int|
            0 <= j < facts[x as int].events().len() && (#[trigger] facts[x as int].events()[j])@
                == key,
        mentioning(facts, |f: MemStoredFact| image_keys(f), key).contains(x) <==> x < facts.len()
            && exists|j: int|
            0 <= j < facts[x as int].images().len() && (#[trigger] facts[x as int].images()[j])@
                == key,
{
    if x < facts.len() {
        let fact = facts[x as int];
        assert(entity_keys(fact).contains(key) <==> exists|j: int|
            0 <= j < fact.entities().len() && (#[trigger] fact.entities()[j])@ == key) by {
            lemma_key_of(fact.entities(), key);
        }
        assert(event_keys(fact).contains(key) <==> exists|j: int|
            0 <= j < fact.events().len() && (#[trigger] fact.events()[j])@ == key) by {
            lemma_key_of(fact.events(), key);
        }
        assert(image_keys(fact).contains(key) <==> exists|j: int|
            0 <= j < fact.images().len() && (#[trigger] fact.images()[j])@ == key) by {
            lemma_key_of(fact.images(), key);
        }
    }
}

/// A key is among those of a list exactly where a member has it.
proof fn lemma_key_of<X: View<V = u64>>(list: Seq<X>, key: u64)
    ensures
        keys(list).contains(key) <==> exists|j: int|
            0 <= j < list.len() && (#[trigger] list[j])@ == key,
{
    if keys(list).contains(key) {
        let j = keys(list).index_of(key);
        assert(list[j]@ == key);
    }
    if exists|j: int| 0 <= j < list.len() && (#[trigger] list[j])@ == key {
        let j = choose|j: int| 0 <= j < list.len() && (#[trigger] list[j])@ == key;
        assert(keys(list)[j] == key);
    }
}

/// What a view sees of a fact depends on what stands below its snapshot alone.
pub proof fn law_view_ends_at_its_snapshot(view: ReadCore<'_>, id: u64)
    ensures
        view.active(id) ==> id < view.snapshot@ && id < view.facts().len() && id < view.seen(),
        view.seen() <= view.snapshot@,
        view.seen() <= view.facts().len(),
        view.seen() == view.snapshot@ || view.seen() == view.facts().len(),
        view.pending is None ==> view.facts() == view.committed.facts@,
        (view.pending matches Some(pending) ==> view.facts() == view.committed.facts@
            + pending.facts@),
{
}

/// A page is full or the last: it shows the first ones from its cursor on, as many as
/// fit, and names where the next one starts only where it is full and something below
/// the snapshot is left.
pub proof fn law_page_is_full_or_the_last(
    ids: Seq<u64>,
    next: Option<u64>,
    about: Set<u64>,
    shown: spec_fn(u64) -> bool,
    snapshot: u64,
    cursor: u64,
    limit: nat,
    x: u64,
)
    requires
        is_page(ids, next, about, shown, snapshot, cursor, limit),
    ensures
        ids.len() <= limit,
        ids.contains(x) ==> cursor <= x < snapshot && about.contains(x) && shown(x),
        (next matches Some(stop) ==> ids.len() == limit && cursor <= stop < snapshot
            && about.contains(stop) && !ids.contains(stop) && (about.contains(x) && shown(x)
            && cursor <= x < stop ==> ids.contains(x))),
        next is None && about.contains(x) && shown(x) && cursor <= x < snapshot ==> ids.contains(x),
        forall|i: int, j: int|
            0 <= i < j < ids.len() ==> #[trigger] ids[i] < #[trigger] ids[j],
{
    assert forall|i: int, j: int| 0 <= i < j < ids.len() implies #[trigger] ids[i]
        < #[trigger] ids[j] by {
        assert(FactId::precedes(ids[i], ids[j]));
    }
}

} // verus!
