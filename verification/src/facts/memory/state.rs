//! The state of the in-memory store, and the delta a commit adds to it.
use vstd::prelude::*;

use super::ids::{
    MemStoredFact, MemSubmitResult, MemoryEntityId, MemoryEventId, MemoryImageId,
};
use super::index::{merge_index, Index};
use crate::algebra::ordered::{keys, TotalOrder};
use crate::facts::assertions::MetaAssertion;
use crate::facts::ids::{CommitId, FactId};
use crate::facts::submit::{StoredCommit, StoredFact};

verus! {

/// What the store holds.
#[derive(Debug)]
pub struct Inner {
    /// The facts; the one at position `i` has the id `i`.
    pub facts: Vec<MemStoredFact>,
    /// Which commit each fact belongs to.
    pub fact_commits: Vec<CommitId>,
    /// The commits that landed.
    pub commits: Vec<StoredCommit>,
    /// For each fact, the facts that retract it.
    pub retractors: Index<FactId>,
    /// For each entity, the facts that mention it.
    pub entity_backlinks: Index<MemoryEntityId>,
    /// For each event, the facts that mention it.
    pub event_backlinks: Index<MemoryEventId>,
    /// For each image, the facts that mention it.
    pub image_backlinks: Index<MemoryImageId>,
    /// What each commit was answered when it landed.
    pub submit_results: Vec<MemSubmitResult>,
    /// The next entity id to mint; the ids below it are known.
    pub next_entity_id: u64,
    /// The next event id to mint; the ids below it are known.
    pub next_event_id: u64,
    /// The next image id to mint; the ids below it are known.
    pub next_image_id: u64,
}

/// What a commit that is being prepared would add.
#[derive(Debug)]
pub struct Pending {
    /// Its facts; the one at position `i` will have the id `i` past the facts of
    /// the store.
    pub facts: Vec<MemStoredFact>,
    /// The next entity id to mint.
    pub next_entity_id: u64,
    /// The next event id to mint.
    pub next_event_id: u64,
    /// The next image id to mint.
    pub next_image_id: u64,
    /// For each entity, the facts that mention it.
    pub entity_backlinks: Index<MemoryEntityId>,
    /// For each event, the facts that mention it.
    pub event_backlinks: Index<MemoryEventId>,
    /// For each image, the facts that mention it.
    pub image_backlinks: Index<MemoryImageId>,
    /// For each fact, the facts that retract it.
    pub retractors: Index<FactId>,
}

// --- What facts say ---

/// The entities a fact mentions, as numbers.
pub open spec fn entity_keys(fact: MemStoredFact) -> Seq<u64> {
    keys(fact.entities())
}

/// The events a fact mentions, as numbers.
pub open spec fn event_keys(fact: MemStoredFact) -> Seq<u64> {
    keys(fact.events())
}

/// The images a fact mentions, as numbers.
pub open spec fn image_keys(fact: MemStoredFact) -> Seq<u64> {
    keys(fact.images())
}

/// Whether `index` lists, under each key, the facts that mention it; the first
/// of the facts has the id `base`.
pub open spec fn lists_mentions<K: TotalOrder<V = u64>>(
    index: Index<K>,
    facts: Seq<MemStoredFact>,
    base: nat,
    mentions: spec_fn(MemStoredFact) -> Seq<u64>,
) -> bool {
    forall|key: u64, id: u64| #[trigger]
        index.at(key).contains(id) <==> base <= id < base + facts.len() && mentions(
            facts[id - base],
        ).contains(key)
}

/// Whether a fact of a commit that is being prepared retracts the fact `t`; the
/// facts of the store belong to `fact_commits`.
pub open spec fn takes_back(
    fact: MemStoredFact,
    fact_commits: Seq<CommitId>,
    t: u64,
) -> bool {
    match fact {
        StoredFact::Meta(meta) => names_target(meta.assertion, fact_commits, t),
        _ => false,
    }
}

/// Whether the fact `r` of the store retracts the fact `t`. The retraction of a
/// commit takes back the facts that the commit had before, and none of its own
/// commit.
pub open spec fn has_taken_back(
    fact: MemStoredFact,
    fact_commits: Seq<CommitId>,
    r: u64,
    t: u64,
) -> bool {
    match fact {
        StoredFact::Meta(meta) => match meta.assertion {
            MetaAssertion::RetractFact { target, .. } => target@ == t,
            MetaAssertion::SupersedeFact { target, .. } => target@ == t,
            MetaAssertion::RetractCommit { target, .. } => t < r && fact_commits[t as int]@
                == target@ && fact_commits[r as int]@ != target@,
        },
        _ => false,
    }
}

/// Whether a commit with this id is recorded.
pub open spec fn recorded(commits: Seq<StoredCommit>, id: Seq<char>) -> bool {
    exists|k: int| 0 <= k < commits.len() && (#[trigger] commits[k]).commit_id@ == id
}

/// Whether a commit with this id was answered.
pub open spec fn answered(results: Seq<MemSubmitResult>, id: Seq<char>) -> bool {
    exists|k: int| 0 <= k < results.len() && (#[trigger] results[k]).commit_id@ == id
}

/// The facts of a commit.
pub open spec fn facts_of_commit(fact_commits: Seq<CommitId>, id: Seq<char>) -> Set<u64> {
    Set::new(|i: u64| i < fact_commits.len() && fact_commits[i as int]@ == id)
}

impl Inner {
    /// The commits are recorded once each, with the ids of their facts, and have
    /// one answer each.
    pub open spec fn commits_kept(self) -> bool {
        &&& forall|a: int, b: int|
            0 <= a < b < self.commits@.len() ==> (#[trigger] self.commits@[a]).commit_id@ != (
            #[trigger] self.commits@[b]).commit_id@
        &&& forall|k: int|
            #![trigger self.commits@[k]]
            0 <= k < self.commits@.len() ==> keys(self.commits@[k].fact_ids@).to_set()
                == facts_of_commit(self.fact_commits@, self.commits@[k].commit_id@)
        &&& forall|i: int|
            0 <= i < self.fact_commits@.len() ==> recorded(
                self.commits@,
                (#[trigger] self.fact_commits@[i])@,
            )
        &&& forall|id: Seq<char>| #[trigger]
            recorded(self.commits@, id) <==> answered(self.submit_results@, id)
        &&& forall|a: int, b: int|
            0 <= a < b < self.submit_results@.len() ==> (
            #[trigger] self.submit_results@[a]).commit_id@ != (
            #[trigger] self.submit_results@[b]).commit_id@
        &&& forall|k: int|
            0 <= k < self.submit_results@.len() ==> !(
            #[trigger] self.submit_results@[k]).previously_committed
    }

    /// The indexes say what the facts say.
    pub open spec fn indexed(self) -> bool {
        &&& lists_mentions(
            self.entity_backlinks,
            self.facts@,
            0,
            |f: MemStoredFact| entity_keys(f),
        )
        &&& lists_mentions(self.event_backlinks, self.facts@, 0, |f: MemStoredFact| event_keys(f))
        &&& lists_mentions(self.image_backlinks, self.facts@, 0, |f: MemStoredFact| image_keys(f))
        &&& forall|t: u64, r: u64| #[trigger]
            self.retractors.at(t).contains(r) <==> r < self.facts@.len() && has_taken_back(
                self.facts@[r as int],
                self.fact_commits@,
                r,
                t,
            )
    }

    /// The state is consistent.
    pub open spec fn wf(self) -> bool {
        &&& self.facts@.len() == self.fact_commits@.len()
        &&& self.facts@.len() <= u64::MAX
        &&& self.commits_kept()
        &&& self.indexed()
    }

    /// The state of a store that holds nothing.
    pub fn new() -> (r: Self)
        ensures
            r.wf(),
            r.facts@.len() == 0,
            r.commits@.len() == 0,
            r.submit_results@.len() == 0,
            r.next_entity_id == 0,
            r.next_event_id == 0,
            r.next_image_id == 0,
    {
        let r = Inner {
            facts: Vec::new(),
            fact_commits: Vec::new(),
            commits: Vec::new(),
            retractors: Index::new(),
            entity_backlinks: Index::new(),
            event_backlinks: Index::new(),
            image_backlinks: Index::new(),
            submit_results: Vec::new(),
            next_entity_id: 0,
            next_event_id: 0,
            next_image_id: 0,
        };
        r
    }

    /// The next [`FactId`] this store would mint: one past the highest stored
    /// fact, or zero on an empty store.
    pub fn next_fact_id(&self) -> (r: FactId)
        requires
            self.facts@.len() <= u64::MAX,
        ensures
            r@ == self.facts@.len(),
    {
        FactId::new(self.facts.len() as u64)
    }

    /// The commit with this id, where it is recorded.
    pub fn find_commit(&self, id: &CommitId) -> (r: Option<&StoredCommit>)
        ensures
            r is Some <==> recorded(self.commits@, id@),
            r is Some ==> self.commits@.contains(*r->0) && r->0.commit_id@ == id@,
    {
        let mut i: usize = 0;
        while i < self.commits.len()
            invariant
                i <= self.commits@.len(),
                forall|k: int| 0 <= k < i ==> (#[trigger] self.commits@[k]).commit_id@ != id@,
            decreases self.commits.len() - i,
        {
            if self.commits[i].commit_id.same(id) {
                assert(self.commits@[i as int].commit_id@ == id@);
                return Some(&self.commits[i]);
            }
            i += 1;
        }
        None
    }

    /// What the commit with this id was answered, where it landed.
    pub fn find_result(&self, id: &CommitId) -> (r: Option<&MemSubmitResult>)
        ensures
            r is Some <==> answered(self.submit_results@, id@),
            r is Some ==> self.submit_results@.contains(*r->0) && r->0.commit_id@ == id@,
    {
        let mut i: usize = 0;
        while i < self.submit_results.len()
            invariant
                i <= self.submit_results@.len(),
                forall|k: int|
                    0 <= k < i ==> (#[trigger] self.submit_results@[k]).commit_id@ != id@,
            decreases self.submit_results.len() - i,
        {
            if self.submit_results[i].commit_id.same(id) {
                assert(self.submit_results@[i as int].commit_id@ == id@);
                return Some(&self.submit_results[i]);
            }
            i += 1;
        }
        None
    }
}

// --- Recording edges ---

/// Record the backlinks of a fact with the id `id`: under every entity, event
/// and image that it mentions.
pub fn record_backlink_edges(
    fact: &MemStoredFact,
    id: FactId,
    entity_backlinks: &mut Index<MemoryEntityId>,
    event_backlinks: &mut Index<MemoryEventId>,
    image_backlinks: &mut Index<MemoryImageId>,
)
    ensures
        forall|key: u64| #[trigger]
            final(entity_backlinks).at(key) == (if entity_keys(*fact).contains(key) {
                old(entity_backlinks).at(key).insert(id@)
            } else {
                old(entity_backlinks).at(key)
            }),
        forall|key: u64| #[trigger]
            final(event_backlinks).at(key) == (if event_keys(*fact).contains(key) {
                old(event_backlinks).at(key).insert(id@)
            } else {
                old(event_backlinks).at(key)
            }),
        forall|key: u64| #[trigger]
            final(image_backlinks).at(key) == (if image_keys(*fact).contains(key) {
                old(image_backlinks).at(key).insert(id@)
            } else {
                old(image_backlinks).at(key)
            }),
{
    let mut entities: Vec<MemoryEntityId> = Vec::new();
    let mut events: Vec<MemoryEventId> = Vec::new();
    let mut images: Vec<MemoryImageId> = Vec::new();
    fact.for_each_id(&mut entities, &mut events, &mut images);
    assert(entities@ =~= fact.entities());
    assert(events@ =~= fact.events());
    assert(images@ =~= fact.images());
    add_under_all(&entities, id, entity_backlinks);
    add_under_all(&events, id, event_backlinks);
    add_under_all(&images, id, image_backlinks);
}

/// Put an id under each of these keys.
fn add_under_all<K: TotalOrder<V = u64> + Copy>(subjects: &Vec<K>, id: FactId, index: &mut Index<K>)
    ensures
        forall|key: u64| #[trigger]
            final(index).at(key) == (if keys(subjects@).contains(key) {
                old(index).at(key).insert(id@)
            } else {
                old(index).at(key)
            }),
{
    let ghost start = *index;
    let ghost all = keys(subjects@);
    let mut i: usize = 0;
    while i < subjects.len()
        invariant
            i <= subjects@.len(),
            all == keys(subjects@),
            forall|key: u64| #[trigger]
                index.at(key) == (if all.take(i as int).contains(key) {
                    start.at(key).insert(id@)
                } else {
                    start.at(key)
                }),
        decreases subjects.len() - i,
    {
        let ghost before = *index;
        index.add(subjects[i], id);
        proof {
            let part = all.take(i as int);
            let more = all.take(i + 1);
            assert forall|key: u64| #[trigger] index.at(key) == (if more.contains(key) {
                start.at(key).insert(id@)
            } else {
                start.at(key)
            }) by {
                assert(before.at(key) == (if part.contains(key) {
                    start.at(key).insert(id@)
                } else {
                    start.at(key)
                }));
                crate::algebra::ordered::lemma_take_to_set(all, i as int);
                assert(more.to_set().contains(key) <==> part.to_set().insert(
                    all[i as int],
                ).contains(key));
                if key == all[i as int] {
                    assert(index.at(key) =~= start.at(key).insert(id@));
                }
            }
        }
        i += 1;
    }
    assert(all.take(i as int) =~= all);
}

/// Record what a meta fact with the id `retractor_id` retracts: the fact it
/// names, or every fact of the commit it names. A commit that is not recorded
/// has none.
pub fn record_retractor_edges(
    inner: &Inner,
    retractors: &mut Index<FactId>,
    assertion: &MetaAssertion,
    retractor_id: FactId,
)
    requires
        inner.commits_kept(),
        inner.fact_commits@.len() <= u64::MAX,
    ensures
        forall|t: u64| #[trigger]
            final(retractors).at(t) == (if names_target(*assertion, inner.fact_commits@, t) {
                old(retractors).at(t).insert(retractor_id@)
            } else {
                old(retractors).at(t)
            }),
        // Whatever the reason, the target is what the assertion names.
        (*assertion matches MetaAssertion::RetractFact { target, .. } ==> final(retractors).at(
            target@,
        ).contains(retractor_id@)),
        (*assertion matches MetaAssertion::SupersedeFact { target, .. } ==> final(retractors).at(
            target@,
        ).contains(retractor_id@)),
        (*assertion matches MetaAssertion::RetractCommit { target, .. } ==> forall|t: u64|
            t < inner.fact_commits@.len() && inner.fact_commits@[t as int]@ == target@
                ==> #[trigger] final(retractors).at(t).contains(retractor_id@)),
{
    match assertion {
        MetaAssertion::RetractFact { target, .. } => {
            retractors.add(*target, retractor_id);
        },
        MetaAssertion::SupersedeFact { target, .. } => {
            retractors.add(*target, retractor_id);
        },
        MetaAssertion::RetractCommit { target, .. } => {
            match inner.find_commit(target) {
                Some(commit) => {
                    proof {
                        let k = inner.commits@.index_of(*commit);
                        assert(inner.commits@[k] == *commit);
                        let ids = keys(commit.fact_ids@);
                        assert forall|t: u64| ids.contains(t) <==> names_target(
                            *assertion,
                            inner.fact_commits@,
                            t,
                        ) by {
                            assert(ids.to_set().contains(t) <==> facts_of_commit(
                                inner.fact_commits@,
                                target@,
                            ).contains(t));
                        }
                    }
                    add_under_all(&commit.fact_ids, retractor_id, retractors);
                },
                None => {
                    proof {
                        assert forall|t: u64| !names_target(
                            *assertion,
                            inner.fact_commits@,
                            t,
                        ) by {
                            if t < inner.fact_commits@.len() {
                                assert(recorded(
                                    inner.commits@,
                                    inner.fact_commits@[t as int]@,
                                ));
                            }
                        }
                    }
                },
            }
        },
    }
}

/// Whether a meta fact names the fact `t`, by its id or by its commit.
pub open spec fn names_target(
    assertion: MetaAssertion,
    fact_commits: Seq<CommitId>,
    t: u64,
) -> bool {
    match assertion {
        MetaAssertion::RetractFact { target, .. } => target@ == t,
        MetaAssertion::SupersedeFact { target, .. } => target@ == t,
        MetaAssertion::RetractCommit { target, .. } => t < fact_commits.len()
            && fact_commits[t as int]@ == target@,
    }
}

// --- The delta of a commit ---

impl Pending {
    /// The delta is consistent with the state it would be added to.
    pub open spec fn wf(self, inner: Inner) -> bool {
        let base = inner.facts@.len();
        &&& base + self.facts@.len() <= u64::MAX
        &&& lists_mentions(
            self.entity_backlinks,
            self.facts@,
            base,
            |f: MemStoredFact| entity_keys(f),
        )
        &&& lists_mentions(self.event_backlinks, self.facts@, base, |f: MemStoredFact| event_keys(f))
        &&& lists_mentions(self.image_backlinks, self.facts@, base, |f: MemStoredFact| image_keys(f))
        &&& forall|t: u64, r: u64| #[trigger]
            self.retractors.at(t).contains(r) <==> base <= r < base + self.facts@.len()
                && takes_back(self.facts@[r - base], inner.fact_commits@, t)
    }
}

/// The store together with the delta of a commit that is being prepared.
#[derive(Debug)]
pub struct UnionSource<'g> {
    /// The state of the store.
    pub committed: &'g Inner,
    /// What the commit would add.
    pub pending: Pending,
}

/// The counter after one more id was minted; at the greatest number it stays.
pub open spec fn bumped(counter: u64) -> u64 {
    if counter < u64::MAX {
        (counter + 1) as u64
    } else {
        counter
    }
}

/// [`bumped`] of a counter.
fn bump(counter: u64) -> (r: u64)
    ensures
        r == bumped(counter),
{
    if counter < u64::MAX {
        counter + 1
    } else {
        counter
    }
}

impl<'g> UnionSource<'g> {
    /// The store and the delta are consistent.
    pub open spec fn wf(self) -> bool {
        self.committed.wf() && self.pending.wf(*self.committed)
    }

    /// How many facts there are, committed and pending.
    pub open spec fn total(self) -> nat {
        self.committed.facts@.len() + self.pending.facts@.len()
    }

    /// The store with a delta that adds nothing, and with its counters.
    pub fn from_inner(inner: &'g Inner) -> (r: Self)
        requires
            inner.wf(),
        ensures
            r.wf(),
            *r.committed == *inner,
            r.pending.facts@.len() == 0,
            r.pending.next_entity_id == inner.next_entity_id,
            r.pending.next_event_id == inner.next_event_id,
            r.pending.next_image_id == inner.next_image_id,
    {
        UnionSource {
            committed: inner,
            pending: Pending {
                facts: Vec::new(),
                next_entity_id: inner.next_entity_id,
                next_event_id: inner.next_event_id,
                next_image_id: inner.next_image_id,
                entity_backlinks: Index::new(),
                event_backlinks: Index::new(),
                image_backlinks: Index::new(),
                retractors: Index::new(),
            },
        }
    }

    /// Whether an entity is known: minted by the store or in this delta.
    pub fn entity_known(&self, id: &MemoryEntityId) -> (r: bool)
        ensures
            r == (id@ < self.pending.next_entity_id),
    {
        id.0 < self.pending.next_entity_id
    }

    /// Whether an event is known: minted by the store or in this delta.
    pub fn event_known(&self, id: &MemoryEventId) -> (r: bool)
        ensures
            r == (id@ < self.pending.next_event_id),
    {
        id.0 < self.pending.next_event_id
    }

    /// Whether an image is known: minted by the store or in this delta.
    pub fn image_known(&self, id: &MemoryImageId) -> (r: bool)
        ensures
            r == (id@ < self.pending.next_image_id),
    {
        id.0 < self.pending.next_image_id
    }

    /// Mint an entity id.
    pub fn mint_entity(&mut self) -> (r: MemoryEntityId)
        ensures
            r@ == old(self).pending.next_entity_id,
            *final(self) == (UnionSource {
                committed: old(self).committed,
                pending: Pending {
                    next_entity_id: bumped(old(self).pending.next_entity_id),
                    ..old(self).pending
                },
            }),
    {
        let id = MemoryEntityId(self.pending.next_entity_id);
        self.pending.next_entity_id = bump(self.pending.next_entity_id);
        id
    }

    /// Mint an event id.
    pub fn mint_event(&mut self) -> (r: MemoryEventId)
        ensures
            r@ == old(self).pending.next_event_id,
            *final(self) == (UnionSource {
                committed: old(self).committed,
                pending: Pending {
                    next_event_id: bumped(old(self).pending.next_event_id),
                    ..old(self).pending
                },
            }),
    {
        let id = MemoryEventId(self.pending.next_event_id);
        self.pending.next_event_id = bump(self.pending.next_event_id);
        id
    }

    /// Mint an image id.
    pub fn mint_image(&mut self) -> (r: MemoryImageId)
        ensures
            r@ == old(self).pending.next_image_id,
            *final(self) == (UnionSource {
                committed: old(self).committed,
                pending: Pending {
                    next_image_id: bumped(old(self).pending.next_image_id),
                    ..old(self).pending
                },
            }),
    {
        let id = MemoryImageId(self.pending.next_image_id);
        self.pending.next_image_id = bump(self.pending.next_image_id);
        id
    }

    /// The next id to be given to a fact: every fact there is, committed or
    /// pending, lies below it.
    pub fn snapshot(&self) -> (r: FactId)
        requires
            self.total() <= u64::MAX,
        ensures
            r@ == self.total(),
    {
        FactId::new(self.committed.facts.len() as u64 + self.pending.facts.len() as u64)
    }

    /// Stage a fact: it takes the next id, and what it mentions and retracts is
    /// recorded in the delta.
    pub fn push_fact(&mut self, fact: MemStoredFact)
        requires
            old(self).wf(),
            old(self).total() < u64::MAX,
        ensures
            final(self).wf(),
            final(self).committed == old(self).committed,
            final(self).pending.facts@ == old(self).pending.facts@.push(fact),
            final(self).pending.next_entity_id == old(self).pending.next_entity_id,
            final(self).pending.next_event_id == old(self).pending.next_event_id,
            final(self).pending.next_image_id == old(self).pending.next_image_id,
    {
        let ghost before = *self;
        let provisional_id = self.snapshot();
        record_backlink_edges(
            &fact,
            provisional_id,
            &mut self.pending.entity_backlinks,
            &mut self.pending.event_backlinks,
            &mut self.pending.image_backlinks,
        );
        match &fact {
            StoredFact::Meta(meta) => {
                record_retractor_edges(
                    self.committed,
                    &mut self.pending.retractors,
                    &meta.assertion,
                    provisional_id,
                );
            },
            _ => {},
        }
        self.pending.facts.push(fact);
        proof {
            let base = before.committed.facts@.len();
            let old_facts = before.pending.facts@;
            let new_facts = self.pending.facts@;
            let id = provisional_id@;
            assert(new_facts == old_facts.push(fact));
            lemma_one_more_mention(
                before.pending.entity_backlinks,
                self.pending.entity_backlinks,
                old_facts,
                fact,
                base,
                |f: MemStoredFact| entity_keys(f),
            );
            lemma_one_more_mention(
                before.pending.event_backlinks,
                self.pending.event_backlinks,
                old_facts,
                fact,
                base,
                |f: MemStoredFact| event_keys(f),
            );
            lemma_one_more_mention(
                before.pending.image_backlinks,
                self.pending.image_backlinks,
                old_facts,
                fact,
                base,
                |f: MemStoredFact| image_keys(f),
            );
            let commits = before.committed.fact_commits@;
            assert forall|t: u64, r: u64| #[trigger]
                self.pending.retractors.at(t).contains(r) <==> base <= r < base
                    + new_facts.len() && takes_back(new_facts[r - base], commits, t) by {
                assert(before.pending.retractors.at(t).contains(r) <==> base <= r < base
                    + old_facts.len() && takes_back(old_facts[r - base], commits, t));
                if base <= r < base + old_facts.len() {
                    assert(new_facts[r - base] == old_facts[r - base]);
                }
            }
        }
    }

    /// The delta, and the store let go.
    pub fn into_pending(self) -> (r: Pending)
        ensures
            r == self.pending,
    {
        self.pending
    }
}

/// The index after one more fact was recorded lists one more fact.
proof fn lemma_one_more_mention<K: TotalOrder<V = u64>>(
    before: Index<K>,
    after: Index<K>,
    facts: Seq<MemStoredFact>,
    fact: MemStoredFact,
    base: nat,
    mentions: spec_fn(MemStoredFact) -> Seq<u64>,
)
    requires
        base + facts.len() < u64::MAX,
        lists_mentions(before, facts, base, mentions),
        forall|key: u64| #[trigger]
            after.at(key) == (if mentions(fact).contains(key) {
                before.at(key).insert((base + facts.len()) as u64)
            } else {
                before.at(key)
            }),
    ensures
        lists_mentions(after, facts.push(fact), base, mentions),
{
    let more = facts.push(fact);
    assert forall|key: u64, id: u64| #[trigger]
        after.at(key).contains(id) <==> base <= id < base + more.len() && mentions(
            more[id - base],
        ).contains(key) by {
        assert(before.at(key).contains(id) <==> base <= id < base + facts.len() && mentions(
            facts[id - base],
        ).contains(key));
        if base <= id < base + facts.len() {
            assert(more[id - base] == facts[id - base]);
        }
    }
}

/// Two indexes over facts one after the other, merged, list all of them.
proof fn lemma_merged_mentions<K: TotalOrder<V = u64>>(
    a: Index<K>,
    b: Index<K>,
    merged: Index<K>,
    first: Seq<MemStoredFact>,
    second: Seq<MemStoredFact>,
    mentions: spec_fn(MemStoredFact) -> Seq<u64>,
)
    requires
        lists_mentions(a, first, 0, mentions),
        lists_mentions(b, second, first.len(), mentions),
        forall|k: u64| #[trigger] merged.at(k) == a.at(k).union(b.at(k)),
    ensures
        lists_mentions(merged, first + second, 0, mentions),
{
    let all = first + second;
    assert forall|key: u64, id: u64| #[trigger]
        merged.at(key).contains(id) <==> 0 <= id < 0 + all.len() && mentions(
            all[id - 0],
        ).contains(key) by {
        assert(a.at(key).contains(id) <==> 0 <= id < 0 + first.len() && mentions(
            first[id - 0],
        ).contains(key));
        assert(b.at(key).contains(id) <==> first.len() <= id < first.len() + second.len()
            && mentions(second[id - first.len()]).contains(key));
        if id < first.len() {
            assert(all[id as int] == first[id as int]);
        } else if id < all.len() {
            assert(all[id as int] == second[id - first.len()]);
        }
    }
}

/// `n` consecutive ids from `first` on.
pub open spec fn ids_from(first: nat, n: nat) -> Seq<u64> {
    Seq::new(n, |i: int| (first + i) as u64)
}

/// Add a delta to the state: each fact gets the next id, in order, and belongs
/// to the commit. The commit itself is not recorded yet.
pub fn apply_pending(inner: &mut Inner, pending: Pending, commit_id: &CommitId) -> (r: Vec<FactId>)
    requires
        old(inner).wf(),
        pending.wf(*old(inner)),
        !recorded(old(inner).commits@, commit_id@),
    ensures
        keys(r@) == ids_from(old(inner).facts@.len(), pending.facts@.len()),
        final(inner).facts@ == old(inner).facts@ + pending.facts@,
        final(inner).fact_commits@ == old(inner).fact_commits@ + Seq::new(
            pending.facts@.len(),
            |i: int| *commit_id,
        ),
        final(inner).indexed(),
        final(inner).commits == old(inner).commits,
        final(inner).submit_results == old(inner).submit_results,
        final(inner).next_entity_id == pending.next_entity_id,
        final(inner).next_event_id == pending.next_event_id,
        final(inner).next_image_id == pending.next_image_id,
{
    let ghost before = *inner;
    let ghost staged = pending.facts@;
    let mut assigned: Vec<FactId> = Vec::new();
    let Pending {
        facts,
        next_entity_id,
        next_event_id,
        next_image_id,
        entity_backlinks,
        event_backlinks,
        image_backlinks,
        retractors,
    } = pending;
    assert(inner.facts@ =~= before.facts@ + staged.take(0));
    assert(inner.fact_commits@ =~= before.fact_commits@ + Seq::new(0, |i: int| *commit_id));
    assert(keys(assigned@) =~= ids_from(before.facts@.len(), 0));
    for fact in iter: facts
        invariant
            iter.seq() == staged,
            before.facts@.len() + staged.len() <= u64::MAX,
            before.fact_commits@.len() == before.facts@.len(),
            inner.facts@ == before.facts@ + staged.take(iter.index() as int),
            inner.fact_commits@ == before.fact_commits@ + Seq::new(
                iter.index() as nat,
                |i: int| *commit_id,
            ),
            keys(assigned@) == ids_from(before.facts@.len(), iter.index() as nat),
            inner.commits == before.commits,
            inner.submit_results == before.submit_results,
            inner.entity_backlinks == before.entity_backlinks,
            inner.event_backlinks == before.event_backlinks,
            inner.image_backlinks == before.image_backlinks,
            inner.retractors == before.retractors,
    {
        let ghost prior = keys(assigned@);
        assert(inner.facts@.len() == before.facts@.len() + iter.index());
        let id = inner.next_fact_id();
        inner.facts.push(fact);
        inner.fact_commits.push(commit_id.clone());
        assigned.push(id);
        proof {
            let i = iter.index() as int;
            assert(inner.facts@ =~= before.facts@ + staged.take(i + 1));
            assert(inner.fact_commits@ =~= before.fact_commits@ + Seq::new(
                (i + 1) as nat,
                |i: int| *commit_id,
            ));
            assert(keys(assigned@) =~= prior.push(id@));
            assert(ids_from(before.facts@.len(), (i + 1) as nat) =~= ids_from(
                before.facts@.len(),
                i as nat,
            ).push((before.facts@.len() + i) as u64));
        }
    }
    assert(staged.take(staged.len() as int) =~= staged);
    merge_index(&mut inner.entity_backlinks, entity_backlinks);
    merge_index(&mut inner.event_backlinks, event_backlinks);
    merge_index(&mut inner.image_backlinks, image_backlinks);
    merge_index(&mut inner.retractors, retractors);
    inner.next_entity_id = next_entity_id;
    inner.next_event_id = next_event_id;
    inner.next_image_id = next_image_id;
    proof {
        lemma_merged_mentions(
            before.entity_backlinks,
            pending.entity_backlinks,
            inner.entity_backlinks,
            before.facts@,
            staged,
            |f: MemStoredFact| entity_keys(f),
        );
        lemma_merged_mentions(
            before.event_backlinks,
            pending.event_backlinks,
            inner.event_backlinks,
            before.facts@,
            staged,
            |f: MemStoredFact| event_keys(f),
        );
        lemma_merged_mentions(
            before.image_backlinks,
            pending.image_backlinks,
            inner.image_backlinks,
            before.facts@,
            staged,
            |f: MemStoredFact| image_keys(f),
        );
        lemma_merged_retractors(before, pending, *inner, *commit_id);
    }
    assigned
}

/// The retractors of the state and of the delta, merged, are those of all facts.
proof fn lemma_merged_retractors(before: Inner, pending: Pending, after: Inner, id: CommitId)
    requires
        before.wf(),
        pending.wf(before),
        !recorded(before.commits@, id@),
        after.facts@ == before.facts@ + pending.facts@,
        after.fact_commits@ == before.fact_commits@ + Seq::new(
            pending.facts@.len(),
            |i: int| id,
        ),
        forall|k: u64| #[trigger]
            after.retractors.at(k) == before.retractors.at(k).union(pending.retractors.at(k)),
    ensures
        forall|t: u64, r: u64| #[trigger]
            after.retractors.at(t).contains(r) <==> r < after.facts@.len() && has_taken_back(
                after.facts@[r as int],
                after.fact_commits@,
                r,
                t,
            ),
{
    let base = before.facts@.len();
    assert forall|t: u64, r: u64| #[trigger]
        after.retractors.at(t).contains(r) <==> r < after.facts@.len() && has_taken_back(
            after.facts@[r as int],
            after.fact_commits@,
            r,
            t,
        ) by {
        assert(before.retractors.at(t).contains(r) <==> r < base && has_taken_back(
            before.facts@[r as int],
            before.fact_commits@,
            r,
            t,
        ));
        assert(pending.retractors.at(t).contains(r) <==> base <= r < base
            + pending.facts@.len() && takes_back(
            pending.facts@[r - base],
            before.fact_commits@,
            t,
        ));
        if r < base {
            assert(after.facts@[r as int] == before.facts@[r as int]);
            assert(after.fact_commits@[r as int] == before.fact_commits@[r as int]);
            if t < r {
                assert(after.fact_commits@[t as int] == before.fact_commits@[t as int]);
            }
        } else if r < after.facts@.len() {
            assert(after.facts@[r as int] == pending.facts@[r - base]);
            assert(after.fact_commits@[r as int] == id);
            if t < base {
                assert(after.fact_commits@[t as int] == before.fact_commits@[t as int]);
                assert(recorded(before.commits@, before.fact_commits@[t as int]@));
            } else if t < r {
                assert(after.fact_commits@[t as int] == id);
            }
        }
    }
}

} // verus!
