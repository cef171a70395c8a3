//! Views of single subjects, and what a view at a snapshot promises.
use vstd::prelude::*;

use super::equiv::component;
use super::ids::{MemStoredFact, MemoryEntityId, MemoryEventId, MemoryImageId};
use super::read::ReadCore;
use super::retraction::{
    law_lowest_effective_retractor, law_retracting_the_retractor_restores, law_snapshot_is_stable,
    law_standing_retractor_takes_back, lemma_retraction, retracts,
};
use super::scan::{represents, SameArtifact, SameEntity};
use super::state::{has_taken_back, Inner};
use super::store::{landed, Delta};
use crate::algebra::ordered::OrderedSet;
use crate::facts::assertions::{MetaAssertion, RetractionReason};
use crate::facts::ids::{CommitId, FactId};
use crate::facts::schema::{EdgeSubgraph, EquivClass};
use crate::facts::submit::{Answer, StoredFact};

verus! {

impl<'a> ReadCore<'a> {
    /// The entities that stand for the same thing as an entity.
    pub fn entity_class(&self, member: MemoryEntityId) -> (r: EquivClass<MemoryEntityId>)
        requires
            self.wf(),
        ensures
            r.members@ == component(self.identity_edges::<SameEntity>(), member@),
            represents(self.identity_edges::<SameEntity>(), member@, r.representative),
    {
        self.equiv_class::<SameEntity>(member)
    }

    /// The entity that stands for the class of an entity: the lowest of it.
    pub fn entity_representative(&self, member: MemoryEntityId) -> (r: MemoryEntityId)
        requires
            self.wf(),
        ensures
            represents(self.identity_edges::<SameEntity>(), member@, r),
    {
        self.entity_class(member).representative
    }

    /// The images that show the same artifact as an image.
    pub fn image_class(&self, member: MemoryImageId) -> (r: EquivClass<MemoryImageId>)
        requires
            self.wf(),
        ensures
            r.members@ == component(self.identity_edges::<SameArtifact>(), member@),
            represents(self.identity_edges::<SameArtifact>(), member@, r.representative),
    {
        self.equiv_class::<SameArtifact>(member)
    }

    /// The image that stands for the class of an image: the lowest of it.
    pub fn image_representative(&self, member: MemoryImageId) -> (r: MemoryImageId)
        requires
            self.wf(),
        ensures
            represents(self.identity_edges::<SameArtifact>(), member@, r),
    {
        self.image_class(member).representative
    }

    /// An event is a class of its own.
    pub fn event_class(&self, member: MemoryEventId) -> (r: EquivClass<MemoryEventId>)
        ensures
            r.members@ == Set::<u64>::empty().insert(member@),
            r.representative == member,
    {
        EquivClass { representative: member, members: OrderedSet::singleton(member) }
    }

    /// An event stands for itself.
    pub fn event_representative(&self, member: MemoryEventId) -> (r: MemoryEventId)
        ensures
            r == member,
    {
        member
    }

    /// The part of the topological graph around an entity: the entity alone.
    pub fn entity_topological_subgraph(&self, seed: MemoryEntityId) -> (r: EdgeSubgraph<
        MemoryEntityId,
        &'a MemStoredFact,
    >)
        ensures
            r.subjects@ == seq![seed],
            r.edge_facts@.len() == 0,
            !r.truncated,
    {
        let mut subjects: Vec<MemoryEntityId> = Vec::new();
        subjects.push(seed);
        assert(subjects@ =~= seq![seed]);
        EdgeSubgraph { subjects, edge_facts: Vec::new(), truncated: false }
    }
}

/// A commit that lands changes nothing at an earlier snapshot: the same facts
/// are there, and the same of them are active.
pub proof fn law_landing_keeps_the_past(
    before: ReadCore<'_>,
    after: ReadCore<'_>,
    commit_id: Seq<char>,
    delta: Delta,
    answer: Answer<MemoryEntityId, MemoryEventId, MemoryImageId>,
    id: u64,
)
    requires
        before.wf(),
        after.wf(),
        before.pending is None,
        after.pending is None,
        landed(*before.committed, *after.committed, commit_id, delta, answer),
        before.snapshot == after.snapshot,
        before.snapshot@ <= before.committed.facts@.len(),
    ensures
        id < before.snapshot@ ==> after.facts()[id as int] == before.facts()[id as int],
        after.retraction_of(id) == before.retraction_of(id),
        after.active(id) <==> before.active(id),
{
    let snapshot = before.snapshot@;
    let old_state = *before.committed;
    let new_state = *after.committed;
    let count = old_state.facts@.len();
    assert forall|t: u64, r: u64| r < snapshot implies (#[trigger] (before.edges())(t).contains(r)
        <==> #[trigger] (after.edges())(t).contains(r)) by {
        assert(old_state.retractors.at(t).contains(r) <==> r < count && has_taken_back(
            old_state.facts@[r as int],
            old_state.fact_commits@,
            r,
            t,
        ));
        assert(new_state.retractors.at(t).contains(r) <==> r < new_state.facts@.len()
            && has_taken_back(new_state.facts@[r as int], new_state.fact_commits@, r, t));
        assert(new_state.facts@[r as int] == old_state.facts@[r as int]);
        let prefix = new_state.fact_commits@.take(count as int);
        assert(prefix[r as int] == new_state.fact_commits@[r as int]);
        if t < r {
            assert(prefix[t as int] == new_state.fact_commits@[t as int]);
        }
    }
    law_snapshot_is_stable(before.edges(), after.edges(), snapshot, id);
}

/// Whether no fact takes back a fact of its own commit or a later one.
pub open spec fn takes_back_the_past(view: ReadCore<'_>) -> bool {
    forall|t: u64, r: u64| #[trigger]
        (view.edges())(t).contains(r) ==> t < r && view.committed.fact_commits@[t as int]@
            != view.committed.fact_commits@[r as int]@
}

/// The facts of a commit that landed are read back under the ids it was answered,
/// each of them active.
pub proof fn law_landed_facts_read_back(
    before: Inner,
    after: ReadCore<'_>,
    commit_id: Seq<char>,
    delta: Delta,
    answer: Answer<MemoryEntityId, MemoryEventId, MemoryImageId>,
    i: int,
)
    requires
        after.wf(),
        after.pending is None,
        after.snapshot@ == after.committed.facts@.len(),
        takes_back_the_past(after),
        landed(before, *after.committed, commit_id, delta, answer),
        0 <= i < delta.pending.facts@.len(),
    ensures
        answer.fact_ids.len() == delta.pending.facts@.len(),
        answer.fact_ids[i] == before.facts@.len() + i,
        after.facts()[answer.fact_ids[i] as int] == delta.pending.facts@[i],
        after.active(answer.fact_ids[i]),
{
    let id = answer.fact_ids[i];
    let commits = after.committed.fact_commits@;
    assert(commits[id as int]@ == commit_id);
    law_lowest_effective_retractor(after.edges(), after.snapshot@, id);
    match after.retraction_of(id) {
        Some(by) => {
            assert((after.edges())(id).contains(by));
            assert(commits[by as int]@ == commit_id);
        },
        None => {},
    }
}

/// A retraction that landed takes its target back: from then on the target is
/// read as retracted.
pub proof fn law_landed_retraction_takes_back(
    before: Inner,
    after: ReadCore<'_>,
    commit_id: Seq<char>,
    delta: Delta,
    answer: Answer<MemoryEntityId, MemoryEventId, MemoryImageId>,
    i: int,
    target: u64,
)
    requires
        after.wf(),
        after.pending is None,
        after.snapshot@ == after.committed.facts@.len(),
        takes_back_the_past(after),
        landed(before, *after.committed, commit_id, delta, answer),
        0 <= i < delta.pending.facts@.len(),
        has_taken_back(
            delta.pending.facts@[i],
            after.committed.fact_commits@,
            answer.fact_ids[i],
            target,
        ),
    ensures
        after.retraction_of(target) is Some,
        !after.active(target),
{
    law_landed_facts_read_back(before, after, commit_id, delta, answer, i);
    let r = answer.fact_ids[i];
    assert(after.committed.retractors.at(target).contains(r));
    assert((after.edges())(target).contains(r));
    law_standing_retractor_takes_back(after.edges(), after.snapshot@, target, r);
}

/// A retraction can be undone: once the one retractor of a fact is itself taken
/// back, the fact is read as active again.
pub proof fn law_landed_undo_gives_back(
    before: Inner,
    after: ReadCore<'_>,
    commit_id: Seq<char>,
    delta: Delta,
    answer: Answer<MemoryEntityId, MemoryEventId, MemoryImageId>,
    i: int,
    retractor: u64,
    target: u64,
)
    requires
        after.wf(),
        after.pending is None,
        after.snapshot@ == after.committed.facts@.len(),
        takes_back_the_past(after),
        landed(before, *after.committed, commit_id, delta, answer),
        0 <= i < delta.pending.facts@.len(),
        has_taken_back(
            delta.pending.facts@[i],
            after.committed.fact_commits@,
            answer.fact_ids[i],
            retractor,
        ),
        (after.edges())(target).contains(retractor),
        forall|x: u64| #[trigger] (after.edges())(target).contains(x) ==> x == retractor,
    ensures
        after.active(target),
{
    law_landed_retraction_takes_back(before, after, commit_id, delta, answer, i, retractor);
    law_retracting_the_retractor_restores(after.edges(), after.snapshot@, target, retractor);
    assert(after.committed.retractors.at(target).contains(retractor));
}

/// A fact that says of another that it no longer holds takes it back, for whatever
/// reason it gives: where the fact that says so is seen and not itself taken back, the
/// other is not active.
pub proof fn law_retraction_takes_back_for_any_reason(
    view: ReadCore<'_>,
    r: u64,
    target: FactId,
    reason: RetractionReason,
)
    requires
        view.wf(),
        r < view.snapshot@,
        r < view.facts().len(),
        view.retraction_of(r) is None,
        view.facts()[r as int] matches StoredFact::Meta(meta) && meta.assertion
            == (MetaAssertion::RetractFact { target, reason }),
    ensures
        !view.active(target@),
        view.retraction_of(target@) is Some,
        view.retraction_of(target@)->0 <= r,
{
    assert((view.edges())(target@).contains(r));
    law_standing_retractor_takes_back(view.edges(), view.snapshot@, target@, r);
}

/// A fact that says of another that it gives way takes it back, whatever it gives way
/// to and for whatever reason.
pub proof fn law_supersession_takes_back_for_any_reason(
    view: ReadCore<'_>,
    r: u64,
    target: FactId,
    replacement: FactId,
    reason: RetractionReason,
)
    requires
        view.wf(),
        r < view.snapshot@,
        r < view.facts().len(),
        view.retraction_of(r) is None,
        view.facts()[r as int] matches StoredFact::Meta(meta) && meta.assertion
            == (MetaAssertion::SupersedeFact { target, replacement, reason }),
    ensures
        !view.active(target@),
        view.retraction_of(target@) is Some,
        view.retraction_of(target@)->0 <= r,
{
    assert((view.edges())(target@).contains(r));
    law_standing_retractor_takes_back(view.edges(), view.snapshot@, target@, r);
}

/// A fact that says of a commit that none of its facts holds takes back every fact
/// that the commit had when it was said, for whatever reason it gives; only a fact of
/// the commit itself takes back none of it.
pub proof fn law_commit_retraction_takes_back_for_any_reason(
    view: ReadCore<'_>,
    r: u64,
    t: u64,
    target: CommitId,
    reason: RetractionReason,
)
    requires
        view.wf(),
        r < view.snapshot@,
        r < view.facts().len(),
        view.retraction_of(r) is None,
        view.facts()[r as int] matches StoredFact::Meta(meta) && meta.assertion
            == (MetaAssertion::RetractCommit { target, reason }),
        t < r,
        t < view.committed.facts@.len(),
        view.committed.fact_commits@[t as int]@ == target@,
        r < view.committed.facts@.len() ==> view.committed.fact_commits@[r as int]@ != target@,
    ensures
        !view.active(t),
        view.retraction_of(t) is Some,
        view.retraction_of(t)->0 <= r,
{
    assert((view.edges())(t).contains(r));
    law_standing_retractor_takes_back(view.edges(), view.snapshot@, t, r);
}

/// A fact that was taken back was taken back by a fact that is seen and says so of it:
/// by its id, as retracted or as superseded, or by its commit.
pub proof fn law_taken_back_only_by_what_says_so(view: ReadCore<'_>, t: u64)
    requires
        view.wf(),
        view.retraction_of(t) is Some,
    ensures
        ({
            let by = view.retraction_of(t)->0;
            &&& by < view.snapshot@
            &&& by < view.facts().len()
            &&& by <= t || view.retraction_of(by) is None
            &&& view.facts()[by as int] is Meta
            &&& match view.facts()[by as int]->Meta_0.assertion {
                MetaAssertion::RetractFact { target, .. } => target@ == t,
                MetaAssertion::SupersedeFact { target, .. } => target@ == t,
                MetaAssertion::RetractCommit { target, .. } => {
                    &&& t < by
                    &&& t < view.committed.facts@.len()
                    &&& view.committed.fact_commits@[t as int]@ == target@
                    &&& by < view.committed.facts@.len()
                        ==> view.committed.fact_commits@[by as int]@ != target@
                },
            }
        }),
{
    lemma_retraction(view.edges(), view.snapshot@, t);
    let by = view.retraction_of(t)->0;
    assert((view.edges())(t).contains(by));
}

/// A fact is active exactly where it is seen and no active fact takes it back.
pub proof fn law_active_exactly_where_none_takes_back(view: ReadCore<'_>, t: u64)
    requires
        view.wf(),
        takes_back_the_past(view),
    ensures
        view.active(t) <==> {
            &&& t < view.snapshot@
            &&& t < view.facts().len()
            &&& forall|r: u64| #[trigger] (view.edges())(t).contains(r) ==> !view.active(r)
        },
{
    lemma_retraction(view.edges(), view.snapshot@, t);
    if t < view.snapshot@ && t < view.facts().len() {
        match view.retraction_of(t) {
            Some(by) => {
                law_taken_back_only_by_what_says_so(view, t);
                assert((view.edges())(t).contains(by));
                assert(view.active(by));
            },
            None => {
                assert forall|r: u64| #[trigger]
                    (view.edges())(t).contains(r) implies !view.active(r) by {
                    assert(!retracts(view.edges(), view.snapshot@, t, r));
                }
            },
        }
    }
}

} // verus!
