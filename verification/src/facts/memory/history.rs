//! What holds over the life of a store, from one submission to the next.
use vstd::prelude::*;

use super::companion::{companion_of, says_same_artifact, says_same_entity, Matching};
use super::equiv::{component, connected, is_path, linked, IdentityEdges};
use super::ids::{
    MemCommit, MemStoredFact, MemSubmitError, MemoryEntityId, MemoryEventId, MemoryImageId,
};
use super::read::ReadCore;
use super::resolve::{
    counter_after, law_recognized_declarations_are_linked, links_of, outcome_at, resolves,
};
use super::scan::{SameArtifact, SameEntity};
use super::state::{answered, has_taken_back, ids_from, recorded, Inner};
use super::store::{
    all_substituted, can_submit, companion_landed, declaration_errors, failures, landed,
    law_declarations_refused_for_exactly, lemma_no_failure, lemma_settled_keeps_answers, settled,
    staged, submission, successes, unresolvable, Delta,
};
use super::substitute::{substituted, substitution, tables_of, Tables};
use super::view::{
    law_landed_facts_read_back, law_landed_retraction_takes_back, takes_back_the_past,
};
use crate::algebra::ordered::{keys, TotalOrder};
use crate::conflicts::detect::date_of;
use crate::facts::assertions::MetaAssertion;
use crate::facts::identity::agree;
use crate::facts::submit::{
    resolution_views, Answer, CommitAuthor, Decl, EntityIdx, EventIdx, ImageIdx, Origin, StoredFact, SubmitError,
    SubmitFact,
};

verus! {

// --- Refused commits ---

/// A commit that is refused leaves the store as it was: its facts, its commits, its
/// answers and the ids it would mint next.
pub proof fn law_refused_commit_changes_nothing(
    before: Inner,
    after: Inner,
    commit_id: Seq<char>,
    companion_id: Seq<char>,
    commit: MemCommit,
    matching: Matching,
    violations: Seq<MemSubmitError>,
    outcome: Result<Answer<MemoryEntityId, MemoryEventId, MemoryImageId>, Seq<MemSubmitError>>,
)
    requires
        submission(
            before,
            after,
            commit_id,
            companion_id,
            commit,
            matching,
            violations,
            outcome,
        ),
        outcome is Err,
    ensures
        after == before,
        !answered(after.submit_results@, commit_id),
        before.wf() ==> !recorded(after.commits@, commit_id),
        outcome->Err_0.len() > 0,
{
}

// --- Answers ---

/// Whether one call of submitting a commit leads from one state to the next.
pub open spec fn follows(before: Inner, after: Inner) -> bool {
    exists|
        commit_id: Seq<char>,
        companion_id: Seq<char>,
        commit: MemCommit,
        matching: Matching,
        violations: Seq<MemSubmitError>,
        outcome: Result<Answer<MemoryEntityId, MemoryEventId, MemoryImageId>, Seq<MemSubmitError>>,
    |
        can_submit(before, commit_id, companion_id, commit, matching) && #[trigger] submission(
            before,
            after,
            commit_id,
            companion_id,
            commit,
            matching,
            violations,
            outcome,
        )
}

/// Whether states come about one after the other, by submitting commits.
pub open spec fn is_history(states: Seq<Inner>) -> bool {
    &&& states.len() > 0
    &&& forall|i: int| 0 <= i < states.len() ==> (#[trigger] states[i]).wf()
    &&& forall|i: int|
        0 <= i < states.len() - 1 ==> follows(#[trigger] states[i], states[i + 1])
}

/// One call keeps the answers of the past.
proof fn lemma_answers_kept(before: Inner, after: Inner)
    requires
        follows(before, after),
    ensures
        before.submit_results@.is_prefix_of(after.submit_results@),
{
    let (commit_id, companion_id, commit, matching, violations, outcome) = choose|
        commit_id: Seq<char>,
        companion_id: Seq<char>,
        commit: MemCommit,
        matching: Matching,
        violations: Seq<MemSubmitError>,
        outcome: Result<Answer<MemoryEntityId, MemoryEventId, MemoryImageId>, Seq<MemSubmitError>>,
    |
        can_submit(before, commit_id, companion_id, commit, matching) && #[trigger] submission(
            before,
            after,
            commit_id,
            companion_id,
            commit,
            matching,
            violations,
            outcome,
        );
    if after != before {
        let delta = choose|delta: Delta| #[trigger]
            staged(before, commit, matching, delta) && (delta.errors@ + violations).len() == 0
                && outcome is Ok && settled(
                before,
                after,
                commit_id,
                companion_id,
                delta,
                outcome->Ok_0,
            );
        lemma_settled_keeps_answers(
            before,
            after,
            commit_id,
            companion_id,
            delta,
            outcome->Ok_0,
        );
    } else {
        assert(before.submit_results@.take(before.submit_results@.len() as int)
            =~= before.submit_results@);
    }
}

/// Any number of calls keeps the answers of the past.
proof fn lemma_history_keeps_answers(states: Seq<Inner>, n: int)
    requires
        is_history(states),
        0 <= n < states.len(),
    ensures
        states[0].submit_results@.is_prefix_of(states[n].submit_results@),
    decreases n,
{
    let first = states[0].submit_results@;
    if n == 0 {
        assert(first.take(first.len() as int) =~= first);
    } else {
        lemma_history_keeps_answers(states, n - 1);
        let before = states[n - 1];
        assert(follows(states[n - 1], states[n - 1 + 1]));
        lemma_answers_kept(states[n - 1], states[n]);
        let middle = states[n - 1].submit_results@;
        let last = states[n].submit_results@;
        assert(first =~= last.take(first.len() as int)) by {
            assert forall|i: int| 0 <= i < first.len() implies first[i] == last[i] by {
                assert(middle.take(first.len() as int)[i] == middle[i]);
                assert(last.take(middle.len() as int)[i] == last[i]);
            }
        }
    }
}

/// A commit that landed is answered the same ever after: whatever is submitted in
/// between, handing it in again, with whatever content under its id, changes nothing
/// and gives the answer it had, marked as a repetition.
pub proof fn law_answers_hold_ever_after(
    before: Inner,
    states: Seq<Inner>,
    after: Inner,
    commit_id: Seq<char>,
    companion_id: Seq<char>,
    commit: MemCommit,
    matching: Matching,
    violations: Seq<MemSubmitError>,
    answer: Answer<MemoryEntityId, MemoryEventId, MemoryImageId>,
    again_companion_id: Seq<char>,
    again: MemCommit,
    again_matching: Matching,
    again_violations: Seq<MemSubmitError>,
    outcome: Result<Answer<MemoryEntityId, MemoryEventId, MemoryImageId>, Seq<MemSubmitError>>,
)
    requires
        is_history(states),
        submission(
            before,
            states[0],
            commit_id,
            companion_id,
            commit,
            matching,
            violations,
            Ok(answer),
        ),
        submission(
            states.last(),
            after,
            commit_id,
            again_companion_id,
            again,
            again_matching,
            again_violations,
            outcome,
        ),
    ensures
        outcome == Ok::<
            Answer<MemoryEntityId, MemoryEventId, MemoryImageId>,
            Seq<MemSubmitError>,
        >(Answer { previously_committed: true, ..answer }),
        after == states.last(),
{
    let landed_in = states[0];
    let k: int = if answered(before.submit_results@, commit_id) {
        choose|k: int|
            0 <= k < before.submit_results@.len() && (
            #[trigger] before.submit_results@[k]).commit_id@ == commit_id && answer == (Answer {
                previously_committed: true,
                ..before.submit_results@[k]@
            })
    } else {
        let delta = choose|delta: Delta| #[trigger]
            staged(before, commit, matching, delta) && (delta.errors@ + violations).len() == 0
                && settled(before, landed_in, commit_id, companion_id, delta, answer);
        lemma_settled_keeps_answers(
            before,
            landed_in,
            commit_id,
            companion_id,
            delta,
            answer,
        );
        before.submit_results@.len() as int
    };
    let first = landed_in.submit_results@;
    let last = states.last().submit_results@;
    assert(first[k]@.commit_id == commit_id);
    assert(first[k].commit_id@ == commit_id);
    lemma_history_keeps_answers(states, states.len() - 1);
    assert(last.take(first.len() as int)[k] == last[k]);
    assert(last[k].commit_id@ == commit_id);
    assert(answered(last, commit_id));
    let j = choose|j: int|
        0 <= j < last.len() && (#[trigger] last[j]).commit_id@ == commit_id && outcome->Ok_0 == (
        Answer { previously_committed: true, ..last[j]@ });
    assert(states[states.len() - 1].wf());
    assert(j == k);
}

// --- What was submitted, and what is stored ---

/// Whether an id is what the declaration at a position came to.
pub open spec fn came_to<Idx: TotalOrder<V = usize>, Id>(
    ids: Seq<(Id, Origin<Id>)>,
) -> spec_fn(Idx, Id) -> bool {
    |x: Idx, y: Id| x@ < ids.len() && y == ids[x@ as int].0
}

/// Whether the declaration at a position is one that came to an id.
pub open spec fn came_from<Idx: TotalOrder<V = usize>, Id>(
    ids: Seq<(Id, Origin<Id>)>,
) -> spec_fn(Id, Idx) -> bool {
    |y: Id, x: Idx| x@ < ids.len() && y == ids[x@ as int].0
}

/// The facts of a commit that landed, by the ids it was answered.
proof fn lemma_landed_facts(
    before: Inner,
    after: Inner,
    commit_id: Seq<char>,
    companion_id: Seq<char>,
    commit: MemCommit,
    matching: Matching,
    violations: Seq<MemSubmitError>,
    answer: Answer<MemoryEntityId, MemoryEventId, MemoryImageId>,
    k: int,
) -> (tables: Tables)
    requires
        submission(
            before,
            after,
            commit_id,
            companion_id,
            commit,
            matching,
            violations,
            Ok(answer),
        ),
        !answered(before.submit_results@, commit_id),
        0 <= k < commit.facts@.len(),
    ensures
        answer.fact_ids.len() == commit.facts@.len(),
        answer.fact_ids[k] == before.facts@.len() + k,
        answer.fact_ids[k] < after.facts@.len(),
        substituted(commit.facts@[k], after.facts@[answer.fact_ids[k] as int], tables),
        tables.entities.len() == answer.entities.len(),
        tables.events.len() == answer.events.len(),
        tables.images.len() == answer.images.len(),
        forall|j: int|
            0 <= j < answer.entities.len() ==> #[trigger] tables.entities[j]
                == answer.entities[j].0@,
        forall|j: int|
            0 <= j < answer.events.len() ==> #[trigger] tables.events[j] == answer.events[j].0@,
        forall|j: int|
            0 <= j < answer.images.len() ==> #[trigger] tables.images[j] == answer.images[j].0@,
        forall|i: int, j: int|
            0 <= i < j < tables.entities.len() ==> #[trigger] tables.entities[i]
                != #[trigger] tables.entities[j],
        forall|i: int, j: int|
            0 <= i < j < tables.events.len() ==> #[trigger] tables.events[i]
                != #[trigger] tables.events[j],
        forall|i: int, j: int|
            0 <= i < j < tables.images.len() ==> #[trigger] tables.images[i]
                != #[trigger] tables.images[j],
{
    let outcome = Ok::<
        Answer<MemoryEntityId, MemoryEventId, MemoryImageId>,
        Seq<MemSubmitError>,
    >(answer);
    let delta = choose|delta: Delta| #[trigger]
        staged(before, commit, matching, delta) && {
            let errors = delta.errors@ + violations;
            if errors.len() > 0 {
                after == before && outcome is Err && outcome->Err_0 == errors
            } else {
                outcome is Ok && settled(
                    before,
                    after,
                    commit_id,
                    companion_id,
                    delta,
                    outcome->Ok_0,
                )
            }
        };
    assert(delta.errors@.len() == 0);
    let tables = tables_of(delta.entities@, delta.events@, delta.images@);
    let results = choose|results: Seq<Result<MemStoredFact, MemSubmitError>>| #[trigger]
        all_substituted(commit.facts@, tables, results) && delta.pending.facts@ == successes(
            results,
        ) && delta.errors@ == failures(results) + declaration_errors(
            commit.facts@,
            commit.entities@.len(),
            commit.events@.len(),
            commit.images@.len(),
            tables,
        );
    let wrong = declaration_errors(
        commit.facts@,
        commit.entities@.len(),
        commit.events@.len(),
        commit.images@.len(),
        tables,
    );
    assert(failures(results).len() == 0 && wrong.len() == 0);
    lemma_no_failure(results);
    assert(substitution(commit.facts@[k], tables, results[k]));
    let between = if delta.companion@.len() == 0 {
        after
    } else {
        let (between, companion, reply) = choose|
            between: Inner,
            companion: Delta,
            reply: Answer<MemoryEntityId, MemoryEventId, MemoryImageId>,
        |
            landed(before, between, commit_id, delta, answer) && #[trigger] companion_landed(
                between,
                after,
                companion_id,
                delta,
                companion,
                reply,
            );
        between
    };
    assert(landed(before, between, commit_id, delta, answer));
    let id = answer.fact_ids[k];
    assert(id == before.facts@.len() + k);
    assert(between.facts@[id as int] == delta.pending.facts@[k]);
    assert(after.facts@[id as int] == between.facts@[id as int]);
    assert(commit.entities.len() == commit.entities@.len());
    assert(commit.events.len() == commit.events@.len());
    assert(commit.images.len() == commit.images@.len());
    assert forall|i: int, j: int| 0 <= i < j < tables.entities.len() implies #[trigger] tables.entities[i]
        != #[trigger] tables.entities[j] by {
        law_declarations_refused_for_exactly(
            commit.facts@,
            commit.entities@.len(),
            commit.events@.len(),
            commit.images@.len(),
            tables,
            SubmitError::DuplicateEntityDecl { id: MemoryEntityId(tables.entities[i]) },
        );
    }
    assert forall|i: int, j: int| 0 <= i < j < tables.events.len() implies #[trigger] tables.events[i]
        != #[trigger] tables.events[j] by {
        law_declarations_refused_for_exactly(
            commit.facts@,
            commit.entities@.len(),
            commit.events@.len(),
            commit.images@.len(),
            tables,
            SubmitError::DuplicateEventDecl { id: MemoryEventId(tables.events[i]) },
        );
    }
    assert forall|i: int, j: int| 0 <= i < j < tables.images.len() implies #[trigger] tables.images[i]
        != #[trigger] tables.images[j] by {
        law_declarations_refused_for_exactly(
            commit.facts@,
            commit.entities@.len(),
            commit.events@.len(),
            commit.images@.len(),
            tables,
            SubmitError::DuplicateImageDecl { id: MemoryImageId(tables.images[i]) },
        );
    }
    tables
}

/// The facts of a commit that lands are stored as they were submitted, in their order
/// and under the ids the commit is answered: each says the same of the ids its
/// declarations came to, is of the same kind, carries the same date, and is backed by
/// the same.
pub proof fn law_stored_as_submitted(
    before: Inner,
    after: Inner,
    commit_id: Seq<char>,
    companion_id: Seq<char>,
    commit: MemCommit,
    matching: Matching,
    violations: Seq<MemSubmitError>,
    answer: Answer<MemoryEntityId, MemoryEventId, MemoryImageId>,
    k: int,
)
    requires
        submission(
            before,
            after,
            commit_id,
            companion_id,
            commit,
            matching,
            violations,
            Ok(answer),
        ),
        !answered(before.submit_results@, commit_id),
        0 <= k < commit.facts@.len(),
    ensures
        answer.fact_ids.len() == commit.facts@.len(),
        answer.fact_ids[k] == before.facts@.len() + k,
        answer.fact_ids[k] < after.facts@.len(),
        ({
            let submitted = commit.facts@[k];
            let stored = after.facts@[answer.fact_ids[k] as int];
            &&& submitted.maps_by(
                stored,
                came_to(answer.entities),
                came_to(answer.events),
                came_to(answer.images),
            )
            &&& date_of(stored) == date_of(submitted)
            &&& (submitted matches StoredFact::Factual(f) ==> (stored matches StoredFact::Factual(g)
                && g.citation == f.citation))
            &&& (submitted matches StoredFact::Judgment(f) ==> (stored matches
                StoredFact::Judgment(g) && g.source == f.source))
            &&& (submitted matches StoredFact::Meta(f) ==> (stored matches StoredFact::Meta(g) && g
                == f))
        }),
{
    let tables = lemma_landed_facts(
        before,
        after,
        commit_id,
        companion_id,
        commit,
        matching,
        violations,
        answer,
        k,
    );
    let submitted = commit.facts@[k];
    let stored = after.facts@[answer.fact_ids[k] as int];
    lemma_tables_agree(tables, answer, submitted);
    submitted.law_only_mentioned_ids_matter(
        stored,
        tables.entity(),
        came_to(answer.entities),
        tables.event(),
        came_to(answer.events),
        tables.image(),
        came_to(answer.images),
    );
}

/// The tables map ids as the answer says.
proof fn lemma_tables_agree(
    tables: Tables,
    answer: Answer<MemoryEntityId, MemoryEventId, MemoryImageId>,
    fact: SubmitFact,
)
    requires
        tables.entities.len() == answer.entities.len(),
        tables.events.len() == answer.events.len(),
        tables.images.len() == answer.images.len(),
        forall|j: int|
            0 <= j < answer.entities.len() ==> #[trigger] tables.entities[j]
                == answer.entities[j].0@,
        forall|j: int|
            0 <= j < answer.events.len() ==> #[trigger] tables.events[j] == answer.events[j].0@,
        forall|j: int|
            0 <= j < answer.images.len() ==> #[trigger] tables.images[j] == answer.images[j].0@,
    ensures
        agree(fact.entities(), tables.entity(), came_to(answer.entities)),
        agree(fact.events(), tables.event(), came_to(answer.events)),
        agree(fact.images(), tables.image(), came_to(answer.images)),
{
    let e = came_to::<EntityIdx, MemoryEntityId>(answer.entities);
    let v = came_to::<EventIdx, MemoryEventId>(answer.events);
    let i = came_to::<ImageIdx, MemoryImageId>(answer.images);
    assert forall|x: EntityIdx, y: MemoryEntityId| #[trigger]
        (tables.entity())(x, y) <==> e(x, y) by {
        if x@ < answer.entities.len() {
            let id = answer.entities[x@ as int].0;
            assert(id@ == tables.entities[x@ as int]);
            assert(y@ == id@ ==> y == id);
        }
    }
    assert forall|x: EventIdx, y: MemoryEventId| #[trigger] (tables.event())(x, y) <==> v(x, y) by {
        if x@ < answer.events.len() {
            let id = answer.events[x@ as int].0;
            assert(id@ == tables.events[x@ as int]);
            assert(y@ == id@ ==> y == id);
        }
    }
    assert forall|x: ImageIdx, y: MemoryImageId| #[trigger] (tables.image())(x, y) <==> i(x, y) by {
        if x@ < answer.images.len() {
            let id = answer.images[x@ as int].0;
            assert(id@ == tables.images[x@ as int]);
            assert(y@ == id@ ==> y == id);
        }
    }
}

/// Nothing that was submitted is lost: putting the positions of the declarations back
/// for the ids they came to gives the submitted fact again.
pub proof fn law_submitted_fact_can_be_recovered(
    before: Inner,
    after: Inner,
    commit_id: Seq<char>,
    companion_id: Seq<char>,
    commit: MemCommit,
    matching: Matching,
    violations: Seq<MemSubmitError>,
    answer: Answer<MemoryEntityId, MemoryEventId, MemoryImageId>,
    k: int,
    back: SubmitFact,
)
    requires
        submission(
            before,
            after,
            commit_id,
            companion_id,
            commit,
            matching,
            violations,
            Ok(answer),
        ),
        !answered(before.submit_results@, commit_id),
        0 <= k < commit.facts@.len(),
        after.facts@[answer.fact_ids[k] as int].maps_by(
            back,
            came_from(answer.entities),
            came_from(answer.events),
            came_from(answer.images),
        ),
    ensures
        back == commit.facts@[k],
{
    let tables = lemma_landed_facts(
        before,
        after,
        commit_id,
        companion_id,
        commit,
        matching,
        violations,
        answer,
        k,
    );
    law_stored_as_submitted(
        before,
        after,
        commit_id,
        companion_id,
        commit,
        matching,
        violations,
        answer,
        k,
    );
    let e = came_to::<EntityIdx, MemoryEntityId>(answer.entities);
    let v = came_to::<EventIdx, MemoryEventId>(answer.events);
    let i = came_to::<ImageIdx, MemoryImageId>(answer.images);
    let e_back = came_from::<EntityIdx, MemoryEntityId>(answer.entities);
    let v_back = came_from::<EventIdx, MemoryEventId>(answer.events);
    let i_back = came_from::<ImageIdx, MemoryImageId>(answer.images);
    assert forall|x: EntityIdx, y: MemoryEntityId, z: EntityIdx| #[trigger]
        e(x, y) && #[trigger] e_back(y, z) implies x == z by {
        assert(tables.entities[x@ as int] == tables.entities[z@ as int]);
        assert(x@ == z@);
    }
    assert forall|x: EventIdx, y: MemoryEventId, z: EventIdx| #[trigger]
        v(x, y) && #[trigger] v_back(y, z) implies x == z by {
        assert(tables.events[x@ as int] == tables.events[z@ as int]);
        assert(x@ == z@);
    }
    assert forall|x: ImageIdx, y: MemoryImageId, z: ImageIdx| #[trigger]
        i(x, y) && #[trigger] i_back(y, z) implies x == z by {
        assert(tables.images[x@ as int] == tables.images[z@ as int]);
        assert(x@ == z@);
    }
    commit.facts@[k].law_mapping_there_and_back(
        after.facts@[answer.fact_ids[k] as int],
        back,
        e,
        e_back,
        v,
        v_back,
        i,
        i_back,
    );
}

// --- Recognized declarations ---

/// An active judgment is an edge.
proof fn lemma_active_judgment_joins<K: IdentityEdges>(view: ReadCore<'_>, n: nat, id: u64)
    requires
        id < n,
        view.active(id),
        K::joins(view.facts()[id as int]) is Some,
    ensures
        view.active_edges::<K>(n).contains(K::joins(view.facts()[id as int])->0),
    decreases n,
{
    let edge = K::joins(view.facts()[id as int])->0;
    let rest = view.active_edges::<K>((n - 1) as nat);
    let now = view.active_edges::<K>(n);
    if id == n - 1 {
        assert(now == rest.push(edge));
        assert(now[rest.len() as int] == edge);
    } else {
        lemma_active_judgment_joins::<K>(view, (n - 1) as nat, id);
        let k = rest.index_of(edge);
        assert(now[k] == edge);
    }
}

/// Two subjects that an active judgment joins are in one class.
proof fn lemma_joined_in_class<K: IdentityEdges>(view: ReadCore<'_>, id: u64, a: u64, b: u64)
    requires
        view.active(id),
        K::joins(view.facts()[id as int]) == Some((a, b)),
    ensures
        component(view.identity_edges::<K>(), a).contains(b),
{
    lemma_active_judgment_joins::<K>(view, view.seen(), id);
    let edges = view.identity_edges::<K>();
    let path = seq![a, b];
    assert(linked(edges, path[0], path[1]));
    assert(is_path(edges, path));
    assert(connected(edges, a, b));
}

/// A local entity that was recognized as a known entity gets an id of its own, and a
/// judgment in the companion, which the answer names, says that it is the known one.
/// The judgment stands, so the two are read as one class.
pub proof fn law_recognized_entity_joins_its_class(
    before: Inner,
    after: ReadCore<'_>,
    commit_id: Seq<char>,
    companion_id: Seq<char>,
    commit: MemCommit,
    matching: Matching,
    delta: Delta,
    answer: Answer<MemoryEntityId, MemoryEventId, MemoryImageId>,
    i: int,
    matched: MemoryEntityId,
) -> (id: u64)
    requires
        after.wf(),
        after.pending is None,
        after.snapshot@ == after.committed.facts@.len(),
        takes_back_the_past(after),
        staged(before, commit, matching, delta),
        settled(before, *after.committed, commit_id, companion_id, delta, answer),
        0 <= i < commit.entities@.len(),
        commit.entities@[i] is Local,
        outcome_at(matching.entities@, i) is Some,
        outcome_at(matching.entities@, i)->0 is Matched,
        outcome_at(matching.entities@, i)->0->matched == matched,
        matched@ < before.next_entity_id,
    ensures
        answer.entities[i].0@ == counter_after(
            commit.entities@,
            before.next_entity_id,
            i as nat,
        ),
        answer.entities[i].1 == (Origin::MatchedExisting { matched }),
        answer.companion_commit_id == Some(companion_id),
        id < after.facts().len(),
        after.committed.fact_commits@[id as int]@ == companion_id,
        says_same_entity(
            after.facts()[id as int],
            (answer.entities[i].0@, matched@, outcome_at(matching.entities@, i)->0->basis@),
            matching.process,
            matching.version,
            before.facts@.len(),
        ),
        after.active(id),
        component(after.identity_edges::<SameEntity>(), answer.entities[i].0@).contains(matched@),
{
    let links = links_of(
        commit.entities@,
        matching.entities@,
        before.next_entity_id,
        commit.entities@.len(),
    );
    let fresh = counter_after(commit.entities@, before.next_entity_id, i as nat);
    let link = (fresh, matched@, outcome_at(matching.entities@, i)->0->basis@);
    law_recognized_declarations_are_linked(
        commit.entities@,
        matching.entities@,
        before.next_entity_id,
        i,
    );
    let k = links.index_of(link);
    assert(links[k] == link);
    assert(says_same_entity(
        delta.companion@[k],
        links[k],
        matching.process,
        matching.version,
        before.facts@.len(),
    ));
    assert(resolves(
        commit.entities@[i],
        outcome_at(matching.entities@, i),
        fresh,
        resolution_views(delta.entities@)[i],
    ));
    let id = lemma_judgment_stands(
        before,
        after,
        commit_id,
        companion_id,
        delta,
        answer,
        k,
    );
    lemma_joined_in_class::<SameEntity>(after, id, fresh, matched@);
    id
}

/// A local image that was recognized as a known image gets an id of its own, and a
/// judgment in the companion, which the answer names, says that it shows the same
/// artifact as the known one. The judgment stands, so the two are read as one class.
pub proof fn law_recognized_image_joins_its_class(
    before: Inner,
    after: ReadCore<'_>,
    commit_id: Seq<char>,
    companion_id: Seq<char>,
    commit: MemCommit,
    matching: Matching,
    delta: Delta,
    answer: Answer<MemoryEntityId, MemoryEventId, MemoryImageId>,
    i: int,
    matched: MemoryImageId,
) -> (id: u64)
    requires
        after.wf(),
        after.pending is None,
        after.snapshot@ == after.committed.facts@.len(),
        takes_back_the_past(after),
        staged(before, commit, matching, delta),
        settled(before, *after.committed, commit_id, companion_id, delta, answer),
        0 <= i < commit.images@.len(),
        commit.images@[i] is Local,
        outcome_at(matching.images@, i) is Some,
        outcome_at(matching.images@, i)->0 is Matched,
        outcome_at(matching.images@, i)->0->matched == matched,
        matched@ < before.next_image_id,
    ensures
        answer.images[i].0@ == counter_after(commit.images@, before.next_image_id, i as nat),
        answer.images[i].1 == (Origin::MatchedExisting { matched }),
        answer.companion_commit_id == Some(companion_id),
        id < after.facts().len(),
        after.committed.fact_commits@[id as int]@ == companion_id,
        says_same_artifact(
            after.facts()[id as int],
            (answer.images[i].0@, matched@, outcome_at(matching.images@, i)->0->basis@),
            matching.process,
            matching.version,
            before.facts@.len(),
        ),
        after.active(id),
        component(after.identity_edges::<SameArtifact>(), answer.images[i].0@).contains(matched@),
{
    let entity_links = links_of(
        commit.entities@,
        matching.entities@,
        before.next_entity_id,
        commit.entities@.len(),
    );
    let links = links_of(
        commit.images@,
        matching.images@,
        before.next_image_id,
        commit.images@.len(),
    );
    let fresh = counter_after(commit.images@, before.next_image_id, i as nat);
    let link = (fresh, matched@, outcome_at(matching.images@, i)->0->basis@);
    law_recognized_declarations_are_linked(
        commit.images@,
        matching.images@,
        before.next_image_id,
        i,
    );
    let k = links.index_of(link);
    assert(links[k] == link);
    let at = entity_links.len() + k;
    assert(says_same_artifact(
        delta.companion@[at],
        links[at - entity_links.len()],
        matching.process,
        matching.version,
        before.facts@.len(),
    ));
    assert(resolves(
        commit.images@[i],
        outcome_at(matching.images@, i),
        fresh,
        resolution_views(delta.images@)[i],
    ));
    let id = lemma_judgment_stands(
        before,
        after,
        commit_id,
        companion_id,
        delta,
        answer,
        at,
    );
    lemma_joined_in_class::<SameArtifact>(after, id, fresh, matched@);
    id
}

/// Every judgment of a companion is read back under its id, and stands.
proof fn lemma_judgment_stands(
    before: Inner,
    after: ReadCore<'_>,
    commit_id: Seq<char>,
    companion_id: Seq<char>,
    delta: Delta,
    answer: Answer<MemoryEntityId, MemoryEventId, MemoryImageId>,
    k: int,
) -> (id: u64)
    requires
        after.wf(),
        after.pending is None,
        after.snapshot@ == after.committed.facts@.len(),
        takes_back_the_past(after),
        settled(before, *after.committed, commit_id, companion_id, delta, answer),
        0 <= k < delta.companion@.len(),
    ensures
        answer.entities == resolution_views(delta.entities@),
        answer.images == resolution_views(delta.images@),
        answer.companion_commit_id == Some(companion_id),
        id < after.facts().len(),
        after.committed.fact_commits@[id as int]@ == companion_id,
        after.facts()[id as int] == delta.companion@[k],
        after.active(id),
{
    let (between, companion, reply) = choose|
        between: Inner,
        companion: Delta,
        reply: Answer<MemoryEntityId, MemoryEventId, MemoryImageId>,
    |
        landed(before, between, commit_id, delta, answer) && #[trigger] companion_landed(
            between,
            *after.committed,
            companion_id,
            delta,
            companion,
            reply,
        );
    law_landed_facts_read_back(between, after, companion_id, companion, reply, k);
    reply.fact_ids[k]
}

/// Whether a fact retracts a commit.
pub open spec fn retracts_commit(fact: MemStoredFact, id: Seq<char>) -> bool {
    match fact {
        StoredFact::Meta(meta) => match meta.assertion {
            MetaAssertion::RetractCommit { target, .. } => target@ == id,
            _ => false,
        },
        _ => false,
    }
}

/// A companion can be taken back: once a commit landed that retracts it, none of its
/// judgments stands.
pub proof fn law_retracted_companion_no_longer_stands(
    before: Inner,
    after: ReadCore<'_>,
    commit_id: Seq<char>,
    companion_id: Seq<char>,
    delta: Delta,
    answer: Answer<MemoryEntityId, MemoryEventId, MemoryImageId>,
    i: int,
    judgment: u64,
)
    requires
        after.wf(),
        after.pending is None,
        after.snapshot@ == after.committed.facts@.len(),
        takes_back_the_past(after),
        landed(before, *after.committed, commit_id, delta, answer),
        0 <= i < delta.pending.facts@.len(),
        retracts_commit(delta.pending.facts@[i], companion_id),
        commit_id != companion_id,
        judgment < before.facts@.len(),
        before.fact_commits@.len() == before.facts@.len(),
        before.fact_commits@[judgment as int]@ == companion_id,
    ensures
        !after.active(judgment),
{
    law_landed_facts_read_back(before, after, commit_id, delta, answer, i);
    let r = answer.fact_ids[i];
    let commits = after.committed.fact_commits@;
    assert(commits.take(before.facts@.len() as int)[judgment as int] == commits[judgment as int]);
    assert(commits[r as int]@ == commit_id);
    assert(has_taken_back(delta.pending.facts@[i], commits, r, judgment));
    law_landed_retraction_takes_back(before, after, commit_id, delta, answer, i, judgment);
}

// --- What is recorded of a commit ---

/// A commit that lands is recorded last, with its author, its time and the ids of its
/// facts, which are the next ones in order; every fact of it belongs to it, the facts and
/// commits before stay, and the ids minted for its declarations are known from then on.
pub proof fn law_landed_commit_is_recorded(
    before: Inner,
    after: Inner,
    commit_id: Seq<char>,
    delta: Delta,
    answer: Answer<MemoryEntityId, MemoryEventId, MemoryImageId>,
    i: int,
)
    requires
        landed(before, after, commit_id, delta, answer),
        before.facts@.len() == before.fact_commits@.len(),
        before.facts@.len() + delta.pending.facts@.len() <= u64::MAX,
        0 <= i < delta.pending.facts@.len(),
    ensures
        recorded(after.commits@, commit_id),
        answered(after.submit_results@, commit_id),
        ({
            let commit = after.commits@[after.commits@.len() - 1];
            &&& commit.commit_id@ == commit_id
            &&& commit.author == delta.author
            &&& commit.recorded_at == delta.recorded_at
            &&& commit.fact_ids@.len() == delta.pending.facts@.len()
            &&& commit.fact_ids@[i]@ == before.facts@.len() + i
        }),
        after.fact_commits@[before.facts@.len() + i]@ == commit_id,
        after.facts@[before.facts@.len() + i] == delta.pending.facts@[i],
        forall|k: int|
            0 <= k < before.facts@.len() ==> #[trigger] after.facts@[k] == before.facts@[k]
                && after.fact_commits@[k] == before.fact_commits@[k],
        forall|k: int|
            0 <= k < before.commits@.len() ==> #[trigger] after.commits@[k] == before.commits@[k],
        after.commits@.len() == before.commits@.len() + 1,
        answer.fact_ids[i] == before.facts@.len() + i,
        !answer.previously_committed,
        answer.commit_id == commit_id,
{
    let n = after.commits@.len() - 1;
    assert(after.commits@[n] == after.commits@.last());
    let m = after.submit_results@.len() - 1;
    assert(after.submit_results@[m] == after.submit_results@.last());
    assert(after.submit_results@[m].commit_id@ == commit_id);
    let listed = after.commits@[n].fact_ids@;
    assert(keys(listed) == ids_from(before.facts@.len(), delta.pending.facts@.len()));
    assert(keys(listed).len() == listed.len());
    assert(keys(listed)[i] == listed[i]@);
    assert forall|k: int| 0 <= k < before.facts@.len() implies #[trigger] after.facts@[k]
        == before.facts@[k] && after.fact_commits@[k] == before.fact_commits@[k] by {
        assert(after.fact_commits@.take(before.facts@.len() as int)[k] == before.fact_commits@[k]);
    }
    assert forall|k: int| 0 <= k < before.commits@.len() implies #[trigger] after.commits@[k]
        == before.commits@[k] by {
        assert(after.commits@.drop_last()[k] == before.commits@[k]);
    }
}

/// A new commit that mentions only what is there lands exactly where nothing is wrong
/// with it: no fact came to be about one thing and itself, every declaration is
/// mentioned, no two came to the same id, and no rule is broken.
pub proof fn law_lands_exactly_where_nothing_is_wrong(
    before: Inner,
    after: Inner,
    commit_id: Seq<char>,
    companion_id: Seq<char>,
    commit: MemCommit,
    matching: Matching,
    violations: Seq<MemSubmitError>,
    outcome: Result<Answer<MemoryEntityId, MemoryEventId, MemoryImageId>, Seq<MemSubmitError>>,
) -> (delta: Delta)
    requires
        submission(
            before,
            after,
            commit_id,
            companion_id,
            commit,
            matching,
            violations,
            outcome,
        ),
        !answered(before.submit_results@, commit_id),
        unresolvable(before, commit).len() == 0,
    ensures
        staged(before, commit, matching, delta),
        outcome is Ok <==> delta.errors@.len() == 0 && violations.len() == 0,
        outcome is Err ==> after == before && outcome->Err_0 == delta.errors@ + violations,
        outcome is Ok ==> settled(
            before,
            after,
            commit_id,
            companion_id,
            delta,
            outcome->Ok_0,
        ),
{
    choose|delta: Delta| #[trigger]
        staged(before, commit, matching, delta) && {
            let errors = delta.errors@ + violations;
            if errors.len() > 0 {
                after == before && outcome is Err && outcome->Err_0 == errors
            } else {
                outcome is Ok && settled(
                    before,
                    after,
                    commit_id,
                    companion_id,
                    delta,
                    outcome->Ok_0,
                )
            }
        }
}

/// Where a matcher recognized anything, a companion lands right after the commit, under
/// the id the answer names: it holds a judgment for each link, and the matcher hands it
/// in at the time of the commit. Where it recognized nothing, no companion does.
pub proof fn law_companion_lands_where_anything_was_recognized(
    before: Inner,
    after: Inner,
    commit_id: Seq<char>,
    companion_id: Seq<char>,
    commit: MemCommit,
    matching: Matching,
    delta: Delta,
    answer: Answer<MemoryEntityId, MemoryEventId, MemoryImageId>,
)
    requires
        staged(before, commit, matching, delta),
        settled(before, after, commit_id, companion_id, delta, answer),
    ensures
        ({
            let entities = links_of(
                commit.entities@,
                matching.entities@,
                before.next_entity_id,
                commit.entities@.len(),
            );
            let images = links_of(
                commit.images@,
                matching.images@,
                before.next_image_id,
                commit.images@.len(),
            );
            let count = entities.len() + images.len();
            if count == 0 {
                &&& answer.companion_commit_id is None
                &&& after.commits@.len() == before.commits@.len() + 1
                &&& after.facts@.len() == before.facts@.len() + delta.pending.facts@.len()
            } else {
                let companion = after.commits@[after.commits@.len() - 1];
                &&& answer.companion_commit_id == Some(companion_id)
                &&& after.commits@.len() == before.commits@.len() + 2
                &&& companion.commit_id@ == companion_id
                &&& companion.author == (CommitAuthor::Analyzer {
                    process: matching.process,
                    version: matching.version,
                })
                &&& companion.recorded_at == commit.recorded_at
                &&& companion.fact_ids@.len() == count
                &&& after.facts@.len() == before.facts@.len() + delta.pending.facts@.len() + count
                &&& companion_of(
                    entities,
                    images,
                    matching.process,
                    matching.version,
                    before.facts@.len(),
                    after.facts@.skip((before.facts@.len() + delta.pending.facts@.len()) as int),
                )
            }
        }),
{
    if delta.companion@.len() > 0 {
        let (between, companion, reply) = choose|
            between: Inner,
            companion: Delta,
            reply: Answer<MemoryEntityId, MemoryEventId, MemoryImageId>,
        |
            landed(before, between, commit_id, delta, answer) && #[trigger] companion_landed(
                between,
                after,
                companion_id,
                delta,
                companion,
                reply,
            );
        let last = after.commits@[after.commits@.len() - 1];
        assert(keys(last.fact_ids@).len() == last.fact_ids@.len());
        let n = before.facts@.len() + delta.pending.facts@.len();
        assert(after.facts@.skip(n as int) =~= delta.companion@);
    }
}

/// A commit is recorded as it was submitted: under its id, with its author and its time,
/// and with the ids it is answered.
pub proof fn law_recorded_as_submitted(
    before: Inner,
    after: Inner,
    commit_id: Seq<char>,
    companion_id: Seq<char>,
    commit: MemCommit,
    matching: Matching,
    violations: Seq<MemSubmitError>,
    answer: Answer<MemoryEntityId, MemoryEventId, MemoryImageId>,
)
    requires
        submission(
            before,
            after,
            commit_id,
            companion_id,
            commit,
            matching,
            violations,
            Ok(answer),
        ),
        !answered(before.submit_results@, commit_id),
    ensures
        before.commits@.len() < after.commits@.len(),
        ({
            let recorded = after.commits@[before.commits@.len() as int];
            &&& recorded.commit_id@ == commit_id
            &&& recorded.author == commit.author
            &&& recorded.recorded_at == commit.recorded_at
            &&& keys(recorded.fact_ids@) == answer.fact_ids
        }),
        answer.commit_id == commit_id,
        !answer.previously_committed,
        answer.entities.len() == commit.entities@.len(),
        answer.events.len() == commit.events@.len(),
        answer.images.len() == commit.images@.len(),
        forall|i: int|
            0 <= i < commit.events@.len() && (#[trigger] commit.events@[i]) is Local
                ==> answer.events[i].1 is NewlyMinted,
        forall|i: int|
            0 <= i < commit.entities@.len() ==> ((#[trigger] commit.entities@[i]) matches
                Decl::Existing { id } ==> answer.entities[i].0 == id),
        forall|i: int|
            0 <= i < commit.events@.len() ==> ((#[trigger] commit.events@[i]) matches
                Decl::Existing { id } ==> answer.events[i].0 == id),
        forall|i: int|
            0 <= i < commit.images@.len() ==> ((#[trigger] commit.images@[i]) matches
                Decl::Existing { id } ==> answer.images[i].0 == id),
{
    let outcome = Ok::<
        Answer<MemoryEntityId, MemoryEventId, MemoryImageId>,
        Seq<MemSubmitError>,
    >(answer);
    let delta = choose|delta: Delta| #[trigger]
        staged(before, commit, matching, delta) && {
            let errors = delta.errors@ + violations;
            if errors.len() > 0 {
                after == before && outcome is Err && outcome->Err_0 == errors
            } else {
                outcome is Ok && settled(
                    before,
                    after,
                    commit_id,
                    companion_id,
                    delta,
                    outcome->Ok_0,
                )
            }
        };
    let n = before.commits@.len() as int;
    if delta.companion@.len() == 0 {
        assert(after.commits@[n] == after.commits@.last());
    } else {
        let (between, companion, reply) = choose|
            between: Inner,
            companion: Delta,
            reply: Answer<MemoryEntityId, MemoryEventId, MemoryImageId>,
        |
            landed(before, between, commit_id, delta, answer) && #[trigger] companion_landed(
                between,
                after,
                companion_id,
                delta,
                companion,
                reply,
            );
        assert(between.commits@[n] == between.commits@.last());
        assert(after.commits@.drop_last()[n] == between.commits@[n]);
    }
    assert forall|i: int|
        0 <= i < commit.events@.len() && (#[trigger] commit.events@[i]) is Local implies
        answer.events[i].1 is NewlyMinted by {
        assert(resolution_views(delta.events@)[i] == answer.events[i]);
    }
    assert forall|i: int| 0 <= i < commit.entities@.len() implies ((
    #[trigger] commit.entities@[i]) matches Decl::Existing { id } ==> answer.entities[i].0
        == id) by {
        assert(resolution_views(delta.entities@)[i] == answer.entities[i]);
    }
    assert forall|i: int| 0 <= i < commit.events@.len() implies ((#[trigger] commit.events@[i]) matches
        Decl::Existing { id } ==> answer.events[i].0 == id) by {
        assert(resolution_views(delta.events@)[i] == answer.events[i]);
    }
    assert forall|i: int| 0 <= i < commit.images@.len() implies ((#[trigger] commit.images@[i]) matches
        Decl::Existing { id } ==> answer.images[i].0 == id) by {
        assert(resolution_views(delta.images@)[i] == answer.images[i]);
    }
}

} // verus!
