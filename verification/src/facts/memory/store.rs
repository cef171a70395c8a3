//! Submitting commits, and the store itself.
//!
//! A commit is submitted in three steps, between which a matcher and a validator
//! may read: [`open_commit`] says whether the commit landed before or mentions what
//! is not there, [`stage`] gives the declarations their ids and prepares the facts,
//! and [`settle`] turns the commit down or lets it land, and after it a companion
//! with what the matcher recognized. Nothing changes before the last step lets it
//! land.
use vstd::prelude::*;

use super::companion::{companion_judgments, companion_of, Matching};
use super::ids::{
    MemCommit, MemStoredFact, MemSubmitError, MemSubmitResult, MemoryEntityId, MemoryEventId,
    MemoryImageId,
};
use super::read::ReadCore;
use super::resolve::{
    all_resolved, check_all_decls_referenced, check_refs_in_range, collect_idx_refs,
    counter_after, duplicate_resolved_ids, entity_mentions, entity_refs, event_mentions,
    event_refs, image_mentions, image_refs, law_mentioned_by_some_fact,
    law_out_of_range_are_past_the_end, law_repeated_ids_occur_twice, law_unknown_were_never_minted,
    law_unused_are_not_mentioned, lemma_listing_lists, lemma_refs_finite, links_of, out_of_range, repeated_ids, resolve_decls, unknown, unused,
};
use super::state::{
    answered, apply_pending, facts_of_commit, ids_from, recorded, Inner, Pending, UnionSource,
};
use super::substitute::{
    in_range, self_loop, substitute_fact, substituted, substitution, tables_of, Tables,
};
use crate::algebra::ordered::{keys, TotalOrder};
use crate::facts::ids::{AnalyzerProcess, AnalyzerVersion, CommitId, FactId};
use crate::facts::submit::{
    commit_view, copy_ids, resolution_views, Answer, CommitAuthor, Decl, EntityIdx, EventIdx, ImageIdx,
    MatchOutcome, Resolution, StoredCommit, SubjectKind, SubmitError, SubmitFact,
};
use crate::nonempty::NonEmptyVec;

verus! {

// --- First step: is the commit known, and is what it mentions there? ---

/// The errors of mentioning an entity that is not declared.
pub open spec fn entity_range_errors(positions: Seq<usize>, decl_count: usize) -> Seq<
    MemSubmitError,
> {
    positions.map_values(
        |idx: usize| SubmitError::EntityIdxOutOfRange { idx, decl_count },
    )
}

/// The errors of mentioning an event that is not declared.
pub open spec fn event_range_errors(positions: Seq<usize>, decl_count: usize) -> Seq<
    MemSubmitError,
> {
    positions.map_values(|idx: usize| SubmitError::EventIdxOutOfRange { idx, decl_count })
}

/// The errors of mentioning an image that is not declared.
pub open spec fn image_range_errors(positions: Seq<usize>, decl_count: usize) -> Seq<
    MemSubmitError,
> {
    positions.map_values(|idx: usize| SubmitError::ImageIdxOutOfRange { idx, decl_count })
}

/// The errors of declaring an entity that is not known.
pub open spec fn unknown_entity_errors(positions: Seq<usize>) -> Seq<MemSubmitError> {
    positions.map_values(
        |p: usize| SubmitError::UnknownExistingEntity { decl_position: EntityIdx(p) },
    )
}

/// The errors of declaring an event that is not known.
pub open spec fn unknown_event_errors(positions: Seq<usize>) -> Seq<MemSubmitError> {
    positions.map_values(
        |p: usize| SubmitError::UnknownExistingEvent { decl_position: EventIdx(p) },
    )
}

/// The errors of declaring an image that is not known.
pub open spec fn unknown_image_errors(positions: Seq<usize>) -> Seq<MemSubmitError> {
    positions.map_values(
        |p: usize| SubmitError::UnknownExistingImage { decl_position: ImageIdx(p) },
    )
}

/// Everything that a commit mentions and that is not there: positions past the
/// declarations of their kind, then declared ids that the store does not know.
pub open spec fn unresolvable(inner: Inner, commit: MemCommit) -> Seq<MemSubmitError> {
    entity_range_errors(
        out_of_range(entity_refs(commit.facts@), commit.entities@.len() as usize),
        commit.entities@.len() as usize,
    ) + event_range_errors(
        out_of_range(event_refs(commit.facts@), commit.events@.len() as usize),
        commit.events@.len() as usize,
    ) + image_range_errors(
        out_of_range(image_refs(commit.facts@), commit.images@.len() as usize),
        commit.images@.len() as usize,
    ) + unknown_entity_errors(
        unknown(commit.entities@, inner.next_entity_id, commit.entities@.len()),
    ) + unknown_event_errors(
        unknown(commit.events@, inner.next_event_id, commit.events@.len()),
    ) + unknown_image_errors(unknown(commit.images@, inner.next_image_id, commit.images@.len()))
}

/// What the first step says of a commit.
#[derive(Debug)]
pub enum Opening {
    /// It landed before, and was answered this.
    Landed(MemSubmitResult),
    /// It mentions what is not there.
    Refused(NonEmptyVec<MemSubmitError>),
    /// It can be staged.
    Open,
}

/// Append the errors that `error` makes of positions.
fn append_errors(
    errors: &mut Vec<MemSubmitError>,
    positions: &Vec<usize>,
    error: impl Fn(usize) -> MemSubmitError,
    Ghost(made): Ghost<spec_fn(usize) -> MemSubmitError>,
)
    requires
        forall|p: usize| call_requires(error, (p,)),
        forall|p: usize, e: MemSubmitError| call_ensures(error, (p,), e) ==> e == made(p),
    ensures
        final(errors)@ == old(errors)@ + positions@.map_values(made),
{
    let ghost start = errors@;
    let mut i: usize = 0;
    assert(start + positions@.take(0).map_values(made) =~= start);
    while i < positions.len()
        invariant
            i <= positions@.len(),
            forall|p: usize| call_requires(error, (p,)),
            forall|p: usize, e: MemSubmitError| call_ensures(error, (p,), e) ==> e == made(p),
            errors@ == start + positions@.take(i as int).map_values(made),
        decreases positions.len() - i,
    {
        errors.push(error(positions[i]));
        assert(errors@ =~= start + positions@.take(i + 1).map_values(made));
        i += 1;
    }
    assert(positions@.take(i as int) =~= positions@);
}

/// The positions of declarations that name an id at or above the counter,
/// ascending.
fn unknown_positions<Id: TotalOrder<V = u64> + Copy>(
    decls: &Vec<Decl<Id>>,
    known: impl Fn(Id) -> bool,
    Ghost(counter): Ghost<u64>,
) -> (r: Vec<usize>)
    requires
        forall|id: Id| call_requires(known, (id,)),
        forall|id: Id, k: bool| call_ensures(known, (id,), k) ==> k == (id@ < counter),
    ensures
        r@ == unknown(decls@, counter, decls@.len()),
{
    let mut out: Vec<usize> = Vec::new();
    let mut i: usize = 0;
    while i < decls.len()
        invariant
            i <= decls@.len(),
            forall|id: Id| call_requires(known, (id,)),
            forall|id: Id, k: bool| call_ensures(known, (id,), k) ==> k == (id@ < counter),
            out@ == unknown(decls@, counter, i as nat),
        decreases decls.len() - i,
    {
        match decls[i] {
            Decl::Existing { id } => {
                if !known(id) {
                    out.push(i);
                }
            },
            Decl::Local => {},
        }
        i += 1;
    }
    out
}

/// Everything that a commit mentions and that is not there.
fn collect_unresolvable(inner: &Inner, commit: &MemCommit) -> (r: Vec<MemSubmitError>)
    requires
        inner.wf(),
    ensures
        r@ == unresolvable(*inner, *commit),
{
    let source = UnionSource::from_inner(inner);
    let (entity_refs, event_refs, image_refs) = collect_idx_refs(&commit.facts);
    let mut errors: Vec<MemSubmitError> = Vec::new();
    let entity_count: usize = commit.entities.len();
    let event_count: usize = commit.events.len();
    let image_count: usize = commit.images.len();
    let entity_position = |idx: EntityIdx| -> (p: usize)
        ensures
            p == idx@,
        { idx.0 };
    let entity_positions = check_refs_in_range(&entity_refs, entity_count, entity_position);
    let event_position = |idx: EventIdx| -> (p: usize)
        ensures
            p == idx@,
        { idx.0 };
    let event_positions = check_refs_in_range(&event_refs, event_count, event_position);
    let image_position = |idx: ImageIdx| -> (p: usize)
        ensures
            p == idx@,
        { idx.0 };
    let image_positions = check_refs_in_range(&image_refs, image_count, image_position);
    let entity_missing = |idx: usize| -> (e: MemSubmitError)
        ensures
            e == (SubmitError::<MemoryEntityId, MemoryEventId, MemoryImageId>::EntityIdxOutOfRange {
                idx,
                decl_count: entity_count,
            }),
        { SubmitError::EntityIdxOutOfRange { idx, decl_count: entity_count } };
    append_errors(
        &mut errors,
        &entity_positions,
        entity_missing,
        Ghost(|idx: usize| SubmitError::EntityIdxOutOfRange { idx, decl_count: entity_count }),
    );
    let event_missing = |idx: usize| -> (e: MemSubmitError)
        ensures
            e == (SubmitError::<MemoryEntityId, MemoryEventId, MemoryImageId>::EventIdxOutOfRange {
                idx,
                decl_count: event_count,
            }),
        { SubmitError::EventIdxOutOfRange { idx, decl_count: event_count } };
    append_errors(
        &mut errors,
        &event_positions,
        event_missing,
        Ghost(|idx: usize| SubmitError::EventIdxOutOfRange { idx, decl_count: event_count }),
    );
    let image_missing = |idx: usize| -> (e: MemSubmitError)
        ensures
            e == (SubmitError::<MemoryEntityId, MemoryEventId, MemoryImageId>::ImageIdxOutOfRange {
                idx,
                decl_count: image_count,
            }),
        { SubmitError::ImageIdxOutOfRange { idx, decl_count: image_count } };
    append_errors(
        &mut errors,
        &image_positions,
        image_missing,
        Ghost(|idx: usize| SubmitError::ImageIdxOutOfRange { idx, decl_count: image_count }),
    );
    let entity_known = |id: MemoryEntityId| -> (k: bool)
        ensures
            k == (id@ < source.pending.next_entity_id),
        { source.entity_known(&id) };
    let unknown_entities = unknown_positions(
        &commit.entities,
        entity_known,
        Ghost(inner.next_entity_id),
    );
    let unknown_entity = |p: usize| -> (e: MemSubmitError)
        ensures
            e == (SubmitError::<MemoryEntityId, MemoryEventId, MemoryImageId>::UnknownExistingEntity {
                decl_position: EntityIdx(p),
            }),
        { SubmitError::UnknownExistingEntity { decl_position: EntityIdx(p) } };
    append_errors(
        &mut errors,
        &unknown_entities,
        unknown_entity,
        Ghost(|p: usize| SubmitError::UnknownExistingEntity { decl_position: EntityIdx(p) }),
    );
    let event_known = |id: MemoryEventId| -> (k: bool)
        ensures
            k == (id@ < source.pending.next_event_id),
        { source.event_known(&id) };
    let unknown_events = unknown_positions(
        &commit.events,
        event_known,
        Ghost(inner.next_event_id),
    );
    let unknown_event = |p: usize| -> (e: MemSubmitError)
        ensures
            e == (SubmitError::<MemoryEntityId, MemoryEventId, MemoryImageId>::UnknownExistingEvent {
                decl_position: EventIdx(p),
            }),
        { SubmitError::UnknownExistingEvent { decl_position: EventIdx(p) } };
    append_errors(
        &mut errors,
        &unknown_events,
        unknown_event,
        Ghost(|p: usize| SubmitError::UnknownExistingEvent { decl_position: EventIdx(p) }),
    );
    let image_known = |id: MemoryImageId| -> (k: bool)
        ensures
            k == (id@ < source.pending.next_image_id),
        { source.image_known(&id) };
    let unknown_images = unknown_positions(
        &commit.images,
        image_known,
        Ghost(inner.next_image_id),
    );
    let unknown_image = |p: usize| -> (e: MemSubmitError)
        ensures
            e == (SubmitError::<MemoryEntityId, MemoryEventId, MemoryImageId>::UnknownExistingImage {
                decl_position: ImageIdx(p),
            }),
        { SubmitError::UnknownExistingImage { decl_position: ImageIdx(p) } };
    append_errors(
        &mut errors,
        &unknown_images,
        unknown_image,
        Ghost(|p: usize| SubmitError::UnknownExistingImage { decl_position: ImageIdx(p) }),
    );
    assert(errors@ =~= unresolvable(*inner, *commit));
    errors
}

/// Whether a commit landed before or mentions what is not there.
pub fn open_commit(inner: &Inner, commit_id: &CommitId, commit: &MemCommit) -> (r: Opening)
    requires
        inner.wf(),
    ensures
        answered(inner.submit_results@, commit_id@) ==> (r matches Opening::Landed(result) && exists|
            k: int,
        |
            0 <= k < inner.submit_results@.len() && (
            #[trigger] inner.submit_results@[k]).commit_id@ == commit_id@ && result@ == (Answer {
                previously_committed: true,
                ..inner.submit_results@[k]@
            })),
        !answered(inner.submit_results@, commit_id@) && unresolvable(*inner, *commit).len() > 0 ==> (
        r matches Opening::Refused(batch) && batch@ == unresolvable(*inner, *commit)),
        !answered(inner.submit_results@, commit_id@) && unresolvable(*inner, *commit).len() == 0
            ==> r is Open,
{
    match inner.find_result(commit_id) {
        Some(cached) => {
            proof {
                let k = inner.submit_results@.index_of(*cached);
                assert(inner.submit_results@[k] == *cached);
            }
            return Opening::Landed(cached.repeated(true));
        },
        None => {},
    }
    match NonEmptyVec::try_from_vec(collect_unresolvable(inner, commit)) {
        Ok(batch) => Opening::Refused(batch),
        Err(_) => Opening::Open,
    }
}

// --- Second step: ids for the declarations, facts with ids ---

/// What came out of each fact, and what did not.
pub open spec fn successes(results: Seq<Result<MemStoredFact, MemSubmitError>>) -> Seq<
    MemStoredFact,
>
    decreases results.len(),
{
    if results.len() == 0 {
        Seq::empty()
    } else {
        let rest = successes(results.drop_last());
        match results.last() {
            Ok(fact) => rest.push(fact),
            Err(_) => rest,
        }
    }
}

/// The errors of the facts that have one.
pub open spec fn failures(results: Seq<Result<MemStoredFact, MemSubmitError>>) -> Seq<
    MemSubmitError,
>
    decreases results.len(),
{
    if results.len() == 0 {
        Seq::empty()
    } else {
        let rest = failures(results.drop_last());
        match results.last() {
            Ok(_) => rest,
            Err(error) => rest.push(error),
        }
    }
}

/// Whether `results` are what substitution makes of the facts.
pub open spec fn all_substituted(
    facts: Seq<SubmitFact>,
    tables: Tables,
    results: Seq<Result<MemStoredFact, MemSubmitError>>,
) -> bool {
    &&& results.len() == facts.len()
    &&& forall|k: int|
        0 <= k < facts.len() ==> substitution(facts[k], tables, #[trigger] results[k])
}

/// Every fact comes out or gives one error.
pub proof fn law_substitution_partitions(results: Seq<Result<MemStoredFact, MemSubmitError>>)
    ensures
        successes(results).len() + failures(results).len() == results.len(),
    decreases results.len(),
{
    if results.len() > 0 {
        law_substitution_partitions(results.drop_last());
    }
}

/// Where no fact fails, each comes out at its place.
pub proof fn lemma_no_failure(results: Seq<Result<MemStoredFact, MemSubmitError>>)
    requires
        failures(results).len() == 0,
    ensures
        successes(results).len() == results.len(),
        forall|k: int|
            0 <= k < results.len() ==> #[trigger] results[k] == Ok::<MemStoredFact, MemSubmitError>(
                successes(results)[k],
            ),
    decreases results.len(),
{
    if results.len() > 0 {
        lemma_no_failure(results.drop_last());
        assert forall|k: int| 0 <= k < results.len() implies #[trigger] results[k] == Ok::<
            MemStoredFact,
            MemSubmitError,
        >(successes(results)[k]) by {
            if k < results.len() - 1 {
                assert(results.drop_last()[k] == results[k]);
            }
        }
    }
}

/// Substitute in all facts: those that come out, in order, and an error for each
/// of the others.
pub fn substitute_facts_accumulating(
    facts: Vec<SubmitFact>,
    entities: &Vec<Resolution<MemoryEntityId>>,
    events: &Vec<Resolution<MemoryEventId>>,
    images: &Vec<Resolution<MemoryImageId>>,
) -> (r: (Vec<MemStoredFact>, Vec<MemSubmitError>))
    ensures
        exists|results: Seq<Result<MemStoredFact, MemSubmitError>>| #[trigger]
            all_substituted(facts@, tables_of(entities@, events@, images@), results) && r.0@
                == successes(results) && r.1@ == failures(results),
        r.0@.len() <= facts@.len(),
{
    let ghost all = facts@;
    let ghost tables = tables_of(entities@, events@, images@);
    let ghost mut results: Seq<Result<MemStoredFact, MemSubmitError>> = Seq::empty();
    let mut out: Vec<MemStoredFact> = Vec::new();
    let mut errors: Vec<MemSubmitError> = Vec::new();
    for fact in iter: facts
        invariant
            iter.seq() == all,
            tables == tables_of(entities@, events@, images@),
            results.len() == iter.index(),
            forall|k: int|
                0 <= k < results.len() ==> substitution(all[k], tables, #[trigger] results[k]),
            out@ == successes(results),
            errors@ == failures(results),
            out@.len() <= iter.index(),
    {
        let ghost before = results;
        let result = substitute_fact(fact, entities, events, images);
        proof {
            results = before.push(result);
            assert(results.drop_last() =~= before);
            assert(results.last() == result);
        }
        match result {
            Ok(fact) => out.push(fact),
            Err(error) => errors.push(error),
        }
    }
    assert(all_substituted(all, tables, results));
    (out, errors)
}

/// The errors of declaring what no fact mentions.
pub open spec fn unused_errors(kind: SubjectKind, positions: Seq<usize>) -> Seq<MemSubmitError> {
    positions.map_values(|position: usize| SubmitError::UnusedDeclaration { kind, position })
}

/// The errors of declaring an entity twice.
pub open spec fn duplicate_entity_errors(ids: Seq<u64>) -> Seq<MemSubmitError> {
    ids.map_values(|id: u64| SubmitError::DuplicateEntityDecl { id: MemoryEntityId(id) })
}

/// The errors of declaring an event twice.
pub open spec fn duplicate_event_errors(ids: Seq<u64>) -> Seq<MemSubmitError> {
    ids.map_values(|id: u64| SubmitError::DuplicateEventDecl { id: MemoryEventId(id) })
}

/// The errors of declaring an image twice.
pub open spec fn duplicate_image_errors(ids: Seq<u64>) -> Seq<MemSubmitError> {
    ids.map_values(|id: u64| SubmitError::DuplicateImageDecl { id: MemoryImageId(id) })
}

/// What is wrong with the declarations of a commit: those that no fact mentions,
/// and those that came to one id.
pub open spec fn declaration_errors(
    facts: Seq<SubmitFact>,
    entity_count: nat,
    event_count: nat,
    image_count: nat,
    tables: Tables,
) -> Seq<MemSubmitError> {
    unused_errors(SubjectKind::Entity, unused(entity_refs(facts), entity_count)) + unused_errors(
        SubjectKind::Event,
        unused(event_refs(facts), event_count),
    ) + unused_errors(SubjectKind::Image, unused(image_refs(facts), image_count))
        + duplicate_entity_errors(repeated_ids(tables.entities)) + duplicate_event_errors(
        repeated_ids(tables.events),
    ) + duplicate_image_errors(repeated_ids(tables.images))
}

/// A commit that was prepared: its delta, what its declarations came to, and what
/// is wrong with it so far.
#[derive(Debug)]
pub struct Delta {
    /// What it would add.
    pub pending: Pending,
    /// What each entity declaration came to.
    pub entities: Vec<Resolution<MemoryEntityId>>,
    /// What each event declaration came to.
    pub events: Vec<Resolution<MemoryEventId>>,
    /// What each image declaration came to.
    pub images: Vec<Resolution<MemoryImageId>>,
    /// What is wrong with it.
    pub errors: Vec<MemSubmitError>,
    /// Who hands it in.
    pub author: CommitAuthor,
    /// When it was recorded.
    pub recorded_at: i64,
    /// The judgments on what its declarations were recognized as.
    pub companion: Vec<MemStoredFact>,
    /// The matcher that recognized them.
    pub process: AnalyzerProcess,
    /// Its version.
    pub version: AnalyzerVersion,
}

impl Delta {
    /// The delta is consistent with the state it would be added to, and there are
    /// ids for its facts and its judgments.
    pub open spec fn wf(self, inner: Inner) -> bool {
        &&& self.pending.wf(inner)
        &&& inner.facts@.len() + self.pending.facts@.len() + self.companion@.len() <= u64::MAX
    }
}

/// Whether there are ids for the facts of a commit, and for a judgment on each of its
/// declarations.
pub open spec fn has_room(inner: Inner, commit: MemCommit) -> bool {
    inner.facts@.len() + commit.facts@.len() + commit.entities@.len() + commit.images@.len()
        <= u64::MAX
}

/// Whether `delta` is what staging makes of a commit, given what the matcher made
/// of its entities and images. Events are never matched.
pub open spec fn staged(inner: Inner, commit: MemCommit, matching: Matching, delta: Delta) -> bool {
    let tables = tables_of(delta.entities@, delta.events@, delta.images@);
    &&& delta.wf(inner)
    &&& all_resolved(
        commit.entities@,
        matching.entities@,
        inner.next_entity_id,
        resolution_views(delta.entities@),
    )
    &&& all_resolved(
        commit.events@,
        Seq::<Option<MatchOutcome<MemoryEventId>>>::empty(),
        inner.next_event_id,
        resolution_views(delta.events@),
    )
    &&& all_resolved(
        commit.images@,
        matching.images@,
        inner.next_image_id,
        resolution_views(delta.images@),
    )
    &&& delta.pending.next_entity_id == counter_after(
        commit.entities@,
        inner.next_entity_id,
        commit.entities@.len(),
    )
    &&& delta.pending.next_event_id == counter_after(
        commit.events@,
        inner.next_event_id,
        commit.events@.len(),
    )
    &&& delta.pending.next_image_id == counter_after(
        commit.images@,
        inner.next_image_id,
        commit.images@.len(),
    )
    &&& exists|results: Seq<Result<MemStoredFact, MemSubmitError>>| #[trigger]
        all_substituted(commit.facts@, tables, results) && delta.pending.facts@ == successes(
            results,
        ) && delta.errors@ == failures(results) + declaration_errors(
            commit.facts@,
            commit.entities@.len(),
            commit.events@.len(),
            commit.images@.len(),
            tables,
        )
    &&& delta.author == commit.author
    &&& delta.recorded_at == commit.recorded_at
    &&& companion_of(
        links_of(
            commit.entities@,
            matching.entities@,
            inner.next_entity_id,
            commit.entities@.len(),
        ),
        links_of(commit.images@, matching.images@, inner.next_image_id, commit.images@.len()),
        matching.process,
        matching.version,
        inner.facts@.len(),
        delta.companion@,
    )
    &&& delta.process == matching.process
    &&& delta.version == matching.version
}

/// Give the declarations of a commit their ids, and prepare its facts and the
/// judgments on what its declarations were recognized as.
pub fn stage(inner: &Inner, commit: MemCommit, matching: Matching) -> (r: Delta)
    requires
        inner.wf(),
        has_room(*inner, commit),
    ensures
        staged(*inner, commit, matching, r),
{
    let Matching { entities: entity_outcomes, images: image_outcomes, process, version } = matching;
    let ghost whole = commit;
    let (entity_refs, event_refs, image_refs) = collect_idx_refs(&commit.facts);
    let new_entity = |n: u64| -> (id: MemoryEntityId)
        ensures
            id@ == n,
        { MemoryEntityId(n) };
    let new_event = |n: u64| -> (id: MemoryEventId)
        ensures
            id@ == n,
        { MemoryEventId(n) };
    let new_image = |n: u64| -> (id: MemoryImageId)
        ensures
            id@ == n,
        { MemoryImageId(n) };
    let no_outcomes: Vec<Option<MatchOutcome<MemoryEventId>>> = Vec::new();
    assert(no_outcomes@ =~= Seq::<Option<MatchOutcome<MemoryEventId>>>::empty());
    let (entities, next_entity_id, entity_links) = resolve_decls(
        &commit.entities,
        entity_outcomes,
        new_entity,
        inner.next_entity_id,
    );
    let (events, next_event_id, _) = resolve_decls(
        &commit.events,
        no_outcomes,
        new_event,
        inner.next_event_id,
    );
    let (images, next_image_id, image_links) = resolve_decls(
        &commit.images,
        image_outcomes,
        new_image,
        inner.next_image_id,
    );
    let ghost tables = tables_of(entities@, events@, images@);
    let mut source = UnionSource::from_inner(inner);
    source.pending.next_entity_id = next_entity_id;
    source.pending.next_event_id = next_event_id;
    source.pending.next_image_id = next_image_id;
    let entity_count: usize = commit.entities.len();
    let event_count: usize = commit.events.len();
    let image_count: usize = commit.images.len();
    let author = commit.author;
    let recorded_at: i64 = commit.recorded_at;
    let (facts, loops) = substitute_facts_accumulating(commit.facts, &entities, &events, &images);
    let ghost results = choose|results: Seq<Result<MemStoredFact, MemSubmitError>>| #[trigger]
        all_substituted(whole.facts@, tables, results) && facts@ == successes(results) && loops@
            == failures(results);
    let ghost all = facts@;
    assert(source.pending.facts@ =~= all.take(0));
    for fact in iter: facts
        invariant
            iter.seq() == all,
            source.wf(),
            *source.committed == *inner,
            inner.facts@.len() + all.len() <= u64::MAX,
            source.pending.facts@ == all.take(iter.index() as int),
            source.pending.next_entity_id == next_entity_id,
            source.pending.next_event_id == next_event_id,
            source.pending.next_image_id == next_image_id,
    {
        let ghost i = iter.index() as int;
        source.push_fact(fact);
        assert(source.pending.facts@ =~= all.take(i + 1));
    }
    assert(all.take(all.len() as int) =~= all);
    let mut errors = loops;
    let entity_idx = |p: usize| -> (idx: EntityIdx)
        ensures
            idx@ == p,
        { EntityIdx(p) };
    let event_idx = |p: usize| -> (idx: EventIdx)
        ensures
            idx@ == p,
        { EventIdx(p) };
    let image_idx = |p: usize| -> (idx: ImageIdx)
        ensures
            idx@ == p,
        { ImageIdx(p) };
    let unused_entities = check_all_decls_referenced(&entity_refs, entity_count, entity_idx);
    let unused_events = check_all_decls_referenced(&event_refs, event_count, event_idx);
    let unused_images = check_all_decls_referenced(&image_refs, image_count, image_idx);
    append_unused(&mut errors, SubjectKind::Entity, &unused_entities);
    append_unused(&mut errors, SubjectKind::Event, &unused_events);
    append_unused(&mut errors, SubjectKind::Image, &unused_images);
    let twice_entities = duplicate_resolved_ids(&entities);
    let twice_events = duplicate_resolved_ids(&events);
    let twice_images = duplicate_resolved_ids(&images);
    append_duplicate_entities(&mut errors, &twice_entities);
    append_duplicate_events(&mut errors, &twice_events);
    append_duplicate_images(&mut errors, &twice_images);
    assert(errors@ =~= failures(results) + declaration_errors(
        whole.facts@,
        whole.entities@.len(),
        whole.events@.len(),
        whole.images@.len(),
        tables,
    ));
    let companion = companion_judgments(
        entity_links,
        image_links,
        &process,
        &version,
        inner.next_fact_id(),
    );
    Delta {
        pending: source.into_pending(),
        entities,
        events,
        images,
        errors,
        author,
        recorded_at,
        companion,
        process,
        version,
    }
}

/// Append the errors of declaring what no fact mentions.
fn append_unused(errors: &mut Vec<MemSubmitError>, kind: SubjectKind, positions: &Vec<usize>)
    ensures
        final(errors)@ == old(errors)@ + unused_errors(kind, positions@),
{
    let error = |position: usize| -> (e: MemSubmitError)
        ensures
            e == (SubmitError::<MemoryEntityId, MemoryEventId, MemoryImageId>::UnusedDeclaration {
                kind,
                position,
            }),
        { SubmitError::UnusedDeclaration { kind, position } };
    append_errors(
        errors,
        positions,
        error,
        Ghost(|position: usize| SubmitError::UnusedDeclaration { kind, position }),
    );
}

/// Append the errors of declaring an entity twice.
fn append_duplicate_entities(errors: &mut Vec<MemSubmitError>, ids: &Vec<MemoryEntityId>)
    ensures
        final(errors)@ == old(errors)@ + duplicate_entity_errors(keys(ids@)),
{
    let ghost start = errors@;
    let ghost all = keys(ids@);
    let mut i: usize = 0;
    assert(start + duplicate_entity_errors(all.take(0)) =~= start);
    while i < ids.len()
        invariant
            i <= ids@.len(),
            all == keys(ids@),
            errors@ == start + duplicate_entity_errors(all.take(i as int)),
        decreases ids.len() - i,
    {
        let id = ids[i];
        errors.push(SubmitError::DuplicateEntityDecl { id });
        assert(all[i as int] == id@);
        assert(errors@ =~= start + duplicate_entity_errors(all.take(i + 1)));
        i += 1;
    }
    assert(all.take(i as int) =~= all);
}

/// Append the errors of declaring an event twice.
fn append_duplicate_events(errors: &mut Vec<MemSubmitError>, ids: &Vec<MemoryEventId>)
    ensures
        final(errors)@ == old(errors)@ + duplicate_event_errors(keys(ids@)),
{
    let ghost start = errors@;
    let ghost all = keys(ids@);
    let mut i: usize = 0;
    assert(start + duplicate_event_errors(all.take(0)) =~= start);
    while i < ids.len()
        invariant
            i <= ids@.len(),
            all == keys(ids@),
            errors@ == start + duplicate_event_errors(all.take(i as int)),
        decreases ids.len() - i,
    {
        let id = ids[i];
        errors.push(SubmitError::DuplicateEventDecl { id });
        assert(all[i as int] == id@);
        assert(errors@ =~= start + duplicate_event_errors(all.take(i + 1)));
        i += 1;
    }
    assert(all.take(i as int) =~= all);
}

/// Append the errors of declaring an image twice.
fn append_duplicate_images(errors: &mut Vec<MemSubmitError>, ids: &Vec<MemoryImageId>)
    ensures
        final(errors)@ == old(errors)@ + duplicate_image_errors(keys(ids@)),
{
    let ghost start = errors@;
    let ghost all = keys(ids@);
    let mut i: usize = 0;
    assert(start + duplicate_image_errors(all.take(0)) =~= start);
    while i < ids.len()
        invariant
            i <= ids@.len(),
            all == keys(ids@),
            errors@ == start + duplicate_image_errors(all.take(i as int)),
        decreases ids.len() - i,
    {
        let id = ids[i];
        errors.push(SubmitError::DuplicateImageDecl { id });
        assert(all[i as int] == id@);
        assert(errors@ =~= start + duplicate_image_errors(all.take(i + 1)));
        i += 1;
    }
    assert(all.take(i as int) =~= all);
}

// --- Third step: turned down, or landed ---

/// Whether a commit landed: `after` is the state with it, and `answer` what it is
/// answered, save for the companion that it may name.
pub open spec fn landed(
    before: Inner,
    after: Inner,
    commit_id: Seq<char>,
    delta: Delta,
    answer: Answer<MemoryEntityId, MemoryEventId, MemoryImageId>,
) -> bool {
    let count = before.facts@.len();
    let ids = ids_from(count, delta.pending.facts@.len());
    &&& after.facts@ == before.facts@ + delta.pending.facts@
    &&& after.fact_commits@.len() == after.facts@.len()
    &&& after.fact_commits@.take(count as int) == before.fact_commits@
    &&& forall|i: int|
        count <= i < after.fact_commits@.len() ==> (#[trigger] after.fact_commits@[i])@ == commit_id
    &&& after.next_entity_id == delta.pending.next_entity_id
    &&& after.next_event_id == delta.pending.next_event_id
    &&& after.next_image_id == delta.pending.next_image_id
    &&& after.commits@.len() == before.commits@.len() + 1
    &&& after.commits@.drop_last() == before.commits@
    &&& after.commits@.last().commit_id@ == commit_id
    &&& after.commits@.last().author == delta.author
    &&& after.commits@.last().recorded_at == delta.recorded_at
    &&& keys(after.commits@.last().fact_ids@) == ids
    &&& after.submit_results@.len() == before.submit_results@.len() + 1
    &&& after.submit_results@.drop_last() == before.submit_results@
    &&& after.submit_results@.last()@ == answer
    &&& answer == (Answer {
        commit_id,
        previously_committed: false,
        fact_ids: ids,
        entities: resolution_views(delta.entities@),
        events: resolution_views(delta.events@),
        images: resolution_views(delta.images@),
        companion_commit_id: answer.companion_commit_id,
    })
}

/// Whether a commit is the companion of a prepared commit that has just landed: it
/// holds the judgments of the matcher, who hands it in at the time of the other, and
/// declares nothing.
pub open spec fn accompanies(delta: Delta, landed_in: Inner, companion: Delta) -> bool {
    &&& companion.pending.facts@ == delta.companion@
    &&& companion.pending.next_entity_id == landed_in.next_entity_id
    &&& companion.pending.next_event_id == landed_in.next_event_id
    &&& companion.pending.next_image_id == landed_in.next_image_id
    &&& companion.entities@.len() == 0
    &&& companion.events@.len() == 0
    &&& companion.images@.len() == 0
    &&& companion.author == (CommitAuthor::Analyzer {
        process: delta.process,
        version: delta.version,
    })
    &&& companion.recorded_at == delta.recorded_at
}

/// Whether a companion landed after its commit.
pub open spec fn companion_landed(
    between: Inner,
    after: Inner,
    companion_id: Seq<char>,
    delta: Delta,
    companion: Delta,
    reply: Answer<MemoryEntityId, MemoryEventId, MemoryImageId>,
) -> bool {
    &&& between.wf()
    &&& accompanies(delta, between, companion)
    &&& landed(between, after, companion_id, companion, reply)
    &&& reply.companion_commit_id is None
}

/// Whether a commit landed, and right after it its companion, where there are any
/// judgments for one; the answer names it.
pub open spec fn settled(
    before: Inner,
    after: Inner,
    commit_id: Seq<char>,
    companion_id: Seq<char>,
    delta: Delta,
    answer: Answer<MemoryEntityId, MemoryEventId, MemoryImageId>,
) -> bool {
    if delta.companion@.len() == 0 {
        &&& landed(before, after, commit_id, delta, answer)
        &&& answer.companion_commit_id is None
    } else {
        &&& answer.companion_commit_id == Some(companion_id)
        &&& exists|
            between: Inner,
            companion: Delta,
            reply: Answer<MemoryEntityId, MemoryEventId, MemoryImageId>,
        |
            landed(before, between, commit_id, delta, answer) && #[trigger] companion_landed(
                between,
                after,
                companion_id,
                delta,
                companion,
                reply,
            )
    }
}

/// Whether an id can be that of the companion of a commit: no commit has it, nor the
/// commit itself.
pub open spec fn is_free(inner: Inner, commit_id: Seq<char>, companion_id: Seq<char>) -> bool {
    &&& !recorded(inner.commits@, companion_id)
    &&& commit_id != companion_id
}

/// Let a prepared commit land.
fn land(
    inner: &mut Inner,
    commit_id: CommitId,
    companion_commit_id: Option<CommitId>,
    delta: Delta,
) -> (r: MemSubmitResult)
    requires
        old(inner).wf(),
        delta.pending.wf(*old(inner)),
        !recorded(old(inner).commits@, commit_id@),
    ensures
        final(inner).wf(),
        landed(*old(inner), *final(inner), commit_id@, delta, r@),
        r@.companion_commit_id == commit_view(companion_commit_id),
{
    let ghost before = *inner;
    let ghost prepared = delta;
    let Delta { pending, entities, events, images, author, recorded_at, .. } = delta;
    let fact_ids = apply_pending(inner, pending, &commit_id);
    let stored_ids = copy_ids(&fact_ids);
    inner.commits.push(
        StoredCommit { commit_id: commit_id.clone(), author, recorded_at, fact_ids: stored_ids },
    );
    let result = MemSubmitResult {
        commit_id,
        previously_committed: false,
        fact_ids,
        entities,
        events,
        images,
        companion_commit_id,
    };
    inner.submit_results.push(result.repeated(false));
    proof {
        let n = before.facts@.len();
        assert(inner.fact_commits@.take(n as int) =~= before.fact_commits@);
        assert(inner.commits@.drop_last() =~= before.commits@);
        assert(inner.submit_results@.drop_last() =~= before.submit_results@);
        lemma_commit_kept(before, *inner, commit_id, prepared.pending.facts@.len());
    }
    result
}

/// Prepare the companion of a commit that has just landed.
fn stage_companion(
    inner: &Inner,
    judgments: Vec<MemStoredFact>,
    process: AnalyzerProcess,
    version: AnalyzerVersion,
    recorded_at: i64,
) -> (r: Delta)
    requires
        inner.wf(),
        inner.facts@.len() + judgments@.len() <= u64::MAX,
    ensures
        r.pending.wf(*inner),
        forall|delta: Delta|
            delta.companion == judgments && delta.process == process && delta.version == version
                && delta.recorded_at == recorded_at ==> #[trigger] accompanies(delta, *inner, r),
{
    let ghost all = judgments@;
    let mut source = UnionSource::from_inner(inner);
    assert(source.pending.facts@ =~= all.take(0));
    for fact in iter: judgments
        invariant
            iter.seq() == all,
            source.wf(),
            *source.committed == *inner,
            inner.facts@.len() + all.len() <= u64::MAX,
            source.pending.facts@ == all.take(iter.index() as int),
            source.pending.next_entity_id == inner.next_entity_id,
            source.pending.next_event_id == inner.next_event_id,
            source.pending.next_image_id == inner.next_image_id,
    {
        let ghost i = iter.index() as int;
        source.push_fact(fact);
        assert(source.pending.facts@ =~= all.take(i + 1));
    }
    assert(all.take(all.len() as int) =~= all);
    Delta {
        pending: source.into_pending(),
        entities: Vec::new(),
        events: Vec::new(),
        images: Vec::new(),
        errors: Vec::new(),
        author: CommitAuthor::Analyzer { process: process.clone(), version: version.clone() },
        recorded_at,
        companion: Vec::new(),
        process,
        version,
    }
}

/// Turn a prepared commit down where anything is wrong with it, or let it land, and
/// its companion after it. `violations` are the rules it breaks.
pub fn settle(
    inner: &mut Inner,
    commit_id: CommitId,
    companion_id: CommitId,
    delta: Delta,
    violations: Vec<MemSubmitError>,
) -> (r: Result<MemSubmitResult, NonEmptyVec<MemSubmitError>>)
    requires
        old(inner).wf(),
        delta.wf(*old(inner)),
        !recorded(old(inner).commits@, commit_id@),
        delta.companion@.len() > 0 ==> is_free(*old(inner), commit_id@, companion_id@),
    ensures
        final(inner).wf(),
        (delta.errors@ + violations@).len() > 0 ==> r is Err && r->Err_0@ == delta.errors@
            + violations@ && *final(inner) == *old(inner),
        (delta.errors@ + violations@).len() == 0 ==> r is Ok && settled(
            *old(inner),
            *final(inner),
            commit_id@,
            companion_id@,
            delta,
            r->Ok_0@,
        ),
{
    let ghost before = *inner;
    let ghost prepared = delta;
    let Delta {
        pending,
        entities,
        events,
        images,
        errors,
        author,
        recorded_at,
        companion,
        process,
        version,
    } = delta;
    let mut batch = errors;
    let mut more = violations;
    batch.append(&mut more);
    match NonEmptyVec::try_from_vec(batch) {
        Ok(batch) => {
            return Err(batch);
        },
        Err(_) => {},
    }
    let own = Delta {
        pending,
        entities,
        events,
        images,
        errors: Vec::new(),
        author,
        recorded_at,
        companion: Vec::new(),
        process: process.clone(),
        version: version.clone(),
    };
    if companion.len() == 0 {
        return Ok(land(inner, commit_id, None, own));
    }
    let result = land(inner, commit_id, Some(companion_id.clone()), own);
    let ghost between = *inner;
    assert(landed(before, between, commit_id@, prepared, result@));
    assert(!recorded(between.commits@, companion_id@)) by {
        if recorded(between.commits@, companion_id@) {
            let k = choose|k: int|
                0 <= k < between.commits@.len() && (#[trigger] between.commits@[k]).commit_id@
                    == companion_id@;
            assert(k < before.commits@.len());
            assert(between.commits@.drop_last()[k] == between.commits@[k]);
            assert(before.commits@[k].commit_id@ == companion_id@);
        }
    }
    let staged = stage_companion(inner, companion, process, version, recorded_at);
    let ghost judged = staged;
    assert(accompanies(prepared, between, judged));
    let reply = land(inner, companion_id, None, staged);
    assert(companion_landed(between, *inner, companion_id@, prepared, judged, reply@));
    Ok(result)
}

/// The state with one more commit keeps its commits.
proof fn lemma_commit_kept(before: Inner, after: Inner, id: CommitId, count: nat)
    requires
        before.wf(),
        !recorded(before.commits@, id@),
        before.facts@.len() + count <= u64::MAX,
        after.fact_commits@ == before.fact_commits@ + Seq::new(count, |i: int| id),
        after.commits@.len() == before.commits@.len() + 1,
        after.commits@.drop_last() == before.commits@,
        after.commits@.last().commit_id@ == id@,
        keys(after.commits@.last().fact_ids@) == ids_from(before.facts@.len(), count),
        after.submit_results@.len() == before.submit_results@.len() + 1,
        after.submit_results@.drop_last() == before.submit_results@,
        after.submit_results@.last().commit_id@ == id@,
        !after.submit_results@.last().previously_committed,
    ensures
        after.commits_kept(),
{
    let n = before.commits@.len() as int;
    let m = before.submit_results@.len() as int;
    let base = before.facts@.len();
    let ids = ids_from(base, count);
    assert forall|k: int| 0 <= k < n implies #[trigger] after.commits@[k] == before.commits@[k] by {
        assert(after.commits@.drop_last()[k] == after.commits@[k]);
    }
    assert forall|k: int| 0 <= k < m implies #[trigger] after.submit_results@[k]
        == before.submit_results@[k] by {
        assert(after.submit_results@.drop_last()[k] == after.submit_results@[k]);
    }
    assert forall|a: int, b: int| 0 <= a < b < after.commits@.len() implies (
    #[trigger] after.commits@[a]).commit_id@ != (#[trigger] after.commits@[b]).commit_id@ by {
        assert(after.commits@[a] == before.commits@[a]);
        if b == n {
            assert(recorded(before.commits@, before.commits@[a].commit_id@));
        } else {
            assert(before.commits@[a].commit_id@ != before.commits@[b].commit_id@);
        }
    }
    assert forall|k: int|
        #![trigger after.commits@[k]]
        0 <= k < after.commits@.len() implies keys(after.commits@[k].fact_ids@).to_set()
        == facts_of_commit(after.fact_commits@, after.commits@[k].commit_id@) by {
        let own = after.commits@[k].commit_id@;
        let old_set = facts_of_commit(before.fact_commits@, own);
        let new_set = facts_of_commit(after.fact_commits@, own);
        if k < n {
            assert(before.commits@[k].commit_id@ == own);
            assert(own != id@) by {
                assert(recorded(before.commits@, own));
            }
            assert forall|i: u64| old_set.contains(i) <==> new_set.contains(i) by {
                if i < base {
                    assert(after.fact_commits@[i as int] == before.fact_commits@[i as int]);
                } else if i < after.fact_commits@.len() {
                    assert(after.fact_commits@[i as int] == id);
                }
            }
            assert(old_set =~= new_set);
        } else {
            assert forall|i: u64| ids.to_set().contains(i) <==> new_set.contains(i) by {
                if i < base {
                    assert(after.fact_commits@[i as int] == before.fact_commits@[i as int]);
                    assert(recorded(before.commits@, before.fact_commits@[i as int]@));
                } else if i < after.fact_commits@.len() {
                    assert(after.fact_commits@[i as int] == id);
                    assert(ids[i - base] == i);
                }
                if ids.contains(i) {
                    let j = ids.index_of(i);
                    assert(i == base + j);
                }
            }
            assert(ids.to_set() =~= new_set);
        }
    }
    assert(after.commits@[n].commit_id@ == id@);
    assert(after.submit_results@[m].commit_id@ == id@);
    assert forall|i: int| 0 <= i < after.fact_commits@.len() implies recorded(
        after.commits@,
        (#[trigger] after.fact_commits@[i])@,
    ) by {
        if i < base {
            assert(recorded(before.commits@, before.fact_commits@[i]@));
            let k = choose|k: int|
                0 <= k < before.commits@.len() && (#[trigger] before.commits@[k]).commit_id@
                    == before.fact_commits@[i]@;
            assert(after.commits@[k].commit_id@ == after.fact_commits@[i]@);
        } else {
            assert(after.fact_commits@[i] == id);
        }
    }
    assert forall|x: Seq<char>| #[trigger] recorded(after.commits@, x) <==> answered(
        after.submit_results@,
        x,
    ) by {
        assert(recorded(before.commits@, x) <==> answered(before.submit_results@, x));
        if recorded(after.commits@, x) {
            let k = choose|k: int|
                0 <= k < after.commits@.len() && (#[trigger] after.commits@[k]).commit_id@ == x;
            if k < n {
                assert(before.commits@[k].commit_id@ == x);
                let j = choose|j: int|
                    0 <= j < m && (#[trigger] before.submit_results@[j]).commit_id@ == x;
                assert(after.submit_results@[j].commit_id@ == x);
            }
        }
        if answered(after.submit_results@, x) {
            let j = choose|j: int|
                0 <= j < after.submit_results@.len() && (
                #[trigger] after.submit_results@[j]).commit_id@ == x;
            if j < m {
                assert(before.submit_results@[j].commit_id@ == x);
                let k = choose|k: int|
                    0 <= k < n && (#[trigger] before.commits@[k]).commit_id@ == x;
                assert(after.commits@[k].commit_id@ == x);
            }
        }
    }
    assert forall|a: int, b: int| 0 <= a < b < after.submit_results@.len() implies (
    #[trigger] after.submit_results@[a]).commit_id@ != (
    #[trigger] after.submit_results@[b]).commit_id@ by {
        assert(after.submit_results@[a] == before.submit_results@[a]);
        if b == m {
            assert(answered(before.submit_results@, before.submit_results@[a].commit_id@));
            assert(recorded(before.commits@, before.submit_results@[a].commit_id@));
        } else {
            assert(before.submit_results@[a].commit_id@ != before.submit_results@[b].commit_id@);
        }
    }
}

// --- All steps in one ---

/// What a call came to, as a value.
pub open spec fn outcome_view(
    r: Result<MemSubmitResult, NonEmptyVec<MemSubmitError>>,
) -> Result<Answer<MemoryEntityId, MemoryEventId, MemoryImageId>, Seq<MemSubmitError>> {
    match r {
        Ok(result) => Ok(result@),
        Err(batch) => Err(batch@),
    }
}

/// Whether a matcher recognized any declaration of a commit, so that a companion
/// arises.
pub open spec fn is_accompanied(inner: Inner, commit: MemCommit, matching: Matching) -> bool {
    ||| links_of(
        commit.entities@,
        matching.entities@,
        inner.next_entity_id,
        commit.entities@.len(),
    ).len() > 0
    ||| links_of(
        commit.images@,
        matching.images@,
        inner.next_image_id,
        commit.images@.len(),
    ).len() > 0
}

/// Whether a commit can be submitted. One that landed before or mentions what is not
/// there always can. For any other there are ids for its facts and judgments, and
/// where a companion arises, the id for that is free.
pub open spec fn can_submit(
    before: Inner,
    commit_id: Seq<char>,
    companion_id: Seq<char>,
    commit: MemCommit,
    matching: Matching,
) -> bool {
    ||| answered(before.submit_results@, commit_id)
    ||| unresolvable(before, commit).len() > 0
    ||| has_room(before, commit) && (is_accompanied(before, commit, matching) ==> is_free(
        before,
        commit_id,
        companion_id,
    ))
}

/// What submitting a commit does and what it is answered.
pub open spec fn submission(
    before: Inner,
    after: Inner,
    commit_id: Seq<char>,
    companion_id: Seq<char>,
    commit: MemCommit,
    matching: Matching,
    violations: Seq<MemSubmitError>,
    outcome: Result<Answer<MemoryEntityId, MemoryEventId, MemoryImageId>, Seq<MemSubmitError>>,
) -> bool {
    if answered(before.submit_results@, commit_id) {
        &&& after == before
        &&& outcome is Ok
        &&& exists|k: int|
            0 <= k < before.submit_results@.len() && (
            #[trigger] before.submit_results@[k]).commit_id@ == commit_id && outcome->Ok_0 == (
            Answer { previously_committed: true, ..before.submit_results@[k]@ })
    } else if unresolvable(before, commit).len() > 0 {
        &&& after == before
        &&& outcome is Err
        &&& outcome->Err_0 == unresolvable(before, commit)
    } else {
        exists|delta: Delta| #[trigger]
            staged(before, commit, matching, delta) && {
                let errors = delta.errors@ + violations;
                if errors.len() > 0 {
                    after == before && outcome is Err && outcome->Err_0 == errors
                } else {
                    outcome is Ok && settled(
                        before,
                        after,
                        commit_id,
                        companion_id,
                        delta,
                        outcome->Ok_0,
                    )
                }
            }
    }
}

/// Whether a state keeps an answer for a commit: handing it in again gives that.
pub open spec fn kept_answer(
    inner: Inner,
    commit_id: Seq<char>,
    answer: Answer<MemoryEntityId, MemoryEventId, MemoryImageId>,
) -> bool {
    exists|k: int|
        0 <= k < inner.submit_results@.len() && (
        #[trigger] inner.submit_results@[k]).commit_id@ == commit_id && inner.submit_results@[k]@
            == (Answer { previously_committed: false, ..answer })
}

/// Landing a commit, and its companion, keeps the answers of the past and the new one.
pub proof fn lemma_settled_keeps_answers(
    before: Inner,
    after: Inner,
    commit_id: Seq<char>,
    companion_id: Seq<char>,
    delta: Delta,
    answer: Answer<MemoryEntityId, MemoryEventId, MemoryImageId>,
)
    requires
        settled(before, after, commit_id, companion_id, delta, answer),
    ensures
        before.submit_results@.is_prefix_of(after.submit_results@),
        after.submit_results@.len() > before.submit_results@.len(),
        after.submit_results@[before.submit_results@.len() as int]@ == answer,
        kept_answer(after, commit_id, answer),
{
    let n = before.submit_results@.len();
    if delta.companion@.len() == 0 {
        assert(after.submit_results@.take(n as int) =~= after.submit_results@.drop_last());
    } else {
        let (between, companion, reply) = choose|
            between: Inner,
            companion: Delta,
            reply: Answer<MemoryEntityId, MemoryEventId, MemoryImageId>,
        |
            landed(before, between, commit_id, delta, answer) && #[trigger] companion_landed(
                between,
                after,
                companion_id,
                delta,
                companion,
                reply,
            );
        assert(landed(between, after, companion_id, companion, reply));
        let middle = after.submit_results@.drop_last();
        assert(middle == between.submit_results@);
        assert(after.submit_results@[n as int] == middle[n as int]);
        assert(after.submit_results@.take(n as int) =~= middle.drop_last());
    }
    assert(after.submit_results@[n as int]@.commit_id == commit_id);
    assert(after.submit_results@[n as int].commit_id@ == commit_id);
}

/// Submitting a commit keeps the answers of the past, and the answer that it gave.
proof fn lemma_submission_keeps_answers(
    before: Inner,
    after: Inner,
    commit_id: Seq<char>,
    companion_id: Seq<char>,
    commit: MemCommit,
    matching: Matching,
    violations: Seq<MemSubmitError>,
    outcome: Result<Answer<MemoryEntityId, MemoryEventId, MemoryImageId>, Seq<MemSubmitError>>,
)
    requires
        before.wf(),
        submission(
            before,
            after,
            commit_id,
            companion_id,
            commit,
            matching,
            violations,
            outcome,
        ),
    ensures
        outcome is Err ==> after == before,
        answered(before.submit_results@, commit_id) ==> outcome is Ok
            && outcome->Ok_0.previously_committed && after == before,
        before.submit_results@.is_prefix_of(after.submit_results@),
        outcome is Ok ==> kept_answer(after, commit_id, outcome->Ok_0),
{
    let results = before.submit_results@;
    assert(results.take(results.len() as int) =~= results);
    if answered(results, commit_id) {
        let k = choose|k: int|
            0 <= k < results.len() && (#[trigger] results[k]).commit_id@ == commit_id
                && outcome->Ok_0 == (Answer { previously_committed: true, ..results[k]@ });
        assert(!results[k].previously_committed);
        assert(after.submit_results@[k].commit_id@ == commit_id);
    } else if outcome is Ok {
        let delta = choose|delta: Delta| #[trigger]
            staged(before, commit, matching, delta) && (delta.errors@ + violations).len() == 0
                && settled(before, after, commit_id, companion_id, delta, outcome->Ok_0);
        lemma_settled_keeps_answers(
            before,
            after,
            commit_id,
            companion_id,
            delta,
            outcome->Ok_0,
        );
    }
}

// --- What the steps promise together ---

/// In a commit that can be staged, every fact mentions declarations only.
pub proof fn law_open_commit_is_in_range(
    inner: Inner,
    commit: MemCommit,
    tables: Tables,
    k: int,
)
    requires
        unresolvable(inner, commit).len() == 0,
        tables.entities.len() == commit.entities@.len(),
        tables.events.len() == commit.events@.len(),
        tables.images.len() == commit.images@.len(),
        0 <= k < commit.facts@.len(),
    ensures
        in_range(commit.facts@[k], tables),
{
    let facts = commit.facts@;
    let f = facts[k];
    let by_entity = |f: SubmitFact| entity_mentions(f);
    let by_event = |f: SubmitFact| event_mentions(f);
    let by_image = |f: SubmitFact| image_mentions(f);
    lemma_refs_finite(facts, by_entity);
    lemma_refs_finite(facts, by_event);
    lemma_refs_finite(facts, by_image);
    assert(commit.entities.len() == commit.entities@.len());
    assert(commit.events.len() == commit.events@.len());
    assert(commit.images.len() == commit.images@.len());
    lemma_none_out_of_range(entity_refs(facts), commit.entities@.len() as usize);
    lemma_none_out_of_range(event_refs(facts), commit.events@.len() as usize);
    lemma_none_out_of_range(image_refs(facts), commit.images@.len() as usize);
    assert forall|j: int| 0 <= j < f.entities().len() implies (#[trigger] f.entities()[j])@
        < tables.entities.len() by {
        let x = f.entities()[j]@;
        assert(entity_mentions(f)[j] == x);
        assert(by_entity(facts[k]).contains(x));
        assert(entity_refs(facts).contains(x));
    }
    assert forall|j: int| 0 <= j < f.events().len() implies (#[trigger] f.events()[j])@
        < tables.events.len() by {
        let x = f.events()[j]@;
        assert(event_mentions(f)[j] == x);
        assert(by_event(facts[k]).contains(x));
        assert(event_refs(facts).contains(x));
    }
    assert forall|j: int| 0 <= j < f.images().len() implies (#[trigger] f.images()[j])@
        < tables.images.len() by {
        let x = f.images()[j]@;
        assert(image_mentions(f)[j] == x);
        assert(by_image(facts[k]).contains(x));
        assert(image_refs(facts).contains(x));
    }
}

/// Where none is listed as out of range, none is.
proof fn lemma_none_out_of_range(refs: Set<usize>, decl_count: usize)
    requires
        refs.finite(),
        out_of_range(refs, decl_count).len() == 0,
    ensures
        forall|x: usize| #[trigger] refs.contains(x) ==> x < decl_count,
{
    let wanted = refs.filter(|i: usize| i >= decl_count);
    lemma_listing_lists(wanted);
    assert forall|x: usize| #[trigger] refs.contains(x) implies x < decl_count by {
        if x >= decl_count {
            assert(wanted.contains(x));
            assert(out_of_range(refs, decl_count).to_set().contains(x));
        }
    }
}

/// Facts that mention declarations only, and of which none came to be about one
/// thing and itself, all come out.
pub proof fn law_sound_facts_come_out(
    facts: Seq<SubmitFact>,
    tables: Tables,
    results: Seq<Result<MemStoredFact, MemSubmitError>>,
)
    requires
        all_substituted(facts, tables, results),
        forall|k: int|
            0 <= k < facts.len() ==> in_range(#[trigger] facts[k], tables) && self_loop(
                facts[k],
                tables,
            ) is None,
    ensures
        failures(results).len() == 0,
        successes(results).len() == facts.len(),
        forall|k: int|
            0 <= k < facts.len() ==> substituted(
                #[trigger] facts[k],
                successes(results)[k],
                tables,
            ),
    decreases results.len(),
{
    assert forall|k: int| 0 <= k < results.len() implies (#[trigger] results[k]) is Ok by {
        let f = facts[k];
        assert(in_range(f, tables));
        assert(substitution(f, tables, results[k]));
    }
    lemma_all_ok(results);
    lemma_no_failure(results);
    assert forall|k: int| 0 <= k < facts.len() implies substituted(
        #[trigger] facts[k],
        successes(results)[k],
        tables,
    ) by {
        assert(substitution(facts[k], tables, results[k]));
    }
}

/// Where every fact comes out, none fails.
proof fn lemma_all_ok(results: Seq<Result<MemStoredFact, MemSubmitError>>)
    requires
        forall|k: int| 0 <= k < results.len() ==> (#[trigger] results[k]) is Ok,
    ensures
        failures(results).len() == 0,
    decreases results.len(),
{
    if results.len() > 0 {
        let less = results.drop_last();
        assert forall|k: int| 0 <= k < less.len() implies (#[trigger] less[k]) is Ok by {
            assert(less[k] == results[k]);
        }
        lemma_all_ok(less);
        assert(results[results.len() - 1] is Ok);
    }
}

// --- Which error comes where ---

/// A value is in one of two lists one after the other exactly where it is in either.
proof fn lemma_in_sum<A>(a: Seq<A>, b: Seq<A>, x: A)
    ensures
        (a + b).contains(x) <==> a.contains(x) || b.contains(x),
{
    vstd::seq_lib::lemma_seq_concat_contains_all_elements(a, b, x);
}

/// A value is made of a list exactly where it is made of a member.
proof fn lemma_in_image<A, B>(a: Seq<A>, f: spec_fn(A) -> B, x: B)
    ensures
        a.map_values(f).contains(x) <==> exists|y: A| #[trigger] a.contains(y) && f(y) == x,
{
    let b = a.map_values(f);
    if b.contains(x) {
        let k = b.index_of(x);
        assert(a.contains(a[k]));
        assert(f(a[k]) == x);
    }
    if exists|y: A| #[trigger] a.contains(y) && f(y) == x {
        let y = choose|y: A| #[trigger] a.contains(y) && f(y) == x;
        let k = a.index_of(y);
        assert(b[k] == x);
    }
}

/// A commit is turned down for what it mentions exactly where that is not there: for a
/// position past the declarations of its kind that some fact mentions, and for a
/// declared id that the store never minted.
pub proof fn law_refused_for_exactly_what_is_missing(
    inner: Inner,
    commit: MemCommit,
    error: MemSubmitError,
)
    ensures
        unresolvable(inner, commit).contains(error) <==> match error {
            SubmitError::EntityIdxOutOfRange { idx, decl_count } => {
                &&& decl_count == commit.entities@.len()
                &&& decl_count <= idx
                &&& exists|k: int, j: int|
                    0 <= k < commit.facts@.len() && 0 <= j < commit.facts@[k].entities().len()
                        && #[trigger] commit.facts@[k].entities()[j]@ == idx
            },
            SubmitError::EventIdxOutOfRange { idx, decl_count } => {
                &&& decl_count == commit.events@.len()
                &&& decl_count <= idx
                &&& exists|k: int, j: int|
                    0 <= k < commit.facts@.len() && 0 <= j < commit.facts@[k].events().len()
                        && #[trigger] commit.facts@[k].events()[j]@ == idx
            },
            SubmitError::ImageIdxOutOfRange { idx, decl_count } => {
                &&& decl_count == commit.images@.len()
                &&& decl_count <= idx
                &&& exists|k: int, j: int|
                    0 <= k < commit.facts@.len() && 0 <= j < commit.facts@[k].images().len()
                        && #[trigger] commit.facts@[k].images()[j]@ == idx
            },
            SubmitError::UnknownExistingEntity { decl_position } => {
                &&& decl_position@ < commit.entities@.len()
                &&& commit.entities@[decl_position@ as int] matches Decl::Existing { id }
                &&& inner.next_entity_id <= id@
            },
            SubmitError::UnknownExistingEvent { decl_position } => {
                &&& decl_position@ < commit.events@.len()
                &&& commit.events@[decl_position@ as int] matches Decl::Existing { id }
                &&& inner.next_event_id <= id@
            },
            SubmitError::UnknownExistingImage { decl_position } => {
                &&& decl_position@ < commit.images@.len()
                &&& commit.images@[decl_position@ as int] matches Decl::Existing { id }
                &&& inner.next_image_id <= id@
            },
            _ => false,
        },
{
    let facts = commit.facts@;
    assert(commit.entities.len() == commit.entities@.len());
    assert(commit.events.len() == commit.events@.len());
    assert(commit.images.len() == commit.images@.len());
    let entities = commit.entities@.len() as usize;
    let events = commit.events@.len() as usize;
    let images = commit.images@.len() as usize;
    lemma_refs_finite(facts, |f: SubmitFact| entity_mentions(f));
    lemma_refs_finite(facts, |f: SubmitFact| event_mentions(f));
    lemma_refs_finite(facts, |f: SubmitFact| image_mentions(f));
    law_out_of_range_are_past_the_end(entity_refs(facts), entities);
    law_out_of_range_are_past_the_end(event_refs(facts), events);
    law_out_of_range_are_past_the_end(image_refs(facts), images);
    law_unknown_were_never_minted(
        commit.entities@,
        inner.next_entity_id,
        commit.entities@.len(),
    );
    law_unknown_were_never_minted(commit.events@, inner.next_event_id, commit.events@.len());
    law_unknown_were_never_minted(commit.images@, inner.next_image_id, commit.images@.len());
    let a = entity_range_errors(out_of_range(entity_refs(facts), entities), entities);
    let b = event_range_errors(out_of_range(event_refs(facts), events), events);
    let c = image_range_errors(out_of_range(image_refs(facts), images), images);
    let d = unknown_entity_errors(
        unknown(commit.entities@, inner.next_entity_id, commit.entities@.len()),
    );
    let e = unknown_event_errors(
        unknown(commit.events@, inner.next_event_id, commit.events@.len()),
    );
    let f = unknown_image_errors(
        unknown(commit.images@, inner.next_image_id, commit.images@.len()),
    );
    lemma_in_sum(a + b + c + d + e, f, error);
    lemma_in_sum(a + b + c + d, e, error);
    lemma_in_sum(a + b + c, d, error);
    lemma_in_sum(a + b, c, error);
    lemma_in_sum(a, b, error);
    lemma_in_image(
        out_of_range(entity_refs(facts), entities),
        |idx: usize| SubmitError::EntityIdxOutOfRange { idx, decl_count: entities },
        error,
    );
    lemma_in_image(
        out_of_range(event_refs(facts), events),
        |idx: usize| SubmitError::EventIdxOutOfRange { idx, decl_count: events },
        error,
    );
    lemma_in_image(
        out_of_range(image_refs(facts), images),
        |idx: usize| SubmitError::ImageIdxOutOfRange { idx, decl_count: images },
        error,
    );
    lemma_in_image(
        unknown(commit.entities@, inner.next_entity_id, commit.entities@.len()),
        |p: usize| SubmitError::UnknownExistingEntity { decl_position: EntityIdx(p) },
        error,
    );
    lemma_in_image(
        unknown(commit.events@, inner.next_event_id, commit.events@.len()),
        |p: usize| SubmitError::UnknownExistingEvent { decl_position: EventIdx(p) },
        error,
    );
    lemma_in_image(
        unknown(commit.images@, inner.next_image_id, commit.images@.len()),
        |p: usize| SubmitError::UnknownExistingImage { decl_position: ImageIdx(p) },
        error,
    );
    match error {
        SubmitError::EntityIdxOutOfRange { idx, .. } => {
            law_mentioned_by_some_fact(facts, idx);
            assert(out_of_range(entity_refs(facts), entities).contains(idx) <==> entity_refs(
                facts,
            ).contains(idx) && entities <= idx);
        },
        SubmitError::EventIdxOutOfRange { idx, .. } => {
            law_mentioned_by_some_fact(facts, idx);
            assert(out_of_range(event_refs(facts), events).contains(idx) <==> event_refs(
                facts,
            ).contains(idx) && events <= idx);
        },
        SubmitError::ImageIdxOutOfRange { idx, .. } => {
            law_mentioned_by_some_fact(facts, idx);
            assert(out_of_range(image_refs(facts), images).contains(idx) <==> image_refs(
                facts,
            ).contains(idx) && images <= idx);
        },
        SubmitError::UnknownExistingEntity { decl_position } => {
            let p = decl_position@;
            assert(unknown(
                commit.entities@,
                inner.next_entity_id,
                commit.entities@.len(),
            ).contains(p) <==> p < commit.entities@.len() && (commit.entities@[p as int] matches
                Decl::Existing { id } && inner.next_entity_id <= id@));
        },
        SubmitError::UnknownExistingEvent { decl_position } => {
            let p = decl_position@;
            assert(unknown(commit.events@, inner.next_event_id, commit.events@.len()).contains(
                p,
            ) <==> p < commit.events@.len() && (commit.events@[p as int] matches Decl::Existing {
                id,
            } && inner.next_event_id <= id@));
        },
        SubmitError::UnknownExistingImage { decl_position } => {
            let p = decl_position@;
            assert(unknown(commit.images@, inner.next_image_id, commit.images@.len()).contains(
                p,
            ) <==> p < commit.images@.len() && (commit.images@[p as int] matches Decl::Existing {
                id,
            } && inner.next_image_id <= id@));
        },
        _ => {},
    }
}

/// The declarations of a commit are turned down for exactly two things: that no fact
/// mentions one, and that two of them came to the same id.
pub proof fn law_declarations_refused_for_exactly(
    facts: Seq<SubmitFact>,
    entity_count: nat,
    event_count: nat,
    image_count: nat,
    tables: Tables,
    error: MemSubmitError,
)
    requires
        entity_count <= usize::MAX,
        event_count <= usize::MAX,
        image_count <= usize::MAX,
    ensures
        declaration_errors(
            facts,
            entity_count,
            event_count,
            image_count,
            tables,
        ).contains(error) <==> match error {
            SubmitError::UnusedDeclaration { kind: SubjectKind::Entity, position } => {
                &&& position < entity_count
                &&& !exists|k: int, j: int|
                    0 <= k < facts.len() && 0 <= j < facts[k].entities().len()
                        && #[trigger] facts[k].entities()[j]@ == position
            },
            SubmitError::UnusedDeclaration { kind: SubjectKind::Event, position } => {
                &&& position < event_count
                &&& !exists|k: int, j: int|
                    0 <= k < facts.len() && 0 <= j < facts[k].events().len()
                        && #[trigger] facts[k].events()[j]@ == position
            },
            SubmitError::UnusedDeclaration { kind: SubjectKind::Image, position } => {
                &&& position < image_count
                &&& !exists|k: int, j: int|
                    0 <= k < facts.len() && 0 <= j < facts[k].images().len()
                        && #[trigger] facts[k].images()[j]@ == position
            },
            SubmitError::DuplicateEntityDecl { id } => exists|i: int, j: int|
                0 <= i < j < tables.entities.len() && #[trigger] tables.entities[i] == id@
                    && #[trigger] tables.entities[j] == id@,
            SubmitError::DuplicateEventDecl { id } => exists|i: int, j: int|
                0 <= i < j < tables.events.len() && #[trigger] tables.events[i] == id@
                    && #[trigger] tables.events[j] == id@,
            SubmitError::DuplicateImageDecl { id } => exists|i: int, j: int|
                0 <= i < j < tables.images.len() && #[trigger] tables.images[i] == id@
                    && #[trigger] tables.images[j] == id@,
            _ => false,
        },
{
    law_unused_are_not_mentioned(entity_refs(facts), entity_count);
    law_unused_are_not_mentioned(event_refs(facts), event_count);
    law_unused_are_not_mentioned(image_refs(facts), image_count);
    law_repeated_ids_occur_twice(tables.entities);
    law_repeated_ids_occur_twice(tables.events);
    law_repeated_ids_occur_twice(tables.images);
    let a = unused_errors(SubjectKind::Entity, unused(entity_refs(facts), entity_count));
    let b = unused_errors(SubjectKind::Event, unused(event_refs(facts), event_count));
    let c = unused_errors(SubjectKind::Image, unused(image_refs(facts), image_count));
    let d = duplicate_entity_errors(repeated_ids(tables.entities));
    let e = duplicate_event_errors(repeated_ids(tables.events));
    let f = duplicate_image_errors(repeated_ids(tables.images));
    lemma_in_sum(a + b + c + d + e, f, error);
    lemma_in_sum(a + b + c + d, e, error);
    lemma_in_sum(a + b + c, d, error);
    lemma_in_sum(a + b, c, error);
    lemma_in_sum(a, b, error);
    lemma_in_image(
        unused(entity_refs(facts), entity_count),
        |position: usize| SubmitError::UnusedDeclaration { kind: SubjectKind::Entity, position },
        error,
    );
    lemma_in_image(
        unused(event_refs(facts), event_count),
        |position: usize| SubmitError::UnusedDeclaration { kind: SubjectKind::Event, position },
        error,
    );
    lemma_in_image(
        unused(image_refs(facts), image_count),
        |position: usize| SubmitError::UnusedDeclaration { kind: SubjectKind::Image, position },
        error,
    );
    lemma_in_image(
        repeated_ids(tables.entities),
        |id: u64| SubmitError::DuplicateEntityDecl { id: MemoryEntityId(id) },
        error,
    );
    lemma_in_image(
        repeated_ids(tables.events),
        |id: u64| SubmitError::DuplicateEventDecl { id: MemoryEventId(id) },
        error,
    );
    lemma_in_image(
        repeated_ids(tables.images),
        |id: u64| SubmitError::DuplicateImageDecl { id: MemoryImageId(id) },
        error,
    );
    match error {
        SubmitError::UnusedDeclaration { kind, position } => {
            law_mentioned_by_some_fact(facts, position);
            assert(unused(entity_refs(facts), entity_count).contains(position) <==> position
                < entity_count && !entity_refs(facts).contains(position));
            assert(unused(event_refs(facts), event_count).contains(position) <==> position
                < event_count && !event_refs(facts).contains(position));
            assert(unused(image_refs(facts), image_count).contains(position) <==> position
                < image_count && !image_refs(facts).contains(position));
        },
        SubmitError::DuplicateEntityDecl { id } => {
            assert(id == MemoryEntityId(id@));
            assert(repeated_ids(tables.entities).contains(id@) <==> exists|i: int, j: int|
                0 <= i < j < tables.entities.len() && #[trigger] tables.entities[i] == id@
                    && #[trigger] tables.entities[j] == id@);
        },
        SubmitError::DuplicateEventDecl { id } => {
            assert(id == MemoryEventId(id@));
            assert(repeated_ids(tables.events).contains(id@) <==> exists|i: int, j: int|
                0 <= i < j < tables.events.len() && #[trigger] tables.events[i] == id@
                    && #[trigger] tables.events[j] == id@);
        },
        SubmitError::DuplicateImageDecl { id } => {
            assert(id == MemoryImageId(id@));
            assert(repeated_ids(tables.images).contains(id@) <==> exists|i: int, j: int|
                0 <= i < j < tables.images.len() && #[trigger] tables.images[i] == id@
                    && #[trigger] tables.images[j] == id@);
        },
        _ => {},
    }
}

// --- In which order errors come ---

/// Where an error stands among those on what a commit mentions or declares: its kind
/// first, and then its position or id.
pub open spec fn rank_of(error: MemSubmitError) -> (int, int) {
    match error {
        SubmitError::EntityIdxOutOfRange { idx, .. } => (0, idx as int),
        SubmitError::EventIdxOutOfRange { idx, .. } => (1, idx as int),
        SubmitError::ImageIdxOutOfRange { idx, .. } => (2, idx as int),
        SubmitError::UnknownExistingEntity { decl_position } => (3, decl_position@ as int),
        SubmitError::UnknownExistingEvent { decl_position } => (4, decl_position@ as int),
        SubmitError::UnknownExistingImage { decl_position } => (5, decl_position@ as int),
        SubmitError::UnusedDeclaration { kind: SubjectKind::Entity, position } => (
            6,
            position as int,
        ),
        SubmitError::UnusedDeclaration { kind: SubjectKind::Event, position } => (
            7,
            position as int,
        ),
        SubmitError::UnusedDeclaration { kind: SubjectKind::Image, position } => (
            8,
            position as int,
        ),
        SubmitError::DuplicateEntityDecl { id } => (9, id@ as int),
        SubmitError::DuplicateEventDecl { id } => (10, id@ as int),
        SubmitError::DuplicateImageDecl { id } => (11, id@ as int),
        _ => (12, 0),
    }
}

/// Whether one error stands before another.
pub open spec fn stands_before(a: MemSubmitError, b: MemSubmitError) -> bool {
    rank_of(a).0 < rank_of(b).0 || (rank_of(a).0 == rank_of(b).0 && rank_of(a).1 < rank_of(b).1)
}

/// Whether each error stands before all that follow it.
pub open spec fn in_order(errors: Seq<MemSubmitError>) -> bool {
    forall|i: int, j: int|
        0 <= i < j < errors.len() ==> stands_before(#[trigger] errors[i], #[trigger] errors[j])
}

/// Whether all errors are of one kind.
spec fn all_of(errors: Seq<MemSubmitError>, kind: int) -> bool {
    forall|i: int| 0 <= i < errors.len() ==> rank_of(#[trigger] errors[i]).0 == kind
}

/// Errors of earlier kinds and then those of one later kind are in order.
proof fn lemma_one_more_kind(a: Seq<MemSubmitError>, b: Seq<MemSubmitError>, kind: int)
    requires
        in_order(a),
        in_order(b),
        forall|i: int| 0 <= i < a.len() ==> rank_of(#[trigger] a[i]).0 < kind,
        all_of(b, kind),
    ensures
        in_order(a + b),
        forall|i: int| 0 <= i < (a + b).len() ==> rank_of(#[trigger] (a + b)[i]).0 < kind + 1,
{
    let all = a + b;
    assert forall|i: int, j: int| 0 <= i < j < all.len() implies stands_before(
        #[trigger] all[i],
        #[trigger] all[j],
    ) by {
        if j < a.len() {
            assert(stands_before(a[i], a[j]));
        } else if i >= a.len() {
            assert(stands_before(b[i - a.len()], b[j - a.len()]));
        }
    }
}

/// What is missing comes kind by kind, entities before events before images, and
/// positions past the declarations before unknown ids; within a kind it ascends, so
/// nothing comes twice.
pub proof fn law_missing_comes_in_order(inner: Inner, commit: MemCommit)
    ensures
        in_order(unresolvable(inner, commit)),
{
    let facts = commit.facts@;
    assert(commit.entities.len() == commit.entities@.len());
    assert(commit.events.len() == commit.events@.len());
    assert(commit.images.len() == commit.images@.len());
    let entities = commit.entities@.len() as usize;
    let events = commit.events@.len() as usize;
    let images = commit.images@.len() as usize;
    lemma_refs_finite(facts, |f: SubmitFact| entity_mentions(f));
    lemma_refs_finite(facts, |f: SubmitFact| event_mentions(f));
    lemma_refs_finite(facts, |f: SubmitFact| image_mentions(f));
    law_out_of_range_are_past_the_end(entity_refs(facts), entities);
    law_out_of_range_are_past_the_end(event_refs(facts), events);
    law_out_of_range_are_past_the_end(image_refs(facts), images);
    law_unknown_were_never_minted(
        commit.entities@,
        inner.next_entity_id,
        commit.entities@.len(),
    );
    law_unknown_were_never_minted(commit.events@, inner.next_event_id, commit.events@.len());
    law_unknown_were_never_minted(commit.images@, inner.next_image_id, commit.images@.len());
    let a = entity_range_errors(out_of_range(entity_refs(facts), entities), entities);
    let b = event_range_errors(out_of_range(event_refs(facts), events), events);
    let c = image_range_errors(out_of_range(image_refs(facts), images), images);
    let d = unknown_entity_errors(
        unknown(commit.entities@, inner.next_entity_id, commit.entities@.len()),
    );
    let e = unknown_event_errors(
        unknown(commit.events@, inner.next_event_id, commit.events@.len()),
    );
    let f = unknown_image_errors(
        unknown(commit.images@, inner.next_image_id, commit.images@.len()),
    );
    assert(in_order(a) && all_of(a, 0));
    assert(in_order(b) && all_of(b, 1));
    assert(in_order(c) && all_of(c, 2));
    assert(in_order(d) && all_of(d, 3));
    assert(in_order(e) && all_of(e, 4));
    assert(in_order(f) && all_of(f, 5));
    lemma_one_more_kind(a, b, 1);
    lemma_one_more_kind(a + b, c, 2);
    lemma_one_more_kind(a + b + c, d, 3);
    lemma_one_more_kind(a + b + c + d, e, 4);
    lemma_one_more_kind(a + b + c + d + e, f, 5);
}

/// What is wrong with declarations comes kind by kind, entities before events before
/// images, and those that no fact mentions before those that came to one id; within a
/// kind it ascends, so nothing comes twice.
pub proof fn law_declaration_errors_come_in_order(
    facts: Seq<SubmitFact>,
    entity_count: nat,
    event_count: nat,
    image_count: nat,
    tables: Tables,
)
    requires
        entity_count <= usize::MAX,
        event_count <= usize::MAX,
        image_count <= usize::MAX,
    ensures
        in_order(declaration_errors(facts, entity_count, event_count, image_count, tables)),
{
    law_unused_are_not_mentioned(entity_refs(facts), entity_count);
    law_unused_are_not_mentioned(event_refs(facts), event_count);
    law_unused_are_not_mentioned(image_refs(facts), image_count);
    law_repeated_ids_occur_twice(tables.entities);
    law_repeated_ids_occur_twice(tables.events);
    law_repeated_ids_occur_twice(tables.images);
    let a = unused_errors(SubjectKind::Entity, unused(entity_refs(facts), entity_count));
    let b = unused_errors(SubjectKind::Event, unused(event_refs(facts), event_count));
    let c = unused_errors(SubjectKind::Image, unused(image_refs(facts), image_count));
    let d = duplicate_entity_errors(repeated_ids(tables.entities));
    let e = duplicate_event_errors(repeated_ids(tables.events));
    let f = duplicate_image_errors(repeated_ids(tables.images));
    assert(in_order(a) && all_of(a, 6));
    assert(in_order(b) && all_of(b, 7));
    assert(in_order(c) && all_of(c, 8));
    assert(in_order(d) && all_of(d, 9));
    assert(in_order(e) && all_of(e, 10));
    assert(in_order(f) && all_of(f, 11));
    lemma_one_more_kind(a, b, 7);
    lemma_one_more_kind(a + b, c, 8);
    lemma_one_more_kind(a + b + c, d, 9);
    lemma_one_more_kind(a + b + c + d, e, 10);
    lemma_one_more_kind(a + b + c + d + e, f, 11);
}

/// Facts that come out and errors of those that do not keep the order of the facts.
pub proof fn law_substitution_keeps_the_order(
    results: Seq<Result<MemStoredFact, MemSubmitError>>,
    fact: MemStoredFact,
    error: MemSubmitError,
)
    ensures
        successes(results.push(Ok(fact))) == successes(results).push(fact),
        failures(results.push(Ok(fact))) == failures(results),
        successes(results.push(Err(error))) == successes(results),
        failures(results.push(Err(error))) == failures(results).push(error),
        successes(Seq::empty()).len() == 0,
        failures(Seq::empty()).len() == 0,
{
    assert(results.push(Ok(fact)).drop_last() =~= results);
    assert(results.push(Err(error)).drop_last() =~= results);
}

// --- The store ---

/// An in-memory fact store.
#[derive(Debug)]
pub struct MemoryFactStore {
    inner: Inner,
}

impl MemoryFactStore {
    /// What the store holds.
    pub closed spec fn state(self) -> Inner {
        self.inner
    }

    /// The state is consistent.
    #[verifier::type_invariant]
    spec fn consistent(self) -> bool {
        self.inner.wf()
    }

    /// An empty store.
    pub fn new() -> (r: Self)
        ensures
            r.state().wf(),
            r.state().facts@.len() == 0,
            r.state().commits@.len() == 0,
            r.state().submit_results@.len() == 0,
            r.state().next_entity_id == 0,
            r.state().next_event_id == 0,
            r.state().next_image_id == 0,
    {
        MemoryFactStore { inner: Inner::new() }
    }

    /// The next [`FactId`] this store would mint.
    pub fn next_fact_id(&self) -> (r: FactId)
        ensures
            r@ == self.state().facts@.len(),
    {
        proof {
            use_type_invariant(self);
        }
        self.inner.next_fact_id()
    }

    /// The view of the store at a snapshot.
    pub fn no_later_than(&self, snapshot: FactId) -> (r: ReadCore<'_>)
        ensures
            r.wf(),
            *r.committed == self.state(),
            r.pending is None,
            r.snapshot == snapshot,
    {
        proof {
            use_type_invariant(self);
        }
        ReadCore { committed: &self.inner, pending: None, snapshot }
    }

    /// The view of all that the store holds.
    pub fn now(&self) -> (r: ReadCore<'_>)
        ensures
            r.wf(),
            *r.committed == self.state(),
            r.pending is None,
            r.snapshot@ == self.state().facts@.len(),
    {
        proof {
            use_type_invariant(self);
        }
        ReadCore { committed: &self.inner, pending: None, snapshot: self.inner.next_fact_id() }
    }

    /// Whether a commit landed before or mentions what is not there. See
    /// [`open_commit`].
    pub fn open(&self, commit_id: &CommitId, commit: &MemCommit) -> (r: Opening)
        ensures
            answered(self.state().submit_results@, commit_id@) ==> (r matches Opening::Landed(
                result,
            ) && exists|k: int|
                0 <= k < self.state().submit_results@.len() && (
                #[trigger] self.state().submit_results@[k]).commit_id@ == commit_id@ && result@
                    == (Answer {
                    previously_committed: true,
                    ..self.state().submit_results@[k]@
                })),
            !answered(self.state().submit_results@, commit_id@) && unresolvable(
                self.state(),
                *commit,
            ).len() > 0 ==> (r matches Opening::Refused(batch) && batch@ == unresolvable(
                self.state(),
                *commit,
            )),
            !answered(self.state().submit_results@, commit_id@) && unresolvable(
                self.state(),
                *commit,
            ).len() == 0 ==> r is Open,
    {
        proof {
            use_type_invariant(self);
        }
        open_commit(&self.inner, commit_id, commit)
    }

    /// Give the declarations of a commit their ids, and prepare its facts and the
    /// judgments on what they were recognized as. See [`stage`].
    pub fn prepare(&self, commit: MemCommit, matching: Matching) -> (r: Delta)
        requires
            has_room(self.state(), commit),
        ensures
            staged(self.state(), commit, matching, r),
    {
        proof {
            use_type_invariant(self);
        }
        stage(&self.inner, commit, matching)
    }

    /// The view of all that the store holds and a prepared commit would add.
    pub fn with_delta<'a>(&'a self, delta: &'a Delta) -> (r: ReadCore<'a>)
        requires
            delta.pending.wf(self.state()),
        ensures
            r.wf(),
            *r.committed == self.state(),
            r.pending == Some(&delta.pending),
            r.snapshot@ == self.state().facts@.len() + delta.pending.facts@.len(),
    {
        proof {
            use_type_invariant(self);
        }
        ReadCore {
            committed: &self.inner,
            pending: Some(&delta.pending),
            snapshot: FactId::new(
                self.inner.facts.len() as u64 + delta.pending.facts.len() as u64,
            ),
        }
    }

    /// Turn a prepared commit down where anything is wrong with it, or let it
    /// land, and its companion after it. See [`settle`].
    pub fn finish(
        &mut self,
        commit_id: CommitId,
        companion_id: CommitId,
        delta: Delta,
        violations: Vec<MemSubmitError>,
    ) -> (r: Result<MemSubmitResult, NonEmptyVec<MemSubmitError>>)
        requires
            delta.wf(old(self).state()),
            !recorded(old(self).state().commits@, commit_id@),
            delta.companion@.len() > 0 ==> is_free(
                old(self).state(),
                commit_id@,
                companion_id@,
            ),
        ensures
            final(self).state().wf(),
            (delta.errors@ + violations@).len() > 0 ==> r is Err && r->Err_0@ == delta.errors@
                + violations@ && final(self).state() == old(self).state(),
            (delta.errors@ + violations@).len() == 0 ==> r is Ok && settled(
                old(self).state(),
                final(self).state(),
                commit_id@,
                companion_id@,
                delta,
                r->Ok_0@,
            ),
    {
        proof {
            use_type_invariant(&*self);
        }
        let mut inner = Inner::new();
        core::mem::swap(&mut self.inner, &mut inner);
        let r = settle(&mut inner, commit_id, companion_id, delta, violations);
        self.inner = inner;
        r
    }

    /// Submit a commit.
    ///
    /// A commit that landed before is answered as it was then. One that mentions
    /// what is not there is turned down with all of that. Otherwise its
    /// declarations get their ids, given what the matcher made of them, its facts
    /// are prepared, and it is turned down with everything that is wrong with it,
    /// or lands. What the matcher recognized lands after it, as the commit
    /// `companion_id`. A commit that is turned down changes nothing.
    pub fn submit_commit(
        &mut self,
        commit_id: CommitId,
        companion_id: CommitId,
        commit: MemCommit,
        matching: Matching,
        violations: Vec<MemSubmitError>,
    ) -> (r: Result<MemSubmitResult, NonEmptyVec<MemSubmitError>>)
        requires
            can_submit(old(self).state(), commit_id@, companion_id@, commit, matching),
        ensures
            final(self).state().wf(),
            submission(
                old(self).state(),
                final(self).state(),
                commit_id@,
                companion_id@,
                commit,
                matching,
                violations@,
                outcome_view(r),
            ),
            r is Err ==> final(self).state() == old(self).state(),
            answered(old(self).state().submit_results@, commit_id@) ==> r is Ok
                && r->Ok_0.previously_committed && final(self).state() == old(self).state(),
            old(self).state().submit_results@.is_prefix_of(final(self).state().submit_results@),
            r is Ok ==> kept_answer(final(self).state(), commit_id@, r->Ok_0@),
    {
        proof {
            use_type_invariant(&*self);
        }
        let ghost before = self.state();
        match self.open(&commit_id, &commit) {
            Opening::Landed(result) => {
                return Ok(result);
            },
            Opening::Refused(batch) => {
                return Err(batch);
            },
            Opening::Open => {},
        }
        assert(!recorded(before.commits@, commit_id@));
        let delta = self.prepare(commit, matching);
        let ghost prepared = delta;
        assert(staged(before, commit, matching, prepared));
        let ghost broken = violations@;
        let r = self.finish(commit_id, companion_id, delta, violations);
        proof {
            lemma_submission_keeps_answers(
                before,
                self.state(),
                commit_id@,
                companion_id@,
                commit,
                matching,
                broken,
                outcome_view(r),
            );
        }
        r
    }
}

} // verus!
