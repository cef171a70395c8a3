//! The in-memory store: commits, retractions, snapshots, classes and walks.
use chronoscope_core::calendar::CalendarDate;
use chronoscope_core::conflicts::detect::{fact_date, fact_lineage, is_construction_start};
use chronoscope_core::algebra::ordered::OrderedSet;
use chronoscope_core::algebra::semiring::Support;
use chronoscope_core::date::{DatePrecision, UncertainDate};
use chronoscope_core::external_ids::WikidataEntityId;
use chronoscope_core::facts::assertions::{
    FactualAssertion, JudgmentAssertion, MetaAssertion, RetractionReason,
};
use chronoscope_core::facts::attribute;
use chronoscope_core::facts::bookend;
use chronoscope_core::facts::citations::{
    Excerpt, ExternalSource, FactualCitation, JudgmentSource, Justification, MetaSource,
};
use chronoscope_core::facts::drain::{drain_facts, drain_id_facts, drain_pages};
use chronoscope_core::facts::event;
use chronoscope_core::facts::identity::{self, DistinctPair};
use chronoscope_core::facts::ids::{AnalyzerProcess, AnalyzerVersion, CommitId, FactId, UserId};
use chronoscope_core::facts::image;
use chronoscope_core::facts::memory::companion::Matching;
use chronoscope_core::facts::memory::ids::{
    MemCommit, MemStoredFact, MemSubmitError, MemSubmitResult, MemoryEntityId, MemoryEventId,
    MemoryImageId,
};
use chronoscope_core::facts::memory::scan::{Named, SameEntity};
use chronoscope_core::facts::memory::state::{apply_pending, Inner, UnionSource};
use chronoscope_core::facts::memory::store::{MemoryFactStore, Opening};
use chronoscope_core::facts::picture;
use chronoscope_core::facts::reference::ExternalReference;
use chronoscope_core::facts::schema::{
    normalize_name, EntityStream, EventStream, FactPage, ImageStream,
};
use chronoscope_core::facts::submit::{
    CommitAuthor, Decl, EntityIdx, EventIdx, FactLookup, FactPlacement, ImageIdx, MatchOutcome,
    ResolutionOrigin, StoredCommit, StoredFact, StoredFactualFact, StoredJudgmentFact,
    StoredMetaFact, SubjectKind, SubmitFact,
};
use chronoscope_core::facts::web::{Language, WebUrl};
use chronoscope_core::nonempty::NonEmptyVec;

// --- Facts to submit ---

fn sample_citation() -> FactualCitation {
    let source = ExternalSource::Url {
        url: WebUrl::parse("https://example.com/source").unwrap(),
        published: None,
    };
    FactualCitation::new(source, vec![Excerpt::new("source-text").unwrap()]).unwrap()
}

fn factual(assertion: FactualAssertion<EntityIdx, EventIdx, ImageIdx>) -> SubmitFact {
    StoredFact::Factual(StoredFactualFact { assertion, citation: sample_citation() })
}

fn judgment(assertion: JudgmentAssertion<EntityIdx, EventIdx, ImageIdx>) -> SubmitFact {
    StoredFact::Judgment(StoredJudgmentFact {
        assertion,
        source: JudgmentSource::PersonalKnowledge {
            user: UserId::new("alice".to_string()),
            justification: Justification::new("a test judgment").unwrap(),
        },
    })
}

fn meta(assertion: MetaAssertion) -> SubmitFact {
    StoredFact::Meta(StoredMetaFact {
        assertion,
        source: MetaSource::PersonalKnowledge {
            user: UserId::new("alice".to_string()),
            justification: Justification::new("The targeted fact is wrong.").unwrap(),
        },
    })
}

fn year(y: i32) -> UncertainDate {
    UncertainDate::with_precision(
        CalendarDate::from_ymd_opt(y, 1, 1).unwrap(),
        DatePrecision::Year,
    )
    .unwrap()
}

fn name_fact(entity: usize, name: &str) -> SubmitFact {
    factual(FactualAssertion::Attribute {
        fact: attribute::Fact::Name {
            entity: EntityIdx(entity),
            name: name.to_string(),
            language: Language::parse("en").unwrap(),
            name_type: attribute::NameType::Common,
            valid_from: None,
            valid_to: None,
        },
    })
}

fn construction_started_fact(entity: usize) -> SubmitFact {
    factual(FactualAssertion::Construction {
        fact: bookend::ConstructionFact::Started { entity: EntityIdx(entity), bound: year(1700) },
    })
}

fn external_reference_fact(entity: usize, qid: u64) -> SubmitFact {
    factual(FactualAssertion::Attribute {
        fact: attribute::Fact::ExternalReference {
            entity: EntityIdx(entity),
            reference: ExternalReference::Wikidata { qid: WikidataEntityId::new(qid) },
        },
    })
}

fn event_point_date_fact(event: usize) -> SubmitFact {
    factual(FactualAssertion::Event {
        fact: event::Fact::PointDate { event: EventIdx(event), bound: year(1850) },
    })
}

fn event_description_fact(event: usize) -> SubmitFact {
    factual(FactualAssertion::Event {
        fact: event::Fact::Description {
            event: EventIdx(event),
            text: "an interior event".to_string(),
        },
    })
}

fn image_source_fact(image: usize, url: &str) -> SubmitFact {
    factual(FactualAssertion::Image {
        fact: image::Fact::Source { image: ImageIdx(image), url: WebUrl::parse(url).unwrap() },
    })
}

fn is_picture_fact(image: usize) -> SubmitFact {
    factual(FactualAssertion::Picture { fact: picture::Fact::IsPicture { image: ImageIdx(image) } })
}

fn same_entity_fact(a: usize, b: usize) -> SubmitFact {
    judgment(JudgmentAssertion::Identity {
        fact: identity::Fact::SameEntity {
            pair: DistinctPair::new(EntityIdx(a), EntityIdx(b)).unwrap(),
        },
    })
}

fn same_artifact_fact(a: usize, b: usize) -> SubmitFact {
    judgment(JudgmentAssertion::Identity {
        fact: identity::Fact::SameArtifact {
            pair: DistinctPair::new(ImageIdx(a), ImageIdx(b)).unwrap(),
        },
    })
}

fn relationship_fact(a: usize, b: usize) -> SubmitFact {
    factual(FactualAssertion::Attribute {
        fact: attribute::Fact::relationship(
            EntityIdx(a),
            EntityIdx(b),
            attribute::EntityRelationType::Replaces,
        )
        .unwrap(),
    })
}

fn retract_fact(target: FactId) -> SubmitFact {
    meta(MetaAssertion::RetractFact { target, reason: RetractionReason::FactualError })
}

fn retract_commit_fact(target: CommitId) -> SubmitFact {
    meta(MetaAssertion::RetractCommit { target, reason: RetractionReason::FactualError })
}

fn supersede_fact(target: FactId, replacement: FactId) -> SubmitFact {
    meta(MetaAssertion::SupersedeFact {
        target,
        replacement,
        reason: RetractionReason::FactualError,
    })
}

// --- Submitting ---

fn id(text: &str) -> CommitId {
    CommitId::new(text.to_string())
}

fn bundle(
    entities: Vec<Decl<MemoryEntityId>>,
    events: Vec<Decl<MemoryEventId>>,
    images: Vec<Decl<MemoryImageId>>,
    facts: Vec<SubmitFact>,
) -> MemCommit {
    MemCommit {
        author: CommitAuthor::User { user: UserId::new("alice".to_string()) },
        recorded_at: 1_704_110_400,
        entities,
        events,
        images,
        facts,
    }
}

fn local(entities: usize, events: usize, images: usize, facts: Vec<SubmitFact>) -> MemCommit {
    bundle(
        vec![Decl::Local; entities],
        vec![Decl::Local; events],
        vec![Decl::Local; images],
        facts,
    )
}

/// What the exact matcher made of the declarations.
fn matching(
    entities: Vec<Option<MatchOutcome<MemoryEntityId>>>,
    images: Vec<Option<MatchOutcome<MemoryImageId>>>,
) -> Matching {
    Matching {
        entities,
        images,
        process: AnalyzerProcess::new("exact-matcher".to_string()),
        version: AnalyzerVersion::new("1".to_string()),
    }
}

/// The id for the companion of a commit.
fn companion(name: &str) -> CommitId {
    id(&format!("{name}-companion"))
}

fn submit(
    store: &mut MemoryFactStore,
    name: &str,
    commit: MemCommit,
) -> Result<MemSubmitResult, NonEmptyVec<MemSubmitError>> {
    submit_matched(store, name, commit, matching(vec![], vec![]))
}

fn submit_matched(
    store: &mut MemoryFactStore,
    name: &str,
    commit: MemCommit,
    matching: Matching,
) -> Result<MemSubmitResult, NonEmptyVec<MemSubmitError>> {
    store.submit_commit(id(name), companion(name), commit, matching, vec![])
}

/// What the hits of a walk say of a declaration: nothing, one class, or several.
fn outcome_of<F, Id: Copy + Ord>(page: FactPage<F, Id>) -> Option<MatchOutcome<Id>> {
    let mut found: Vec<Id> = page.items.iter().map(|item| item.representative).collect();
    found.sort();
    found.dedup();
    Some(match found[..] {
        [matched] => {
            let hits = page.items.iter().map(|item| item.fact_id).collect();
            MatchOutcome::Matched { matched, basis: OrderedSet::from_vec(hits) }
        }
        _ => MatchOutcome::Mint { candidates: found },
    })
}

/// What an entity of this name is recognized as.
fn by_name(
    store: &MemoryFactStore,
    name: &str,
    language: &str,
) -> Option<MatchOutcome<MemoryEntityId>> {
    let language = Language::parse(language).unwrap();
    let stream = EntityStream::ByName { name, language: &language };
    outcome_of(store.now().walk_entities(&stream, FactId::new(0), PAGE_100))
}

/// What an entity with this reference is recognized as.
fn by_reference(store: &MemoryFactStore, qid: u64) -> Option<MatchOutcome<MemoryEntityId>> {
    let reference = ExternalReference::Wikidata { qid: WikidataEntityId::new(qid) };
    let stream = EntityStream::ByExternalReference { reference: &reference };
    outcome_of(store.now().walk_entities(&stream, FactId::new(0), PAGE_100))
}

/// What an image from this source is recognized as.
fn by_source(store: &MemoryFactStore, url: &str) -> Option<MatchOutcome<MemoryImageId>> {
    let url = WebUrl::parse(url).unwrap();
    let stream = ImageStream::BySourceUrl { url: &url };
    outcome_of(store.now().walk_images(&stream, FactId::new(0), PAGE_100))
}

/// Submit a commit of one entity with a name, recognized by that name.
fn commit_named(store: &mut MemoryFactStore, commit: &str, name: &str) -> MemSubmitResult {
    let found = by_name(store, name, "en");
    submit_matched(
        store,
        commit,
        local(1, 0, 0, vec![name_fact(0, name)]),
        matching(vec![found], vec![]),
    )
    .unwrap()
}

/// What is kept of a commit.
fn stored_commit<'a>(store: &'a MemoryFactStore, id: &CommitId) -> &'a StoredCommit {
    store.now().committed.commits.iter().find(|c| c.commit_id == *id).unwrap()
}

/// The one judgment of a commit.
fn sole_judgment_of<'a>(
    store: &'a MemoryFactStore,
    id: &CommitId,
) -> &'a StoredJudgmentFact<MemoryEntityId, MemoryEventId, MemoryImageId> {
    let commit = stored_commit(store, id);
    assert_eq!(commit.fact_ids.len(), 1);
    match store.now().fact_at(commit.fact_ids[0]) {
        FactLookup::Active(StoredFact::Judgment(judgment)) => judgment,
        other => panic!("expected an active judgment, got {other:?}"),
    }
}

fn errors(
    store: &mut MemoryFactStore,
    name: &str,
    commit: MemCommit,
) -> Vec<MemSubmitError> {
    match submit(store, name, commit) {
        Ok(_) => panic!("expected the commit to be rejected"),
        Err(batch) => batch.into_vec(),
    }
}

/// Commit one name fact on a fresh entity.
fn commit_name(store: &mut MemoryFactStore, name: &str) -> MemSubmitResult {
    submit(store, name, local(1, 0, 0, vec![name_fact(0, name)])).unwrap()
}

fn commit_retract(store: &mut MemoryFactStore, name: &str, target: FactId) -> FactId {
    submit(store, name, local(0, 0, 0, vec![retract_fact(target)])).unwrap().fact_ids[0]
}

fn is_active(lookup: FactLookup<'_, MemoryEntityId, MemoryEventId, MemoryImageId>) -> bool {
    matches!(lookup, FactLookup::Active(_))
}

const PAGE_100: usize = 100;

fn page_ids<F, S>(page: &FactPage<F, S>) -> Vec<FactId> {
    page.items.iter().map(|item| item.fact_id).collect()
}

// --- Round trips and declarations ---

#[test]
fn roundtrip_small_commit_through_fact_lookup() {
    let mut store = MemoryFactStore::new();
    let result = submit(
        &mut store,
        "c1",
        local(1, 0, 0, vec![name_fact(0, "Pantheon"), construction_started_fact(0)]),
    )
    .unwrap();
    assert_eq!(result.fact_ids.len(), 2);
    assert!(!result.previously_committed);

    let resolved_entity = result.entities[0].id;
    let view = store.now();
    let stored = match view.fact_at(result.fact_ids[0]) {
        FactLookup::Active(stored) => stored,
        other => panic!("expected Active, got {other:?}"),
    };
    match stored {
        StoredFact::Factual(StoredFactualFact {
            assertion:
                FactualAssertion::Attribute {
                    fact: attribute::Fact::Name { entity, name, name_type, .. },
                },
            ..
        }) => {
            assert_eq!(*entity, resolved_entity);
            assert_eq!(name.as_str(), "Pantheon");
            assert_eq!(*name_type, attribute::NameType::Common);
        }
        other => panic!("expected Name attribute, got {other:?}"),
    }
}

#[test]
fn existing_decl_passes_through_to_supplied_id() {
    let mut store = MemoryFactStore::new();
    let minted = commit_name(&mut store, "first").entities[0].id;
    let second = submit(
        &mut store,
        "second",
        bundle(vec![Decl::Existing { id: minted }], vec![], vec![], vec![name_fact(0, "second")]),
    )
    .unwrap();
    assert_eq!(second.entities[0].id, minted);
    assert_eq!(second.entities[0].origin, ResolutionOrigin::DeclaredExisting);
}

#[test]
fn local_decls_mint_distinct_newly_minted_ids() {
    let mut store = MemoryFactStore::new();
    let result = submit(
        &mut store,
        "c1",
        local(3, 0, 0, vec![name_fact(0, "a"), name_fact(1, "b"), name_fact(2, "c")]),
    )
    .unwrap();
    assert_eq!(result.entities.len(), 3);
    let mut seen = std::collections::HashSet::new();
    for resolution in &result.entities {
        assert_eq!(resolution.origin, ResolutionOrigin::NewlyMinted);
        assert!(seen.insert(resolution.id), "minted ids must be distinct");
    }
}

#[test]
fn matcher_outcomes_decide_how_a_local_declaration_resolves() {
    let mut store = MemoryFactStore::new();
    let known = commit_name(&mut store, "known").entities[0].id;
    let result = submit_matched(
        &mut store,
        "c2",
        local(3, 0, 0, vec![name_fact(0, "a"), name_fact(1, "b"), name_fact(2, "c")]),
        matching(
            vec![
                Some(MatchOutcome::Matched { matched: known, basis: OrderedSet::new() }),
                Some(MatchOutcome::Mint { candidates: vec![known] }),
                Some(MatchOutcome::Mint { candidates: vec![] }),
            ],
            vec![],
        ),
    )
    .unwrap();
    assert_eq!(
        result.entities[0].origin,
        ResolutionOrigin::MatchedExisting { matched: known }
    );
    assert_eq!(
        result.entities[1].origin,
        ResolutionOrigin::Ambiguous { candidates: NonEmptyVec::singleton(known) }
    );
    assert_eq!(result.entities[2].origin, ResolutionOrigin::NewlyMinted);
    let ids: Vec<MemoryEntityId> = result.entities.iter().map(|r| r.id).collect();
    assert_eq!(ids, vec![MemoryEntityId(1), MemoryEntityId(2), MemoryEntityId(3)]);
    assert_eq!(result.companion_commit_id, Some(companion("c2")));
    assert_eq!(store.now().entity_class(known).members.as_slice(), &[known, ids[0]]);
    assert_eq!(stored_commit(&store, &companion("c2")).fact_ids.len(), 1);
}

#[test]
fn a_resubmitted_commit_is_answered_as_before() {
    let mut store = MemoryFactStore::new();
    let first = commit_name(&mut store, "once");
    let mark = store.next_fact_id();
    let again =
        submit(&mut store, "once", local(1, 0, 0, vec![name_fact(0, "something else")])).unwrap();
    assert!(again.previously_committed);
    assert_eq!(again.fact_ids, first.fact_ids);
    assert_eq!(again.entities, first.entities);
    assert_eq!(store.next_fact_id(), mark, "a re-submission mints nothing");
    assert!(matches!(
        store.open(&id("once"), &local(0, 0, 0, vec![])),
        Opening::Landed(_)
    ));
    assert!(matches!(store.open(&id("new"), &local(0, 0, 0, vec![])), Opening::Open));
}

#[test]
fn answers_hold_whatever_is_submitted_in_between() {
    let mut store = MemoryFactStore::new();
    commit_name(&mut store, "Pantheon");
    let first = commit_named(&mut store, "once", "Pantheon");
    assert!(!first.previously_committed);
    commit_named(&mut store, "again", "Pantheon");
    errors(&mut store, "refused", local(1, 0, 0, vec![]));
    submit(&mut store, "r", local(0, 0, 0, vec![retract_commit_fact(id("once"))])).unwrap();
    let mark = store.next_fact_id();
    let later = submit(&mut store, "once", local(0, 0, 0, vec![])).unwrap();
    assert_eq!(later, MemSubmitResult { previously_committed: true, ..first });
    assert_eq!(store.next_fact_id(), mark);
}

// --- Companions ---

#[test]
fn match_by_name_joins_existing_entity_class() {
    let mut store = MemoryFactStore::new();
    let first = commit_named(&mut store, "c1", "Pantheon");
    assert_eq!(first.companion_commit_id, None);
    let existing = first.entities[0].id;
    let anchor = first.fact_ids[0];
    let snapshot = store.next_fact_id();

    let mut commit = local(1, 0, 0, vec![name_fact(0, "  PANTHEON ")]);
    commit.recorded_at += 10;
    let recorded_at = commit.recorded_at;
    let found = by_name(&store, "  PANTHEON ", "en");
    let second =
        submit_matched(&mut store, "c2", commit, matching(vec![found], vec![])).unwrap();
    let resolution = &second.entities[0];
    assert_eq!(resolution.origin, ResolutionOrigin::MatchedExisting { matched: existing });
    let fresh = resolution.id;
    assert_ne!(fresh, existing, "a match still mints a fresh id");
    assert!(store.now().entity_class(fresh).members.contains(&existing));

    let companion_id = second.companion_commit_id.expect("expected a companion commit");
    let companion = stored_commit(&store, &companion_id);
    assert_eq!(
        companion.author,
        CommitAuthor::Analyzer {
            process: AnalyzerProcess::new("exact-matcher".to_string()),
            version: AnalyzerVersion::new("1".to_string()),
        }
    );
    assert_eq!(companion.recorded_at, recorded_at, "the timestamp is the producer's");

    let judgment = sole_judgment_of(&store, &companion_id);
    assert_eq!(
        judgment.assertion,
        JudgmentAssertion::Identity {
            fact: identity::Fact::SameEntity {
                pair: DistinctPair::new(fresh, existing).unwrap(),
            },
        }
    );
    assert_eq!(
        judgment.source,
        JudgmentSource::Derivation {
            process: AnalyzerProcess::new("exact-matcher".to_string()),
            version: AnalyzerVersion::new("1".to_string()),
            basis: OrderedSet::singleton(anchor),
            snapshot,
        }
    );
    // The companion has the ids after those of its commit.
    assert_eq!(second.fact_ids, vec![snapshot]);
    assert_eq!(companion.fact_ids, vec![FactId::new(snapshot.get() + 1)]);
}

#[test]
fn mixed_case_language_tags_canonicalize_to_one_name_key() {
    fn named(language: &str) -> SubmitFact {
        factual(FactualAssertion::Attribute {
            fact: attribute::Fact::Name {
                entity: EntityIdx(0),
                name: "London".to_string(),
                language: Language::parse(language).unwrap(),
                name_type: attribute::NameType::Common,
                valid_from: None,
                valid_to: None,
            },
        })
    }
    let mut store = MemoryFactStore::new();
    let first = submit(&mut store, "c1", local(1, 0, 0, vec![named("en-us")])).unwrap();
    let existing = first.entities[0].id;
    let found = by_name(&store, "London", "EN-US");
    let second = submit_matched(
        &mut store,
        "c2",
        local(1, 0, 0, vec![named("EN-US")]),
        matching(vec![found], vec![]),
    )
    .unwrap();
    assert_eq!(
        second.entities[0].origin,
        ResolutionOrigin::MatchedExisting { matched: existing }
    );
    assert!(store.now().entity_class(second.entities[0].id).members.contains(&existing));
}

#[test]
fn different_name_mints_fresh_entity() {
    let mut store = MemoryFactStore::new();
    let existing = commit_named(&mut store, "c1", "Pantheon").entities[0].id;
    let second = commit_named(&mut store, "c2", "Colosseum");
    assert_eq!(second.entities[0].origin, ResolutionOrigin::NewlyMinted);
    assert_ne!(second.entities[0].id, existing);
    assert_eq!(second.companion_commit_id, None, "no match, so no companion commit");
    assert!(!store.now().commit_known_at(&companion("c2")));
}

#[test]
fn match_by_external_reference_joins_existing_entity_class() {
    let mut store = MemoryFactStore::new();
    let first =
        submit(&mut store, "c1", local(1, 0, 0, vec![external_reference_fact(0, 243)])).unwrap();
    let existing = first.entities[0].id;
    let found = by_reference(&store, 243);
    let second = submit_matched(
        &mut store,
        "c2",
        local(1, 0, 0, vec![external_reference_fact(0, 243)]),
        matching(vec![found], vec![]),
    )
    .unwrap();
    let resolution = &second.entities[0];
    assert_eq!(resolution.origin, ResolutionOrigin::MatchedExisting { matched: existing });
    assert_ne!(resolution.id, existing);
    assert!(store.now().entity_class(resolution.id).members.contains(&existing));
}

#[test]
fn ambiguous_name_match_mints_with_candidates() {
    let mut store = MemoryFactStore::new();
    let nobody = by_name(&store, "Pantheon", "en");
    assert_eq!(nobody, Some(MatchOutcome::Mint { candidates: vec![] }));
    let first = submit(
        &mut store,
        "c1",
        local(2, 0, 0, vec![name_fact(0, "Pantheon"), name_fact(1, "Pantheon")]),
    )
    .unwrap();
    let (a, b) = (&first.entities[0], &first.entities[1]);
    assert_eq!(a.origin, ResolutionOrigin::NewlyMinted);
    assert_eq!(b.origin, ResolutionOrigin::NewlyMinted);
    assert_ne!(a.id, b.id);

    let second = commit_named(&mut store, "c2", "Pantheon");
    let resolution = &second.entities[0];
    let got: Vec<MemoryEntityId> = match &resolution.origin {
        ResolutionOrigin::Ambiguous { candidates } => candidates.to_vec(),
        other => panic!("expected Ambiguous, got {other:?}"),
    };
    assert_eq!(got, vec![a.id, b.id], "candidates are the two existing entities");
    assert!(!got.contains(&resolution.id));
    assert_eq!(second.companion_commit_id, None, "an ambiguous match asserts no identity");
    assert_eq!(store.now().entity_class(resolution.id).members.as_slice(), &[resolution.id]);
}

#[test]
fn match_by_source_url_joins_existing_image_class() {
    let url = "https://example.com/photo.jpg";
    let mut store = MemoryFactStore::new();
    let first = submit(&mut store, "c1", local(0, 0, 1, vec![image_source_fact(0, url)])).unwrap();
    let existing = first.images[0].id;
    let found = by_source(&store, url);
    let second = submit_matched(
        &mut store,
        "c2",
        local(0, 0, 1, vec![image_source_fact(0, url)]),
        matching(vec![], vec![found]),
    )
    .unwrap();
    let resolution = &second.images[0];
    assert_eq!(resolution.origin, ResolutionOrigin::MatchedExisting { matched: existing });
    assert_ne!(resolution.id, existing);
    assert!(store.now().image_class(resolution.id).members.contains(&existing));
    let companion_id = second.companion_commit_id.expect("expected a companion commit");
    assert_eq!(
        sole_judgment_of(&store, &companion_id).assertion,
        JudgmentAssertion::Identity {
            fact: identity::Fact::SameArtifact {
                pair: DistinctPair::new(resolution.id, existing).unwrap(),
            },
        }
    );
}

#[test]
fn different_source_url_mints_fresh_image() {
    let mut store = MemoryFactStore::new();
    let facts = vec![image_source_fact(0, "https://example.com/photo.jpg")];
    let existing = submit(&mut store, "c1", local(0, 0, 1, facts)).unwrap().images[0].id;
    let found = by_source(&store, "https://example.com/other.jpg");
    let second = submit_matched(
        &mut store,
        "c2",
        local(0, 0, 1, vec![image_source_fact(0, "https://example.com/other.jpg")]),
        matching(vec![], vec![found]),
    )
    .unwrap();
    assert_eq!(second.images[0].origin, ResolutionOrigin::NewlyMinted);
    assert_ne!(second.images[0].id, existing);
}

#[test]
fn each_commit_mints_its_own_events() {
    let mut store = MemoryFactStore::new();
    let first = submit(&mut store, "c1", local(0, 1, 0, vec![event_point_date_fact(0)])).unwrap();
    assert_eq!(first.events[0].origin, ResolutionOrigin::NewlyMinted);
    let second = submit(&mut store, "c2", local(0, 1, 0, vec![event_point_date_fact(0)])).unwrap();
    assert_eq!(second.events[0].origin, ResolutionOrigin::NewlyMinted);
    assert_ne!(first.events[0].id, second.events[0].id);
}

#[test]
fn match_canonicalises_to_class_representative() {
    let mut store = MemoryFactStore::new();
    let a = commit_named(&mut store, "c1", "Pantheon").entities[0].id;
    let second = submit(
        &mut store,
        "c2",
        bundle(
            vec![Decl::Existing { id: a }, Decl::Local],
            vec![],
            vec![],
            vec![name_fact(1, "Rotonda"), same_entity_fact(0, 1)],
        ),
    )
    .unwrap();
    let b = second.entities[1].id;
    assert_ne!(a, b);
    let third = commit_named(&mut store, "c3", "Rotonda");
    let resolution = &third.entities[0];
    assert_eq!(resolution.origin, ResolutionOrigin::MatchedExisting { matched: a.min(b) });
    assert_eq!(
        store.now().entity_class(resolution.id).members.as_slice(),
        &[a, b, resolution.id],
        "the fresh mint grows the class to three members"
    );
}

#[test]
fn two_local_decls_matching_one_entity_join_its_class() {
    let mut store = MemoryFactStore::new();
    let existing = commit_named(&mut store, "c1", "Pantheon").entities[0].id;
    let found = vec![by_name(&store, "Pantheon", "en"), by_name(&store, "Pantheon", "en")];
    let facts =
        vec![name_fact(0, "Pantheon"), name_fact(1, "Pantheon"), same_entity_fact(0, 1)];
    let second =
        submit_matched(&mut store, "c2", local(2, 0, 0, facts), matching(found, vec![])).unwrap();
    let (a, b) = (&second.entities[0], &second.entities[1]);
    assert_eq!(a.origin, ResolutionOrigin::MatchedExisting { matched: existing });
    assert_eq!(b.origin, ResolutionOrigin::MatchedExisting { matched: existing });
    assert_ne!(a.id, b.id, "each matched decl mints its own fresh id");
    let companion_id = second.companion_commit_id.expect("expected a companion commit");
    assert_eq!(
        stored_commit(&store, &companion_id).fact_ids.len(),
        2,
        "one identity judgment per matched decl"
    );
    assert_eq!(
        store.now().entity_class(existing).members.as_slice(),
        &[existing, a.id, b.id],
        "both mints class with the matched entity"
    );
}

#[test]
fn resubmitted_match_reports_same_companion_without_new_facts() {
    let mut store = MemoryFactStore::new();
    commit_named(&mut store, "c1", "Pantheon");
    let first = commit_named(&mut store, "c2", "Pantheon");
    assert!(first.companion_commit_id.is_some());
    let watermark = store.next_fact_id();
    let second = commit_named(&mut store, "c2", "Pantheon");
    assert!(second.previously_committed);
    assert_eq!(second.commit_id, first.commit_id);
    assert_eq!(second.companion_commit_id, first.companion_commit_id);
    assert_eq!(store.next_fact_id(), watermark, "a re-submission mints nothing");
}

#[test]
fn retracting_companion_commit_dissolves_the_class() {
    let mut store = MemoryFactStore::new();
    let existing = commit_named(&mut store, "c1", "Pantheon").entities[0].id;
    let second = commit_named(&mut store, "c2", "Pantheon");
    let fresh = second.entities[0].id;
    let companion_id = second.companion_commit_id.expect("expected a companion commit");
    let linked_at = store.next_fact_id();
    submit(&mut store, "r", local(0, 0, 0, vec![retract_commit_fact(companion_id)])).unwrap();

    let before = store.no_later_than(linked_at).entity_class(fresh);
    assert!(before.members.contains(&existing), "before the retraction the pair shares a class");
    assert_eq!(
        store.now().entity_class(fresh).members.as_slice(),
        &[fresh],
        "the retraction dissolves the edge"
    );
    assert_eq!(store.now().entity_class(existing).members.as_slice(), &[existing]);
    // What the commit itself says still stands.
    assert!(is_active(store.now().fact_at(second.fact_ids[0])));
}

// --- Errors ---

#[test]
fn fact_referencing_out_of_range_entity_idx_returns_error() {
    let mut store = MemoryFactStore::new();
    assert_eq!(
        errors(&mut store, "c", local(1, 0, 0, vec![name_fact(5, "x")])),
        vec![MemSubmitError::EntityIdxOutOfRange { idx: 5, decl_count: 1 }]
    );
}

#[test]
fn fact_referencing_out_of_range_event_idx_returns_error() {
    let mut store = MemoryFactStore::new();
    assert_eq!(
        errors(&mut store, "c", local(0, 1, 0, vec![event_point_date_fact(5)])),
        vec![MemSubmitError::EventIdxOutOfRange { idx: 5, decl_count: 1 }]
    );
}

#[test]
fn fact_referencing_out_of_range_image_idx_returns_error() {
    let mut store = MemoryFactStore::new();
    assert_eq!(
        errors(&mut store, "c", local(0, 0, 1, vec![is_picture_fact(5)])),
        vec![MemSubmitError::ImageIdxOutOfRange { idx: 5, decl_count: 1 }]
    );
}

#[test]
fn entity_idx_at_decl_count_is_first_rejected() {
    let mut store = MemoryFactStore::new();
    assert_eq!(
        errors(&mut store, "c", local(3, 0, 0, vec![name_fact(3, "x")])),
        vec![MemSubmitError::EntityIdxOutOfRange { idx: 3, decl_count: 3 }]
    );
}

#[test]
fn entity_idx_at_decl_count_minus_one_is_accepted() {
    let mut store = MemoryFactStore::new();
    let facts = vec![name_fact(0, "a"), name_fact(1, "b"), name_fact(2, "last-valid")];
    assert!(submit(&mut store, "c", local(3, 0, 0, facts)).is_ok());
}

#[test]
fn unreferenced_entity_decl_rejected_as_unused() {
    let mut store = MemoryFactStore::new();
    // Declaration 0 is never mentioned; declaration 1 is.
    assert_eq!(
        errors(&mut store, "c", local(2, 0, 0, vec![name_fact(1, "referenced")])),
        vec![MemSubmitError::UnusedDeclaration { kind: SubjectKind::Entity, position: 0 }]
    );
    assert_eq!(
        errors(&mut store, "c", local(0, 1, 1, vec![])),
        vec![
            MemSubmitError::UnusedDeclaration { kind: SubjectKind::Event, position: 0 },
            MemSubmitError::UnusedDeclaration { kind: SubjectKind::Image, position: 0 },
        ]
    );
}

#[test]
fn decl_existing_unknown_entity_id_rejected() {
    let mut store = MemoryFactStore::new();
    let commit = bundle(
        vec![Decl::Existing { id: MemoryEntityId(999) }],
        vec![],
        vec![],
        vec![name_fact(0, "x")],
    );
    assert_eq!(
        errors(&mut store, "c", commit),
        vec![MemSubmitError::UnknownExistingEntity { decl_position: EntityIdx(0) }]
    );
}

#[test]
fn decl_existing_unknown_event_id_rejected() {
    let mut store = MemoryFactStore::new();
    let commit = bundle(
        vec![],
        vec![Decl::Existing { id: MemoryEventId(999) }],
        vec![],
        vec![event_point_date_fact(0)],
    );
    assert_eq!(
        errors(&mut store, "c", commit),
        vec![MemSubmitError::UnknownExistingEvent { decl_position: EventIdx(0) }]
    );
}

#[test]
fn decl_existing_unknown_image_id_rejected() {
    let mut store = MemoryFactStore::new();
    let commit = bundle(
        vec![],
        vec![],
        vec![Decl::Existing { id: MemoryImageId(999) }],
        vec![is_picture_fact(0)],
    );
    assert_eq!(
        errors(&mut store, "c", commit),
        vec![MemSubmitError::UnknownExistingImage { decl_position: ImageIdx(0) }]
    );
}

#[test]
fn same_entity_resolving_to_one_id_rejected_at_substitution() {
    let mut store = MemoryFactStore::new();
    let entity = commit_name(&mut store, "real-entity").entities[0].id;
    let commit = bundle(
        vec![Decl::Existing { id: entity }, Decl::Existing { id: entity }],
        vec![],
        vec![],
        vec![same_entity_fact(0, 1)],
    );
    assert_eq!(
        errors(&mut store, "c", commit),
        vec![
            MemSubmitError::IdentityEntitySelfEquivalence { id: entity },
            MemSubmitError::DuplicateEntityDecl { id: entity },
        ]
    );
}

#[test]
fn a_relationship_of_an_entity_with_itself_is_rejected() {
    let mut store = MemoryFactStore::new();
    let entity = commit_name(&mut store, "real-entity").entities[0].id;
    let commit = bundle(
        vec![Decl::Existing { id: entity }, Decl::Existing { id: entity }],
        vec![],
        vec![],
        vec![relationship_fact(0, 1)],
    );
    assert_eq!(
        errors(&mut store, "c", commit),
        vec![
            MemSubmitError::RelationshipSelfLoop { id: entity },
            MemSubmitError::DuplicateEntityDecl { id: entity },
        ]
    );
    assert!(DistinctPair::new(3u64, 3).is_err());
}

#[test]
fn two_entity_decls_resolving_to_one_id_rejected() {
    let mut store = MemoryFactStore::new();
    let entity = commit_name(&mut store, "real-entity").entities[0].id;
    let commit = bundle(
        vec![Decl::Existing { id: entity }, Decl::Existing { id: entity }],
        vec![],
        vec![],
        vec![name_fact(0, "via-decl-0"), name_fact(1, "via-decl-1")],
    );
    assert_eq!(
        errors(&mut store, "c", commit),
        vec![MemSubmitError::DuplicateEntityDecl { id: entity }]
    );
}

#[test]
fn rejected_commits_change_nothing() {
    let mut store = MemoryFactStore::new();
    commit_name(&mut store, "kept");
    let mark = store.next_fact_id();
    errors(&mut store, "c", local(2, 0, 0, vec![name_fact(1, "x")]));
    let found = by_name(&store, "kept", "en");
    let refused = store.submit_commit(
        id("c"),
        companion("c"),
        local(1, 0, 0, vec![name_fact(0, "x")]),
        matching(vec![found], vec![]),
        vec![MemSubmitError::RuleViolation { rule: "no such thing".to_string() }],
    );
    assert_eq!(
        refused.unwrap_err().into_vec(),
        vec![MemSubmitError::RuleViolation { rule: "no such thing".to_string() }]
    );
    assert_eq!(store.next_fact_id(), mark);
    assert!(!store.now().commit_known_at(&id("c")));
    assert!(!store.now().commit_known_at(&companion("c")));
    // The same commit lands once it is in order, with the next entity.
    let landed = submit(&mut store, "c", local(1, 0, 0, vec![name_fact(0, "x")])).unwrap();
    assert!(!landed.previously_committed);
    assert_eq!(landed.fact_ids, vec![mark]);
    assert_eq!(landed.entities[0].id, MemoryEntityId(1));
}

#[test]
fn unresolvable_references_are_batched_and_nothing_else_is_checked() {
    let mut store = MemoryFactStore::new();
    let commit = bundle(
        vec![Decl::Local, Decl::Existing { id: MemoryEntityId(7) }],
        vec![],
        vec![],
        vec![name_fact(9, "a"), name_fact(4, "b"), event_point_date_fact(0)],
    );
    assert_eq!(
        errors(&mut store, "c", commit),
        vec![
            MemSubmitError::EntityIdxOutOfRange { idx: 4, decl_count: 2 },
            MemSubmitError::EntityIdxOutOfRange { idx: 9, decl_count: 2 },
            MemSubmitError::EventIdxOutOfRange { idx: 0, decl_count: 0 },
            MemSubmitError::UnknownExistingEntity { decl_position: EntityIdx(1) },
        ]
    );
}

// --- Staging ---

#[test]
fn union_source_mint_push_apply_lands_at_expected_fact_id() {
    fn stored_name() -> MemStoredFact {
        StoredFact::Factual(StoredFactualFact {
            assertion: FactualAssertion::Attribute {
                fact: attribute::Fact::Name {
                    entity: MemoryEntityId(0),
                    name: "seed".to_string(),
                    language: Language::parse("en").unwrap(),
                    name_type: attribute::NameType::Common,
                    valid_from: None,
                    valid_to: None,
                },
            },
            citation: sample_citation(),
        })
    }
    let mut inner = Inner::new();
    let mut source = UnionSource::from_inner(&inner);
    source.mint_entity();
    source.push_fact(stored_name());
    let pending = source.into_pending();
    apply_pending(&mut inner, pending, &id("seed"));
    assert_eq!(inner.facts.len(), 1);

    let expected = FactId::new(1);
    let mut source = UnionSource::from_inner(&inner);
    source.mint_entity();
    source.mint_event();
    source.mint_image();
    source.push_fact(stored_name());
    assert!(is_active(source.lend_core().fact_at(expected)), "a staged fact reads Active");
    assert_eq!(source.lend_core().placement_at(expected), FactPlacement::InFlight);
    let pending = source.into_pending();
    let assigned = apply_pending(&mut inner, pending, &id("next"));
    assert_eq!(assigned, vec![expected]);
    assert_eq!(inner.facts.len(), 2);
    assert_eq!((inner.next_entity_id, inner.next_event_id, inner.next_image_id), (2, 1, 1));
}

#[test]
fn a_commit_that_is_being_prepared_can_be_read() {
    let mut store = MemoryFactStore::new();
    let first = commit_name(&mut store, "first");
    let delta = store.prepare(
        local(0, 0, 0, vec![retract_fact(first.fact_ids[0])]),
        matching(vec![], vec![]),
    );
    assert!(delta.errors.is_empty());
    {
        let core = store.with_delta(&delta);
        assert!(!is_active(core.fact_at(first.fact_ids[0])), "retracted by what is prepared");
        assert_eq!(core.placement_at(FactId::new(1)), FactPlacement::InFlight);
        assert_eq!(core.placement_at(FactId::new(0)), FactPlacement::Committed);
        assert_eq!(core.placement_at(FactId::new(2)), FactPlacement::Absent);
    }
    assert!(is_active(store.now().fact_at(first.fact_ids[0])), "nothing landed yet");
    store.finish(id("c2"), companion("c2"), delta, vec![]).unwrap();
    assert!(!is_active(store.now().fact_at(first.fact_ids[0])));
}

// --- Retraction and snapshots ---

#[test]
fn retract_commit_targeting_recorded_commit_succeeds() {
    let mut store = MemoryFactStore::new();
    commit_name(&mut store, "target");
    assert!(store.now().commit_known_at(&id("target")));
    assert!(!store.now().commit_known_at(&id("phantom")));
    assert!(!store.no_later_than(FactId::new(0)).commit_known_at(&id("phantom")));
    let r = submit(&mut store, "r", local(0, 0, 0, vec![retract_commit_fact(id("target"))]));
    assert_eq!(r.unwrap().fact_ids.len(), 1);
}

#[test]
fn retract_fact_targeting_prior_fact_accepted() {
    let mut store = MemoryFactStore::new();
    let target = commit_name(&mut store, "to-retract").fact_ids[0];
    let result = submit(&mut store, "r", local(0, 0, 0, vec![retract_fact(target)])).unwrap();
    assert_eq!(result.fact_ids.len(), 1, "the retraction meta-fact must be recorded");
}

#[test]
fn retract_fact_hides_target_only_after_its_commit() {
    let mut store = MemoryFactStore::new();
    let target = commit_name(&mut store, "fact-x").fact_ids[0];
    let retractor = commit_retract(&mut store, "r", target);
    assert!(is_active(store.no_later_than(retractor).fact_at(target)));
    assert_eq!(store.now().fact_at(target), FactLookup::Retracted { by: retractor });
}

#[test]
fn read_snapshot_placement_is_committed_or_absent() {
    let mut store = MemoryFactStore::new();
    let committed = commit_name(&mut store, "alpha").fact_ids[0];
    let snapshot = store.next_fact_id();
    let view = store.now();
    assert_eq!(view.placement_at(committed), FactPlacement::Committed);
    assert_eq!(view.placement_at(snapshot), FactPlacement::Absent);
}

#[test]
fn read_snapshot_placement_never_inflight_past_watermark() {
    let mut store = MemoryFactStore::new();
    commit_name(&mut store, "alpha");
    commit_name(&mut store, "beta");
    assert_eq!(store.next_fact_id(), FactId::new(2));
    let view = store.no_later_than(FactId::new(1_000));
    assert_eq!(view.placement_at(FactId::new(500)), FactPlacement::Absent);
    assert_eq!(view.placement_at(FactId::new(0)), FactPlacement::Committed);
}

#[test]
fn lookups_past_the_snapshot_are_future_or_unknown() {
    let mut store = MemoryFactStore::new();
    commit_name(&mut store, "alpha");
    commit_name(&mut store, "beta");
    let view = store.no_later_than(FactId::new(1));
    assert!(is_active(view.fact_at(FactId::new(0))));
    assert_eq!(view.fact_at(FactId::new(1)), FactLookup::Future);
    assert_eq!(store.no_later_than(FactId::new(9)).fact_at(FactId::new(5)), FactLookup::Unknown);
}

#[test]
fn retract_commit_hides_every_fact_of_target() {
    let mut store = MemoryFactStore::new();
    let original = submit(
        &mut store,
        "target",
        local(1, 0, 0, vec![name_fact(0, "Pantheon"), construction_started_fact(0)]),
    )
    .unwrap();
    let retraction =
        submit(&mut store, "r", local(0, 0, 0, vec![retract_commit_fact(id("target"))])).unwrap();
    let view = store.now();
    for fact_id in &original.fact_ids {
        assert_eq!(
            view.fact_at(*fact_id),
            FactLookup::Retracted { by: retraction.fact_ids[0] }
        );
    }
}

#[test]
fn supersede_fact_hides_target_and_keeps_replacement() {
    let mut store = MemoryFactStore::new();
    let target = commit_name(&mut store, "old-value").fact_ids[0];
    let replacement = commit_name(&mut store, "new-value").fact_ids[0];
    let by = submit(&mut store, "s", local(0, 0, 0, vec![supersede_fact(target, replacement)]))
        .unwrap()
        .fact_ids[0];
    assert_eq!(store.now().fact_at(target), FactLookup::Retracted { by });
    assert!(is_active(store.now().fact_at(replacement)));
}

#[test]
fn retraction_of_retraction_restores_visibility() {
    let mut store = MemoryFactStore::new();
    let f1 = commit_name(&mut store, "f1").fact_ids[0];
    let r1 = commit_retract(&mut store, "c2", f1);
    let r2 = commit_retract(&mut store, "c3", r1);
    assert!(is_active(store.no_later_than(r1).fact_at(f1)));
    assert_eq!(store.no_later_than(r2).fact_at(f1), FactLookup::Retracted { by: r1 });
    assert!(is_active(store.now().fact_at(f1)));
}

#[test]
fn retracted_by_reports_lowest_still_effective_retractor() {
    let mut store = MemoryFactStore::new();
    let f = commit_name(&mut store, "multiply-retracted").fact_ids[0];
    // Two independent retractions (the first has the lower id).
    let ra = commit_retract(&mut store, "ra", f);
    let rb = commit_retract(&mut store, "rb", f);
    assert_eq!(store.now().retracted_by(f), Some(ra));
    assert_eq!(store.now().retractor_ids(f), vec![ra, rb]);
    commit_retract(&mut store, "rc", ra);
    assert_eq!(
        store.now().fact_at(f),
        FactLookup::Retracted { by: rb },
        "ra is cancelled, so rb is the lowest still-effective retractor"
    );
}

// --- Facts about a subject ---

#[test]
fn all_facts_about_entity_returns_facts_mentioning_it() {
    let mut store = MemoryFactStore::new();
    let result = submit(
        &mut store,
        "c1",
        local(1, 0, 0, vec![name_fact(0, "Pantheon"), construction_started_fact(0)]),
    )
    .unwrap();
    assert_eq!(result.fact_ids.len(), 2);
    let view = store.now();
    let page = view.all_facts_about_entity(result.entities[0].id, FactId::new(0), PAGE_100);
    assert_eq!(page_ids(&page), result.fact_ids);
    assert_eq!(page.next_cursor, None);
}

#[test]
fn all_facts_about_event_returns_facts_mentioning_it() {
    let mut store = MemoryFactStore::new();
    let result = submit(
        &mut store,
        "c1",
        local(0, 1, 0, vec![event_point_date_fact(0), event_description_fact(0)]),
    )
    .unwrap();
    let view = store.now();
    let page = view.all_facts_about_event(result.events[0].id, FactId::new(0), PAGE_100);
    assert_eq!(page_ids(&page), result.fact_ids);
}

#[test]
fn all_facts_about_image_returns_facts_mentioning_it() {
    let mut store = MemoryFactStore::new();
    let facts = vec![is_picture_fact(0), image_source_fact(0, "https://example.com/a.png")];
    let result = submit(&mut store, "c1", local(0, 0, 1, facts)).unwrap();
    let view = store.now();
    let page = view.all_facts_about_image(result.images[0].id, FactId::new(0), PAGE_100);
    assert_eq!(page_ids(&page), result.fact_ids);
}

#[test]
fn all_facts_about_image_excludes_retracted() {
    let mut store = MemoryFactStore::new();
    let facts = vec![is_picture_fact(0), image_source_fact(0, "https://example.com/a.png")];
    let result = submit(&mut store, "c1", local(0, 0, 1, facts)).unwrap();
    commit_retract(&mut store, "r", result.fact_ids[0]);
    let view = store.now();
    let page = view.all_facts_about_image(result.images[0].id, FactId::new(0), PAGE_100);
    assert_eq!(page_ids(&page), vec![result.fact_ids[1]]);
}

#[test]
fn all_facts_about_image_respects_snapshot() {
    let mut store = MemoryFactStore::new();
    let first = submit(&mut store, "c1", local(0, 0, 1, vec![is_picture_fact(0)])).unwrap();
    let image = first.images[0].id;
    let before = store.next_fact_id();
    submit(
        &mut store,
        "c2",
        bundle(
            vec![],
            vec![],
            vec![Decl::Existing { id: image }],
            vec![image_source_fact(0, "https://example.com/a.png")],
        ),
    )
    .unwrap();
    let then = store.no_later_than(before);
    assert_eq!(page_ids(&then.all_facts_about_image(image, FactId::new(0), PAGE_100)), first.fact_ids);
    let now = store.now();
    assert_eq!(now.all_facts_about_image(image, FactId::new(0), PAGE_100).items.len(), 2);
}

#[test]
fn a_full_page_names_the_next_id_though_nothing_is_left_to_show() {
    let mut store = MemoryFactStore::new();
    let first = submit(
        &mut store,
        "c1",
        local(1, 0, 0, vec![name_fact(0, "kept"), name_fact(0, "withdrawn")]),
    )
    .unwrap();
    commit_retract(&mut store, "r", first.fact_ids[1]);
    let view = store.now();
    let entity = first.entities[0].id;
    // The withdrawn fact comes next, and is not shown.
    let page = view.all_facts_about_entity(entity, FactId::new(0), 1);
    assert_eq!(page_ids(&page), vec![first.fact_ids[0]]);
    assert_eq!(page.next_cursor, Some(first.fact_ids[1]));
    let rest = view.all_facts_about_entity(entity, first.fact_ids[1], 1);
    assert!(rest.items.is_empty() && rest.next_cursor.is_none());
    // A walk by name goes over all facts, wanted or not.
    let english = Language::parse("en").unwrap();
    let stream = EntityStream::ByName { name: "kept", language: &english };
    let page = view.walk_entities(&stream, FactId::new(0), 1);
    assert_eq!(page_ids(&page), vec![first.fact_ids[0]]);
    assert_eq!(page.next_cursor, Some(FactId::new(1)));
    let page = view.walk_entities(&stream, FactId::new(0), 2);
    assert_eq!(page.next_cursor, None);
}

#[test]
fn the_id_for_a_companion_matters_only_where_one_arises() {
    let mut store = MemoryFactStore::new();
    commit_name(&mut store, "first");
    // Nothing is recognized, so the id that is taken is never used.
    let second = store
        .submit_commit(
            id("second"),
            id("first"),
            local(1, 0, 0, vec![name_fact(0, "second")]),
            matching(vec![], vec![]),
            vec![],
        )
        .unwrap();
    assert_eq!(second.companion_commit_id, None);
    assert_eq!(store.now().committed.commits.len(), 2);
}

#[test]
fn pages_of_any_size_drain_the_active_facts() {
    let mut store = MemoryFactStore::new();
    let first = commit_name(&mut store, "n0");
    let entity = first.entities[0].id;
    let mut all = vec![first.fact_ids[0]];
    for k in 1..9 {
        let r = submit(
            &mut store,
            &format!("n{k}"),
            bundle(
                vec![Decl::Existing { id: entity }],
                vec![],
                vec![],
                vec![name_fact(0, &format!("n{k}"))],
            ),
        )
        .unwrap();
        all.push(r.fact_ids[0]);
        // Something that is not about the entity, in between.
        commit_name(&mut store, &format!("other{k}"));
    }
    commit_retract(&mut store, "r1", all[2]);
    commit_retract(&mut store, "r2", all[8]);
    all.retain(|id| *id != FactId::new(3) && *id != all_last());
    fn all_last() -> FactId {
        FactId::new(15)
    }
    let view = store.now();
    for limit in 1..12 {
        let fetch = |cursor: FactId| -> Result<_, String> {
            Ok(view.all_facts_about_entity(entity, cursor, limit))
        };
        let rows = drain_pages(&fetch).unwrap();
        assert_eq!(rows.iter().map(|r| r.fact_id).collect::<Vec<_>>(), all, "limit {limit}");
        assert_eq!(drain_facts(&fetch).unwrap().len(), all.len());
        assert_eq!(
            drain_id_facts(&fetch).unwrap().iter().map(|r| r.0).collect::<Vec<_>>(),
            all
        );
    }
    let failing = |_: FactId| -> Result<FactPage<u8, u8>, String> { Err("gone".to_string()) };
    assert_eq!(drain_pages(&failing).unwrap_err(), "gone");
}

// --- Classes ---

#[test]
fn entity_class_contains_both_same_entity_members() {
    let mut store = MemoryFactStore::new();
    let result = submit(&mut store, "c1", local(2, 0, 0, vec![same_entity_fact(0, 1)])).unwrap();
    let (a, b) = (result.entities[0].id, result.entities[1].id);
    assert_ne!(a, b, "the two Local decls must mint distinct ids");
    let class = store.now().entity_class(a);
    assert!(class.members.contains(&a) && class.members.contains(&b));
}

#[test]
fn entity_representative_is_canonical_across_same_entity_members() {
    let mut store = MemoryFactStore::new();
    let result = submit(&mut store, "c1", local(2, 0, 0, vec![same_entity_fact(0, 1)])).unwrap();
    let (a, b) = (result.entities[0].id, result.entities[1].id);
    let view = store.now();
    let rep = view.entity_representative(a);
    assert_eq!(rep, view.entity_representative(b), "members share one representative");
    assert!(rep == a || rep == b);
    assert_eq!(view.entity_class(a).representative, rep);
}

#[test]
fn image_class_contains_both_same_artifact_members() {
    let mut store = MemoryFactStore::new();
    let result = submit(&mut store, "c1", local(0, 0, 2, vec![same_artifact_fact(0, 1)])).unwrap();
    let (a, b) = (result.images[0].id, result.images[1].id);
    let class = store.now().image_class(a);
    assert!(class.members.contains(&a) && class.members.contains(&b));
}

#[test]
fn image_representative_is_canonical_across_same_artifact_members() {
    let mut store = MemoryFactStore::new();
    let result = submit(&mut store, "c1", local(0, 0, 2, vec![same_artifact_fact(0, 1)])).unwrap();
    let (a, b) = (result.images[0].id, result.images[1].id);
    let view = store.now();
    let rep = view.image_representative(a);
    assert_eq!(rep, view.image_representative(b));
    assert!(rep == a || rep == b);
    assert_eq!(view.image_class(b).representative, rep);
}

#[test]
fn classes_are_transitive_and_dissolve_with_the_retraction() {
    let mut store = MemoryFactStore::new();
    let result = submit(
        &mut store,
        "c1",
        local(4, 0, 0, vec![same_entity_fact(2, 1), same_entity_fact(0, 2), name_fact(3, "x")]),
    )
    .unwrap();
    let e: Vec<MemoryEntityId> = result.entities.iter().map(|r| r.id).collect();
    let linked = store.next_fact_id();
    assert_eq!(store.now().entity_class(e[1]).members.as_slice(), &[e[0], e[1], e[2]]);
    assert_eq!(store.now().entity_representative(e[2]), e[0], "the least member");
    assert_eq!(store.now().entity_class(e[3]).members.as_slice(), &[e[3]]);
    commit_retract(&mut store, "r", result.fact_ids[1]);
    assert_eq!(store.now().entity_class(e[0]).members.as_slice(), &[e[0]]);
    assert_eq!(store.now().entity_class(e[2]).members.as_slice(), &[e[1], e[2]]);
    assert_eq!(store.no_later_than(linked).entity_class(e[0]).members.len(), 3);
}

#[test]
fn an_event_is_a_class_of_its_own() {
    let store = MemoryFactStore::new();
    let view = store.now();
    assert_eq!(view.event_class(MemoryEventId(3)).members.as_slice(), &[MemoryEventId(3)]);
    assert_eq!(view.event_representative(MemoryEventId(3)), MemoryEventId(3));
    let around = view.entity_topological_subgraph(MemoryEntityId(4));
    assert_eq!(around.subjects, vec![MemoryEntityId(4)]);
    assert!(around.edge_facts.is_empty() && !around.truncated);
}

// --- Walks by key ---

#[test]
fn walks_find_entities_by_name_and_reference_and_images_by_source() {
    let mut store = MemoryFactStore::new();
    let a = submit(
        &mut store,
        "c1",
        local(1, 0, 0, vec![name_fact(0, "  PANTHEON "), external_reference_fact(0, 243)]),
    )
    .unwrap();
    let b = submit(
        &mut store,
        "c2",
        bundle(
            vec![Decl::Existing { id: a.entities[0].id }, Decl::Local],
            vec![],
            vec![],
            vec![name_fact(1, "Rotonda"), same_entity_fact(0, 1)],
        ),
    )
    .unwrap();
    let view = store.now();
    let english = Language::parse("en").unwrap();
    assert_eq!(normalize_name(" Pantheon "), "pantheon");
    let start = FactId::new(0);
    let stream = EntityStream::ByName { name: "PANTHEON ", language: &english };
    let page = view.walk_entities(&stream, start, PAGE_100);
    assert_eq!(page_ids(&page), vec![a.fact_ids[0]]);
    // A hit on another member of the class reports its representative.
    let stream = EntityStream::ByName { name: "rotonda", language: &english };
    let page = view.walk_entities(&stream, start, PAGE_100);
    assert_eq!(page_ids(&page), vec![b.fact_ids[0]]);
    assert_eq!(page.items[0].representative, a.entities[0].id);
    let german = Language::parse("de").unwrap();
    let stream = EntityStream::ByName { name: "pantheon", language: &german };
    assert!(view.walk_entities(&stream, start, PAGE_100).items.is_empty());
    let reference = ExternalReference::Wikidata { qid: WikidataEntityId::new(243) };
    let stream = EntityStream::ByExternalReference { reference: &reference };
    let page = view.walk_entities(&stream, start, PAGE_100);
    assert_eq!(page_ids(&page), vec![a.fact_ids[1]]);

    let c = submit(
        &mut store,
        "c3",
        local(0, 0, 1, vec![image_source_fact(0, "https://example.com/a.png")]),
    )
    .unwrap();
    let view = store.now();
    let url = WebUrl::parse("https://EXAMPLE.com/a.png").unwrap();
    let page = view.walk_images(&ImageStream::BySourceUrl { url: &url }, start, PAGE_100);
    assert_eq!(page_ids(&page), c.fact_ids);
    assert_eq!(page.items[0].representative, c.images[0].id);

    // The streams without a key are empty.
    let page = view.walk_entities(&EntityStream::All, start, PAGE_100);
    assert!(page.items.is_empty() && page.next_cursor.is_none());
    assert!(view.walk_images(&ImageStream::All, start, PAGE_100).items.is_empty());
    assert!(view.walk_events(&EventStream::All, start, PAGE_100).items.is_empty());
}

#[test]
fn a_full_page_of_a_walk_says_where_the_next_starts() {
    let mut store = MemoryFactStore::new();
    for k in 0..5 {
        submit(&mut store, &format!("c{k}"), local(1, 0, 0, vec![name_fact(0, "same")])).unwrap();
    }
    let view = store.now();
    let english = Language::parse("en").unwrap();
    let named = Named { needle: "same", language: &english };
    let page = view.walk_matching::<SameEntity, _>(FactId::new(0), 2, &named);
    assert_eq!(page_ids(&page), vec![FactId::new(0), FactId::new(1)]);
    assert_eq!(page.next_cursor, Some(FactId::new(2)));
    let rest = view.walk_matching::<SameEntity, _>(FactId::new(2), 9, &named);
    assert_eq!(rest.items.len(), 3);
    assert_eq!(rest.next_cursor, None);
}

// --- Dates of facts ---

#[test]
fn dates_are_read_off_facts() {
    let mut store = MemoryFactStore::new();
    let r = submit(
        &mut store,
        "c1",
        local(
            1,
            1,
            0,
            vec![construction_started_fact(0), name_fact(0, "x"), event_point_date_fact(0)],
        ),
    )
    .unwrap();
    let view = store.now();
    let fact = |k: usize| match view.fact_at(r.fact_ids[k]) {
        FactLookup::Active(fact) => fact,
        other => panic!("expected Active, got {other:?}"),
    };
    assert_eq!(fact_date(fact(0)), Some(&year(1700)));
    assert_eq!(fact_date(fact(1)), None);
    assert_eq!(fact_date(fact(2)), Some(&year(1850)));
    assert!(is_construction_start(fact(0)));
    assert!(!is_construction_start(fact(2)));
    let lineage = fact_lineage(&r.fact_ids[0], &r.entities[0].id, fact(0));
    let atoms = lineage.atoms();
    assert_eq!(atoms.len(), 1);
    assert_eq!(atoms[0].id, r.fact_ids[0]);
}

#[test]
fn ids_of_the_store_have_names() {
    assert_eq!(MemoryEntityId(3).to_string(), "entity-3");
    assert_eq!(MemoryEventId(0).to_string(), "event-0");
    assert_eq!(MemoryImageId(12).to_string(), "image-12");
}
