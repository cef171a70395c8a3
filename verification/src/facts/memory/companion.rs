//! Companion commits: what a matcher recognized, as judgments of its own.
//!
//! A local declaration that a matcher recognizes still gets a new id. That the new
//! id stands for a known thing is a judgment like any other: it is derived by the
//! matcher, lands in a commit of its own right after the commit it is about, and can
//! be taken back without it.
use vstd::prelude::*;

use super::ids::{MemStoredFact, MemoryEntityId, MemoryImageId};
use super::resolve::{link_view, link_views, Link};
use crate::algebra::ordered::OrderedSet;
use crate::facts::assertions::JudgmentAssertion;
use crate::facts::citations::JudgmentSource;
use crate::facts::identity::{self, DistinctPair};
use crate::facts::ids::{AnalyzerProcess, AnalyzerVersion, FactId};
use crate::facts::submit::{MatchOutcome, StoredFact, StoredJudgmentFact};

verus! {

/// What a matcher made of the local declarations of a commit, by position, and which
/// matcher it was.
#[derive(Debug)]
pub struct Matching {
    /// What it made of the entities.
    pub entities: Vec<Option<MatchOutcome<MemoryEntityId>>>,
    /// What it made of the images.
    pub images: Vec<Option<MatchOutcome<MemoryImageId>>>,
    /// The matcher.
    pub process: AnalyzerProcess,
    /// Its version.
    pub version: AnalyzerVersion,
}

/// Whether a judgment was derived by this process from these facts at this snapshot.
pub open spec fn derived(
    source: JudgmentSource,
    by: AnalyzerProcess,
    at: AnalyzerVersion,
    from: Set<u64>,
    seen: nat,
) -> bool {
    match source {
        JudgmentSource::Derivation { process, version, basis, snapshot } => {
            &&& process == by
            &&& version == at
            &&& basis@ == from
            &&& snapshot@ == seen
        },
        _ => false,
    }
}

/// Whether a fact is the judgment that the new id of a link stands for the same
/// entity as what it was recognized as.
pub open spec fn says_same_entity(
    fact: MemStoredFact,
    link: (u64, u64, Set<u64>),
    by: AnalyzerProcess,
    at: AnalyzerVersion,
    seen: nat,
) -> bool {
    match fact {
        StoredFact::Judgment(judgment) => match judgment.assertion {
            JudgmentAssertion::Identity { fact: identity::Fact::SameEntity { pair } } => {
                &&& pair.first()@ == link.0
                &&& pair.second()@ == link.1
                &&& derived(judgment.source, by, at, link.2, seen)
            },
            _ => false,
        },
        _ => false,
    }
}

/// Whether a fact is the judgment that the new id of a link stands for the same
/// artifact as what it was recognized as.
pub open spec fn says_same_artifact(
    fact: MemStoredFact,
    link: (u64, u64, Set<u64>),
    by: AnalyzerProcess,
    at: AnalyzerVersion,
    seen: nat,
) -> bool {
    match fact {
        StoredFact::Judgment(judgment) => match judgment.assertion {
            JudgmentAssertion::Identity { fact: identity::Fact::SameArtifact { pair } } => {
                &&& pair.first()@ == link.0
                &&& pair.second()@ == link.1
                &&& derived(judgment.source, by, at, link.2, seen)
            },
            _ => false,
        },
        _ => false,
    }
}

/// Whether `facts` are the judgments that a matcher's links make: one for each link
/// between entities, then one for each link between images.
pub open spec fn companion_of(
    entities: Seq<(u64, u64, Set<u64>)>,
    images: Seq<(u64, u64, Set<u64>)>,
    by: AnalyzerProcess,
    at: AnalyzerVersion,
    seen: nat,
    facts: Seq<MemStoredFact>,
) -> bool {
    &&& facts.len() == entities.len() + images.len()
    &&& forall|k: int|
        0 <= k < entities.len() ==> says_same_entity(
            #[trigger] facts[k],
            entities[k],
            by,
            at,
            seen,
        )
    &&& forall|k: int|
        entities.len() <= k < facts.len() ==> says_same_artifact(
            #[trigger] facts[k],
            images[k - entities.len()],
            by,
            at,
            seen,
        )
}

/// The warrant of a judgment that a matcher derived.
fn derivation(
    process: &AnalyzerProcess,
    version: &AnalyzerVersion,
    basis: OrderedSet<FactId>,
    snapshot: FactId,
) -> (r: JudgmentSource)
    ensures
        derived(r, *process, *version, basis@, snapshot@ as nat),
{
    JudgmentSource::Derivation {
        process: process.clone(),
        version: version.clone(),
        basis,
        snapshot,
    }
}

/// The judgments that a matcher's links make.
pub fn companion_judgments(
    entities: Vec<Link<MemoryEntityId>>,
    images: Vec<Link<MemoryImageId>>,
    process: &AnalyzerProcess,
    version: &AnalyzerVersion,
    snapshot: FactId,
) -> (r: Vec<MemStoredFact>)
    requires
        forall|k: int|
            0 <= k < entities@.len() ==> (#[trigger] entities@[k]).fresh@
                != entities@[k].matched@,
        forall|k: int|
            0 <= k < images@.len() ==> (#[trigger] images@[k]).fresh@ != images@[k].matched@,
    ensures
        companion_of(
            link_views(entities@),
            link_views(images@),
            *process,
            *version,
            snapshot@ as nat,
            r@,
        ),
{
    let ghost all_entities = entities@;
    let ghost all_images = images@;
    let ghost first = link_views(entities@);
    let ghost second = link_views(images@);
    let mut out: Vec<MemStoredFact> = Vec::new();
    for link in iter: entities
        invariant
            iter.seq() == all_entities,
            first == link_views(all_entities),
            forall|k: int|
                0 <= k < all_entities.len() ==> (#[trigger] all_entities[k]).fresh@
                    != all_entities[k].matched@,
            out@.len() == iter.index(),
            forall|k: int|
                0 <= k < iter.index() ==> says_same_entity(
                    #[trigger] out@[k],
                    first[k],
                    *process,
                    *version,
                    snapshot@ as nat,
                ),
    {
        let ghost i = iter.index() as int;
        assert(link == all_entities[i]);
        assert(first[i] == link_view(link));
        let Link { fresh, matched, basis } = link;
        match DistinctPair::new(fresh, matched) {
            Ok(pair) => {
                let source = derivation(process, version, basis, snapshot);
                let assertion = JudgmentAssertion::Identity {
                    fact: identity::Fact::SameEntity { pair },
                };
                out.push(StoredFact::Judgment(StoredJudgmentFact { assertion, source }));
            },
            Err(_) => {
                assert(false);
            },
        }
    }
    for link in iter: images
        invariant
            iter.seq() == all_images,
            second == link_views(all_images),
            first.len() == all_entities.len(),
            forall|k: int|
                0 <= k < all_images.len() ==> (#[trigger] all_images[k]).fresh@
                    != all_images[k].matched@,
            out@.len() == first.len() + iter.index(),
            forall|k: int|
                0 <= k < first.len() ==> says_same_entity(
                    #[trigger] out@[k],
                    first[k],
                    *process,
                    *version,
                    snapshot@ as nat,
                ),
            forall|k: int|
                first.len() <= k < first.len() + iter.index() ==> says_same_artifact(
                    #[trigger] out@[k],
                    second[k - first.len()],
                    *process,
                    *version,
                    snapshot@ as nat,
                ),
    {
        let ghost i = iter.index() as int;
        assert(link == all_images[i]);
        assert(second[i] == link_view(link));
        let Link { fresh, matched, basis } = link;
        match DistinctPair::new(fresh, matched) {
            Ok(pair) => {
                let source = derivation(process, version, basis, snapshot);
                let assertion = JudgmentAssertion::Identity {
                    fact: identity::Fact::SameArtifact { pair },
                };
                out.push(StoredFact::Judgment(StoredJudgmentFact { assertion, source }));
            },
            Err(_) => {
                assert(false);
            },
        }
    }
    out
}

/// A derived judgment names the process and its version, the facts it rests on and the
/// snapshot it saw.
pub proof fn law_derivation_says_how(
    source: JudgmentSource,
    by: AnalyzerProcess,
    at: AnalyzerVersion,
    from: Set<u64>,
    seen: nat,
)
    ensures
        derived(source, by, at, from, seen) <==> {
            &&& source matches JudgmentSource::Derivation { process, version, basis, snapshot }
            &&& process == by
            &&& version == at
            &&& basis@ == from
            &&& snapshot@ == seen
        },
{
}

/// There is one judgment for each link: those on entities first, those on images after
/// them, each between the two ids of its link.
pub proof fn law_one_judgment_for_each_link(
    entities: Seq<(u64, u64, Set<u64>)>,
    images: Seq<(u64, u64, Set<u64>)>,
    by: AnalyzerProcess,
    at: AnalyzerVersion,
    seen: nat,
    facts: Seq<MemStoredFact>,
    k: int,
)
    requires
        companion_of(entities, images, by, at, seen, facts),
        0 <= k < entities.len() + images.len(),
    ensures
        facts.len() == entities.len() + images.len(),
        facts[k] is Judgment,
        facts[k]->Judgment_0.assertion is Identity,
        ({
            let link = if k < entities.len() {
                entities[k]
            } else {
                images[k - entities.len()]
            };
            let said = facts[k]->Judgment_0.assertion->Identity_fact;
            &&& derived(facts[k]->Judgment_0.source, by, at, link.2, seen)
            &&& k < entities.len() ==> (said matches identity::Fact::SameEntity { pair }
                && pair.first()@ == link.0 && pair.second()@ == link.1)
            &&& entities.len() <= k ==> (said matches identity::Fact::SameArtifact { pair }
                && pair.first()@ == link.0 && pair.second()@ == link.1)
        }),
{
    if k < entities.len() {
        assert(says_same_entity(facts[k], entities[k], by, at, seen));
    } else {
        assert(says_same_artifact(facts[k], images[k - entities.len()], by, at, seen));
    }
}

} // verus!
