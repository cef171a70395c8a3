//! Submissions: what a producer hands in, what the store keeps of it, and what
//! it is answered.
use vstd::prelude::*;

use crate::algebra::ordered::{keys, OrderedSet, Standing, TotalOrder};
use crate::facts::assertions::{FactualAssertion, JudgmentAssertion, MetaAssertion};
use crate::facts::citations::{FactualCitation, JudgmentSource, MetaSource};
use crate::facts::identity::{agree, itself, undoes};
use crate::facts::ids::{
    AnalyzerProcess, AnalyzerVersion, CommitId, FactId, IngesterRunId, UserId,
};
use crate::nonempty::NonEmptyVec;

verus! {

// --- Indices ---

/// The position of an entity among the entity declarations of a commit.
#[derive(Debug, Clone, Copy, PartialEq, Eq, PartialOrd, Ord, Hash, Structural)]
pub struct EntityIdx(pub usize);

impl View for EntityIdx {
    type V = usize;

    open spec fn view(&self) -> usize {
        self.0
    }
}

impl TotalOrder for EntityIdx {
    open spec fn precedes(a: usize, b: usize) -> bool {
        a < b
    }

    proof fn irreflexive(a: usize) {
    }

    proof fn transitive(a: usize, b: usize, c: usize) {
    }

    proof fn total(a: usize, b: usize) {
    }

    proof fn clone_keeps_view(a: EntityIdx, b: EntityIdx) {
    }

    fn compare(&self, other: &Self) -> (r: Standing) {
        if self.0 < other.0 {
            Standing::Before
        } else if self.0 == other.0 {
            Standing::Same
        } else {
            Standing::After
        }
    }
}

/// The position of an event among the event declarations of a commit.
#[derive(Debug, Clone, Copy, PartialEq, Eq, PartialOrd, Ord, Hash, Structural)]
pub struct EventIdx(pub usize);

impl View for EventIdx {
    type V = usize;

    open spec fn view(&self) -> usize {
        self.0
    }
}

impl TotalOrder for EventIdx {
    open spec fn precedes(a: usize, b: usize) -> bool {
        a < b
    }

    proof fn irreflexive(a: usize) {
    }

    proof fn transitive(a: usize, b: usize, c: usize) {
    }

    proof fn total(a: usize, b: usize) {
    }

    proof fn clone_keeps_view(a: EventIdx, b: EventIdx) {
    }

    fn compare(&self, other: &Self) -> (r: Standing) {
        if self.0 < other.0 {
            Standing::Before
        } else if self.0 == other.0 {
            Standing::Same
        } else {
            Standing::After
        }
    }
}

/// The position of an image among the image declarations of a commit.
#[derive(Debug, Clone, Copy, PartialEq, Eq, PartialOrd, Ord, Hash, Structural)]
pub struct ImageIdx(pub usize);

impl View for ImageIdx {
    type V = usize;

    open spec fn view(&self) -> usize {
        self.0
    }
}

impl TotalOrder for ImageIdx {
    open spec fn precedes(a: usize, b: usize) -> bool {
        a < b
    }

    proof fn irreflexive(a: usize) {
    }

    proof fn transitive(a: usize, b: usize, c: usize) {
    }

    proof fn total(a: usize, b: usize) {
    }

    proof fn clone_keeps_view(a: ImageIdx, b: ImageIdx) {
    }

    fn compare(&self, other: &Self) -> (r: Standing) {
        if self.0 < other.0 {
            Standing::Before
        } else if self.0 == other.0 {
            Standing::Same
        } else {
            Standing::After
        }
    }
}

// --- Facts with their citations ---

/// A factual assertion and its citation.
#[derive(Debug, Clone, PartialEq, Eq)]
pub struct StoredFactualFact<EntId: TotalOrder, EvtId: TotalOrder, ImgId: TotalOrder> {
    /// What is asserted.
    pub assertion: FactualAssertion<EntId, EvtId, ImgId>,
    /// What backs it.
    pub citation: FactualCitation,
}

/// A judgment and its warrant.
#[derive(Debug, Clone, PartialEq)]
pub struct StoredJudgmentFact<EntId: TotalOrder, EvtId: TotalOrder, ImgId: TotalOrder> {
    /// What is asserted.
    pub assertion: JudgmentAssertion<EntId, EvtId, ImgId>,
    /// What backs it.
    pub source: JudgmentSource,
}

/// A fact about facts and its warrant.
#[derive(Debug, Clone, PartialEq, Eq)]
pub struct StoredMetaFact {
    /// What is asserted.
    pub assertion: MetaAssertion,
    /// What backs it.
    pub source: MetaSource,
}

/// A fact: an assertion with its citation.
#[derive(Debug, Clone, PartialEq)]
pub enum StoredFact<EntId: TotalOrder, EvtId: TotalOrder, ImgId: TotalOrder> {
    /// A claim about the external world.
    Factual(StoredFactualFact<EntId, EvtId, ImgId>),
    /// An interpretive conclusion.
    Judgment(StoredJudgmentFact<EntId, EvtId, ImgId>),
    /// A fact about facts.
    Meta(StoredMetaFact),
}

/// A fact as a producer submits it, with indices into the commit's declarations.
pub type SubmitFact = StoredFact<EntityIdx, EventIdx, ImageIdx>;

impl<EntId: TotalOrder, EvtId: TotalOrder, ImgId: TotalOrder> StoredFact<EntId, EvtId, ImgId> {
    /// The entities mentioned, in order; a meta fact mentions none.
    pub open spec fn entities(self) -> Seq<EntId> {
        match self {
            StoredFact::Factual(fact) => fact.assertion.entities(),
            StoredFact::Judgment(fact) => fact.assertion.entities(),
            StoredFact::Meta(_) => Seq::empty(),
        }
    }

    /// The events mentioned, in order; a meta fact mentions none.
    pub open spec fn events(self) -> Seq<EvtId> {
        match self {
            StoredFact::Factual(fact) => fact.assertion.events(),
            StoredFact::Judgment(fact) => fact.assertion.events(),
            StoredFact::Meta(_) => Seq::empty(),
        }
    }

    /// The images mentioned, in order; a meta fact mentions none.
    pub open spec fn images(self) -> Seq<ImgId> {
        match self {
            StoredFact::Factual(fact) => fact.assertion.images(),
            StoredFact::Judgment(fact) => fact.assertion.images(),
            StoredFact::Meta(_) => Seq::empty(),
        }
    }

    /// Hand over every id mentioned, in order.
    pub fn for_each_id(
        &self,
        entities: &mut Vec<EntId>,
        events: &mut Vec<EvtId>,
        images: &mut Vec<ImgId>,
    ) where EntId: Copy, EvtId: Copy, ImgId: Copy
        ensures
            final(entities)@ == old(entities)@ + self.entities(),
            final(events)@ == old(events)@ + self.events(),
            final(images)@ == old(images)@ + self.images(),
    {
        match self {
            StoredFact::Factual(fact) => fact.assertion.for_each_id(entities, events, images),
            StoredFact::Judgment(fact) => fact.assertion.for_each_id(entities, events, images),
            StoredFact::Meta(_) => {},
        }
        assert(entities@ =~= old(entities)@ + self.entities());
        assert(events@ =~= old(events)@ + self.events());
        assert(images@ =~= old(images)@ + self.images());
    }

    /// Whether `out` says the same of the images of the ids.
    pub open spec fn maps_by<E2: TotalOrder, V2: TotalOrder, I2: TotalOrder>(
        self,
        out: StoredFact<E2, V2, I2>,
        e: spec_fn(EntId, E2) -> bool,
        v: spec_fn(EvtId, V2) -> bool,
        i: spec_fn(ImgId, I2) -> bool,
    ) -> bool {
        match (self, out) {
            (StoredFact::Factual(fact), StoredFact::Factual(fact2)) => {
                &&& fact.assertion.maps_by(fact2.assertion, e, v, i)
                &&& fact.citation == fact2.citation
            },
            (StoredFact::Judgment(fact), StoredFact::Judgment(fact2)) => {
                &&& fact.assertion.maps_by(fact2.assertion, e, v, i)
                &&& fact.source == fact2.source
            },
            (StoredFact::Meta(fact), StoredFact::Meta(fact2)) => fact == fact2,
            _ => false,
        }
    }
}

// --- Commits ---

/// How a commit declares a thing that its facts mention.
#[derive(Debug, Clone, Copy, PartialEq, Eq)]
pub enum Decl<Id> {
    /// A thing the store knows.
    Existing {
        /// Its id.
        id: Id,
    },
    /// A thing that is new, or that the store may recognize.
    Local,
}

/// Who a commit comes from.
#[derive(Debug, Clone, PartialEq, Eq)]
pub enum CommitAuthor {
    /// A human user.
    User {
        /// The user.
        user: UserId,
    },
    /// A run of an ingester.
    Ingester {
        /// The run.
        run: IngesterRunId,
    },
    /// An automated process.
    Analyzer {
        /// The process.
        process: AnalyzerProcess,
        /// Its version.
        version: AnalyzerVersion,
    },
}

/// A bundle of facts handed in together.
///
/// The facts land in the order of the list; a producer lists them in its
/// canonical order and none twice.
#[derive(Debug, Clone, PartialEq)]
pub struct Commit<EntId, EvtId, ImgId> {
    /// Who hands it in.
    pub author: CommitAuthor,
    /// When it was recorded, in seconds since the epoch.
    pub recorded_at: i64,
    /// The entities its facts mention.
    pub entities: Vec<Decl<EntId>>,
    /// The events its facts mention.
    pub events: Vec<Decl<EvtId>>,
    /// The images its facts mention.
    pub images: Vec<Decl<ImgId>>,
    /// Its facts.
    pub facts: Vec<SubmitFact>,
}

/// What is kept of a commit beside its facts.
#[derive(Debug, Clone, PartialEq, Eq)]
pub struct StoredCommit {
    /// Its id.
    pub commit_id: CommitId,
    /// Who handed it in.
    pub author: CommitAuthor,
    /// When it was recorded, in seconds since the epoch.
    pub recorded_at: i64,
    /// The ids its facts were given.
    pub fact_ids: Vec<FactId>,
}

// --- Results ---

/// What a matcher made of a local declaration.
#[derive(Debug, Clone, PartialEq, Eq)]
pub enum MatchOutcome<Id> {
    /// It is this thing.
    Matched {
        /// The thing.
        matched: Id,
        /// The facts that say so.
        basis: OrderedSet<FactId>,
    },
    /// It is new, though it may be one of these.
    Mint {
        /// What it may be.
        candidates: Vec<Id>,
    },
}

/// How a declaration came by its id.
#[derive(Debug, Clone, PartialEq, Eq)]
pub enum ResolutionOrigin<Id> {
    /// The commit named it.
    DeclaredExisting,
    /// A matcher recognized it: it got a new id, and a judgment says what it is.
    MatchedExisting {
        /// What it is.
        matched: Id,
    },
    /// It is new.
    NewlyMinted,
    /// It is new, though it may be one of these.
    Ambiguous {
        /// What it may be.
        candidates: NonEmptyVec<Id>,
    },
}

/// The id a declaration came to.
#[derive(Debug, Clone, PartialEq, Eq)]
pub struct Resolution<Id> {
    /// The id.
    pub id: Id,
    /// How it came by it.
    pub origin: ResolutionOrigin<Id>,
}

/// What a commit was answered.
#[derive(Debug, Clone, PartialEq, Eq)]
pub struct SubmitResult<EntId, EvtId, ImgId> {
    /// The id of the commit.
    pub commit_id: CommitId,
    /// Whether the store had it before.
    pub previously_committed: bool,
    /// The ids its facts were given.
    pub fact_ids: Vec<FactId>,
    /// What each entity declaration came to.
    pub entities: Vec<Resolution<EntId>>,
    /// What each event declaration came to.
    pub events: Vec<Resolution<EvtId>>,
    /// What each image declaration came to.
    pub images: Vec<Resolution<ImgId>>,
    /// The commit that holds what the matcher recognized, where it did.
    pub companion_commit_id: Option<CommitId>,
}

/// How a declaration came by its id, the candidates as a sequence.
#[verifier::ext_equal]
pub enum Origin<Id> {
    /// The commit named it.
    DeclaredExisting,
    /// A matcher recognized it.
    MatchedExisting { matched: Id },
    /// It is new.
    NewlyMinted,
    /// It is new, though it may be one of these.
    Ambiguous { candidates: Seq<Id> },
}

impl<Id> View for ResolutionOrigin<Id> {
    type V = Origin<Id>;

    open spec fn view(&self) -> Origin<Id> {
        match *self {
            ResolutionOrigin::DeclaredExisting => Origin::DeclaredExisting,
            ResolutionOrigin::MatchedExisting { matched } => Origin::MatchedExisting { matched },
            ResolutionOrigin::NewlyMinted => Origin::NewlyMinted,
            ResolutionOrigin::Ambiguous { candidates } => Origin::Ambiguous {
                candidates: candidates@,
            },
        }
    }
}

impl<Id> View for Resolution<Id> {
    type V = (Id, Origin<Id>);

    open spec fn view(&self) -> (Id, Origin<Id>) {
        (self.id, self.origin@)
    }
}

impl<Id: Copy> Resolution<Id> {
    /// A copy.
    pub fn duplicate(&self) -> (r: Self)
        ensures
            r@ == self@,
    {
        let origin = match &self.origin {
            ResolutionOrigin::DeclaredExisting => ResolutionOrigin::DeclaredExisting,
            ResolutionOrigin::MatchedExisting { matched } => ResolutionOrigin::MatchedExisting {
                matched: *matched,
            },
            ResolutionOrigin::NewlyMinted => ResolutionOrigin::NewlyMinted,
            ResolutionOrigin::Ambiguous { candidates } => ResolutionOrigin::Ambiguous {
                candidates: candidates.duplicate(),
            },
        };
        Resolution { id: self.id, origin }
    }
}

/// What a commit was answered, as sequences.
#[verifier::ext_equal]
pub struct Answer<EntId, EvtId, ImgId> {
    /// The id of the commit.
    pub commit_id: Seq<char>,
    /// Whether the store had it before.
    pub previously_committed: bool,
    /// The ids its facts were given.
    pub fact_ids: Seq<u64>,
    /// What each entity declaration came to.
    pub entities: Seq<(EntId, Origin<EntId>)>,
    /// What each event declaration came to.
    pub events: Seq<(EvtId, Origin<EvtId>)>,
    /// What each image declaration came to.
    pub images: Seq<(ImgId, Origin<ImgId>)>,
    /// The commit that holds what the matcher recognized, where it did.
    pub companion_commit_id: Option<Seq<char>>,
}

/// An optional commit id as text.
pub open spec fn commit_view(id: Option<CommitId>) -> Option<Seq<char>> {
    match id {
        Some(id) => Some(id@),
        None => None,
    }
}

/// Resolutions as a sequence.
pub open spec fn resolution_views<Id>(resolutions: Seq<Resolution<Id>>) -> Seq<(Id, Origin<Id>)> {
    resolutions.map_values(|r: Resolution<Id>| r@)
}

impl<EntId, EvtId, ImgId> View for SubmitResult<EntId, EvtId, ImgId> {
    type V = Answer<EntId, EvtId, ImgId>;

    open spec fn view(&self) -> Answer<EntId, EvtId, ImgId> {
        Answer {
            commit_id: self.commit_id@,
            previously_committed: self.previously_committed,
            fact_ids: keys(self.fact_ids@),
            entities: resolution_views(self.entities@),
            events: resolution_views(self.events@),
            images: resolution_views(self.images@),
            companion_commit_id: commit_view(self.companion_commit_id),
        }
    }
}

/// Copies of resolutions.
fn copy_resolutions<Id: Copy>(list: &Vec<Resolution<Id>>) -> (r: Vec<Resolution<Id>>)
    ensures
        resolution_views(r@) == resolution_views(list@),
{
    let mut out: Vec<Resolution<Id>> = Vec::new();
    let mut i: usize = 0;
    while i < list.len()
        invariant
            i <= list@.len(),
            out@.len() == i,
            forall|k: int| 0 <= k < i ==> (#[trigger] out@[k])@ == list@[k]@,
        decreases list.len() - i,
    {
        out.push(list[i].duplicate());
        i += 1;
    }
    assert(resolution_views(out@) =~= resolution_views(list@));
    out
}

/// A copy of a list of fact ids.
pub fn copy_ids(list: &Vec<FactId>) -> (r: Vec<FactId>)
    ensures
        r@ == list@,
{
    let mut out: Vec<FactId> = Vec::new();
    let mut i: usize = 0;
    while i < list.len()
        invariant
            i <= list@.len(),
            out@ == list@.take(i as int),
        decreases list.len() - i,
    {
        out.push(list[i]);
        assert(out@ =~= list@.take(i + 1));
        i += 1;
    }
    assert(list@.take(i as int) =~= list@);
    out
}

impl<EntId: Copy, EvtId: Copy, ImgId: Copy> SubmitResult<EntId, EvtId, ImgId> {
    /// A copy that says whether the store had the commit before.
    pub fn repeated(&self, previously_committed: bool) -> (r: Self)
        ensures
            r@ == (Answer { previously_committed, ..self@ }),
    {
        let r = SubmitResult {
            commit_id: self.commit_id.clone(),
            previously_committed,
            fact_ids: copy_ids(&self.fact_ids),
            entities: copy_resolutions(&self.entities),
            events: copy_resolutions(&self.events),
            images: copy_resolutions(&self.images),
            companion_commit_id: match &self.companion_commit_id {
                Some(id) => Some(id.clone()),
                None => None,
            },
        };
        r
    }
}

/// A kind of thing that facts are about.
#[derive(Debug, Clone, Copy, PartialEq, Eq, PartialOrd, Ord, Hash, Structural)]
pub enum SubjectKind {
    Entity,
    Event,
    Image,
}

/// Why a commit was turned down.
#[derive(Debug, Clone, PartialEq, Eq)]
pub enum SubmitError<EntId, EvtId, ImgId> {
    /// A fact mentions an entity that the commit does not declare.
    EntityIdxOutOfRange { idx: usize, decl_count: usize },
    /// A fact mentions an event that the commit does not declare.
    EventIdxOutOfRange { idx: usize, decl_count: usize },
    /// A fact mentions an image that the commit does not declare.
    ImageIdxOutOfRange { idx: usize, decl_count: usize },
    /// A declaration names an entity that the store does not know.
    UnknownExistingEntity { decl_position: EntityIdx },
    /// A declaration names an event that the store does not know.
    UnknownExistingEvent { decl_position: EventIdx },
    /// A declaration names an image that the store does not know.
    UnknownExistingImage { decl_position: ImageIdx },
    /// No fact mentions a declaration.
    UnusedDeclaration { kind: SubjectKind, position: usize },
    /// Two declarations came to the same entity.
    DuplicateEntityDecl { id: EntId },
    /// Two declarations came to the same event.
    DuplicateEventDecl { id: EvtId },
    /// Two declarations came to the same image.
    DuplicateImageDecl { id: ImgId },
    /// A relationship came to be of an entity with itself.
    RelationshipSelfLoop { id: EntId },
    /// A spatial relation came to be of an entity to itself.
    SpatialSelfLoop { id: EntId },
    /// An identity judgment came to be of an entity with itself.
    IdentityEntitySelfEquivalence { id: EntId },
    /// An identity judgment came to be of an event with itself.
    IdentityEventSelfEquivalence { id: EvtId },
    /// An identity judgment came to be of an image with itself.
    IdentityArtifactSelfEquivalence { id: ImgId },
    /// A retraction names a commit that the store does not hold.
    CommitNotFound { id: CommitId },
    /// A retraction names a fact that the store does not hold.
    FactNotFound { id: FactId },
    /// A retraction names a fact of its own commit.
    MetaTargetInSameCommit { target: FactId },
    /// A fact is to be superseded by itself.
    SupersedeReplacementEqualsTarget { target: FactId },
    /// A rule on the content of facts does not hold.
    RuleViolation { rule: String },
}

/// What is at a fact id.
#[derive(Debug, PartialEq)]
pub enum FactLookup<'a, EntId: TotalOrder, EvtId: TotalOrder, ImgId: TotalOrder> {
    /// A fact that holds.
    Active(&'a StoredFact<EntId, EvtId, ImgId>),
    /// A fact that was taken back.
    Retracted {
        /// The fact that took it back.
        by: FactId,
    },
    /// Nothing yet at this snapshot.
    Future,
    /// Nothing.
    Unknown,
}

/// Where a fact id sits.
#[derive(Debug, Clone, Copy, PartialEq, Eq, Structural)]
pub enum FactPlacement {
    /// In the store.
    Committed,
    /// In a commit that is being prepared.
    InFlight,
    /// Nowhere below the snapshot.
    Absent,
}

// --- What mapping the ids of a fact keeps ---

impl<EntId: TotalOrder, EvtId: TotalOrder, ImgId: TotalOrder> StoredFact<EntId, EvtId, ImgId> {
    /// Mapping the ids of a fact keeps what kind of fact it is, what it asserts of the
    /// images of the ids, and what backs it; a fact about facts stays as it is.
    pub proof fn law_mapping_keeps_what_is_said<E2: TotalOrder, V2: TotalOrder, I2: TotalOrder>(
        self,
        out: StoredFact<E2, V2, I2>,
        e: spec_fn(EntId, E2) -> bool,
        v: spec_fn(EvtId, V2) -> bool,
        i: spec_fn(ImgId, I2) -> bool,
    )
        requires
            self.maps_by(out, e, v, i),
        ensures
            (self matches StoredFact::Factual(fact) ==> {
                &&& out matches StoredFact::Factual(fact2)
                &&& fact.assertion.maps_by(fact2.assertion, e, v, i)
                &&& fact2.citation == fact.citation
            }),
            (self matches StoredFact::Judgment(fact) ==> {
                &&& out matches StoredFact::Judgment(fact2)
                &&& fact.assertion.maps_by(fact2.assertion, e, v, i)
                &&& fact2.source == fact.source
            }),
            (self matches StoredFact::Meta(fact) ==> {
                &&& out matches StoredFact::Meta(fact2)
                &&& fact2 == fact
            }),
            out is Factual ==> self is Factual,
            out is Judgment ==> self is Judgment,
            out is Meta ==> self is Meta,
    {
    }

    /// Mapping every id to itself changes nothing.
    pub proof fn law_mapping_to_itself(self, out: StoredFact<EntId, EvtId, ImgId>)
        requires
            self.maps_by(out, itself::<EntId>(), itself::<EvtId>(), itself::<ImgId>()),
        ensures
            out == self,
    {
        match (self, out) {
            (StoredFact::Factual(fact), StoredFact::Factual(fact2)) => {
                fact.assertion.law_mapping_to_itself(fact2.assertion);
            },
            (StoredFact::Judgment(fact), StoredFact::Judgment(fact2)) => {
                fact.assertion.law_mapping_to_itself(fact2.assertion);
            },
            _ => {},
        }
    }

    /// Mapping the ids there and back gives the fact again, where the way back undoes the
    /// way there.
    pub proof fn law_mapping_there_and_back<E2: TotalOrder, V2: TotalOrder, I2: TotalOrder>(
        self,
        out: StoredFact<E2, V2, I2>,
        back: StoredFact<EntId, EvtId, ImgId>,
        e: spec_fn(EntId, E2) -> bool,
        e_back: spec_fn(E2, EntId) -> bool,
        v: spec_fn(EvtId, V2) -> bool,
        v_back: spec_fn(V2, EvtId) -> bool,
        i: spec_fn(ImgId, I2) -> bool,
        i_back: spec_fn(I2, ImgId) -> bool,
    )
        requires
            self.maps_by(out, e, v, i),
            out.maps_by(back, e_back, v_back, i_back),
            undoes(e, e_back),
            undoes(v, v_back),
            undoes(i, i_back),
        ensures
            back == self,
    {
        match (self, out, back) {
            (
                StoredFact::Factual(fact),
                StoredFact::Factual(fact2),
                StoredFact::Factual(fact3),
            ) => {
                fact.assertion.law_mapping_there_and_back(
                    fact2.assertion,
                    fact3.assertion,
                    e,
                    e_back,
                    v,
                    v_back,
                    i,
                    i_back,
                );
            },
            (
                StoredFact::Judgment(fact),
                StoredFact::Judgment(fact2),
                StoredFact::Judgment(fact3),
            ) => {
                fact.assertion.law_mapping_there_and_back(
                    fact2.assertion,
                    fact3.assertion,
                    e,
                    e_back,
                    v,
                    v_back,
                    i,
                    i_back,
                );
            },
            _ => {},
        }
    }

    /// Only the ids that a fact mentions matter to it, and it mentions every id that
    /// does.
    pub proof fn law_only_mentioned_ids_matter<E2: TotalOrder, V2: TotalOrder, I2: TotalOrder>(
        self,
        out: StoredFact<E2, V2, I2>,
        e: spec_fn(EntId, E2) -> bool,
        other_e: spec_fn(EntId, E2) -> bool,
        v: spec_fn(EvtId, V2) -> bool,
        other_v: spec_fn(EvtId, V2) -> bool,
        i: spec_fn(ImgId, I2) -> bool,
        other_i: spec_fn(ImgId, I2) -> bool,
    )
        requires
            agree(self.entities(), e, other_e),
            agree(self.events(), v, other_v),
            agree(self.images(), i, other_i),
        ensures
            self.maps_by(out, e, v, i) <==> self.maps_by(out, other_e, other_v, other_i),
    {
        match (self, out) {
            (StoredFact::Factual(fact), StoredFact::Factual(fact2)) => {
                fact.assertion.law_only_mentioned_ids_matter(
                    fact2.assertion,
                    e,
                    other_e,
                    v,
                    other_v,
                    i,
                    other_i,
                );
            },
            (StoredFact::Judgment(fact), StoredFact::Judgment(fact2)) => {
                fact.assertion.law_only_mentioned_ids_matter(
                    fact2.assertion,
                    e,
                    other_e,
                    v,
                    other_v,
                    i,
                    other_i,
                );
            },
            _ => {},
        }
    }
}

} // verus!
