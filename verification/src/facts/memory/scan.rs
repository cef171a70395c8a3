//! Scanning the facts: what single facts say, and the keyed walk over them.
use vstd::prelude::*;
use vstd::string::*;

use super::equiv::{component, law_classes_partition, EquivAdjacency, IdentityEdges};
use super::ids::{MemStoredFact, MemoryEntityId, MemoryEventId, MemoryImageId};
use super::read::{cursor_view, is_page, MemPage, ReadCore};
use crate::algebra::ordered::TotalOrder;
use crate::facts::assertions::{FactualAssertion, JudgmentAssertion};
use crate::facts::ids::FactId;
use crate::facts::reference::{ExternalReference, Reference};
use crate::facts::schema::{normalize_name, normalized, row_ids, FactPage, PageItem};
use crate::facts::submit::StoredFact;
use crate::facts::web::{Language, WebUrl};
use crate::facts::{attribute, identity, image};
use crate::text::same_text;

verus! {

/// A factual assertion of the store.
pub type MemFactualAssertion = FactualAssertion<MemoryEntityId, MemoryEventId, MemoryImageId>;

/// A judgment of the store.
pub type MemJudgmentAssertion = JudgmentAssertion<MemoryEntityId, MemoryEventId, MemoryImageId>;

/// The factual assertion under a stored fact, when it carries one.
pub fn factual_assertion(fact: &MemStoredFact) -> (r: Option<&MemFactualAssertion>)
    ensures
        match *fact {
            StoredFact::Factual(f) => r == Some(&f.assertion),
            _ => r is None,
        },
{
    match fact {
        StoredFact::Factual(f) => Some(&f.assertion),
        StoredFact::Judgment(_) => None,
        StoredFact::Meta(_) => None,
    }
}

/// The judgment assertion under a stored fact, when it carries one.
pub fn judgment_assertion(fact: &MemStoredFact) -> (r: Option<&MemJudgmentAssertion>)
    ensures
        match *fact {
            StoredFact::Judgment(f) => r == Some(&f.assertion),
            _ => r is None,
        },
{
    match fact {
        StoredFact::Judgment(f) => Some(&f.assertion),
        StoredFact::Factual(_) => None,
        StoredFact::Meta(_) => None,
    }
}

/// The two entities that a same-entity judgment joins.
pub open spec fn joined_entities(fact: MemStoredFact) -> Option<(u64, u64)> {
    match fact {
        StoredFact::Judgment(f) => match f.assertion {
            JudgmentAssertion::Identity { fact: identity::Fact::SameEntity { pair } } => Some(
                (pair.first()@, pair.second()@),
            ),
            _ => None,
        },
        _ => None,
    }
}

/// The two images that a same-artifact judgment joins.
pub open spec fn joined_images(fact: MemStoredFact) -> Option<(u64, u64)> {
    match fact {
        StoredFact::Judgment(f) => match f.assertion {
            JudgmentAssertion::Identity { fact: identity::Fact::SameArtifact { pair } } => Some(
                (pair.first()@, pair.second()@),
            ),
            _ => None,
        },
        _ => None,
    }
}

/// The two entities that a same-entity judgment joins. Callers look at
/// retraction and snapshot.
pub fn same_entity_edge(fact: &MemStoredFact) -> (r: Option<(MemoryEntityId, MemoryEntityId)>)
    ensures
        joined_entities(*fact) == match r {
            Some((a, b)) => Some((a@, b@)),
            None => None,
        },
{
    match judgment_assertion(fact) {
        Some(JudgmentAssertion::Identity { fact: identity::Fact::SameEntity { pair } }) => Some(
            (*pair.a(), *pair.b()),
        ),
        _ => None,
    }
}

/// The two images that a same-artifact judgment joins. Callers look at
/// retraction and snapshot.
pub fn same_artifact_edge(fact: &MemStoredFact) -> (r: Option<(MemoryImageId, MemoryImageId)>)
    ensures
        joined_images(*fact) == match r {
            Some((a, b)) => Some((a@, b@)),
            None => None,
        },
{
    match judgment_assertion(fact) {
        Some(JudgmentAssertion::Identity { fact: identity::Fact::SameArtifact { pair } }) => Some(
            (*pair.a(), *pair.b()),
        ),
        _ => None,
    }
}

/// Identity of entities.
pub struct SameEntity;

impl IdentityEdges for SameEntity {
    type Subject = MemoryEntityId;

    open spec fn joins(fact: MemStoredFact) -> Option<(u64, u64)> {
        joined_entities(fact)
    }

    fn edge_of(fact: &MemStoredFact) -> (r: Option<(MemoryEntityId, MemoryEntityId)>) {
        same_entity_edge(fact)
    }
}

/// Identity of images.
pub struct SameArtifact;

impl IdentityEdges for SameArtifact {
    type Subject = MemoryImageId;

    open spec fn joins(fact: MemStoredFact) -> Option<(u64, u64)> {
        joined_images(fact)
    }

    fn edge_of(fact: &MemStoredFact) -> (r: Option<(MemoryImageId, MemoryImageId)>) {
        same_artifact_edge(fact)
    }
}

// --- Queries ---

/// The entity that a name fact names, where the name, as names are compared, is
/// `needle`, and the language is the given one.
pub open spec fn named_entity(
    fact: MemStoredFact,
    needle: Seq<char>,
    language: Seq<char>,
) -> Option<u64> {
    match fact {
        StoredFact::Factual(f) => match f.assertion {
            FactualAssertion::Attribute {
                fact: attribute::Fact::Name { entity, name, language: l, .. },
            } => if normalized(name@) == needle && l@ == language {
                Some(entity@)
            } else {
                None
            },
            _ => None,
        },
        _ => None,
    }
}

/// The entity that an external-reference fact is about, where the reference is
/// the given one.
pub open spec fn referenced_entity(fact: MemStoredFact, reference: Reference) -> Option<u64> {
    match fact {
        StoredFact::Factual(f) => match f.assertion {
            FactualAssertion::Attribute {
                fact: attribute::Fact::ExternalReference { entity, reference: r },
            } => if r@ == reference {
                Some(entity@)
            } else {
                None
            },
            _ => None,
        },
        _ => None,
    }
}

/// The image that a source fact is about, where the address has the given normal
/// form.
pub open spec fn sourced_image(fact: MemStoredFact, address: Seq<char>) -> Option<u64> {
    match fact {
        StoredFact::Factual(f) => match f.assertion {
            FactualAssertion::Image { fact: image::Fact::Source { image, url } } => if url@.0
                == address {
                Some(image@)
            } else {
                None
            },
            _ => None,
        },
        _ => None,
    }
}

/// An optional id as a number.
pub open spec fn subject_view<S: TotalOrder<V = u64>>(subject: Option<S>) -> Option<u64> {
    match subject {
        Some(id) => Some(id@),
        None => None,
    }
}

/// The entity a stored name fact names, when its normalized name and its exact
/// language match. `needle` is normalized already.
pub fn entity_named(fact: &MemStoredFact, needle: &str, language: &Language) -> (r: Option<
    MemoryEntityId,
>)
    ensures
        subject_view(r) == named_entity(*fact, needle@, language@),
{
    match factual_assertion(fact) {
        Some(
            FactualAssertion::Attribute {
                fact: attribute::Fact::Name { entity, name, language: l, .. },
            },
        ) => {
            let key = normalize_name(name.as_str());
            if same_text(key.as_str(), needle) && l.same(language) {
                Some(*entity)
            } else {
                None
            }
        },
        _ => None,
    }
}

/// The entity a stored external-reference fact is about, when its reference
/// matches.
pub fn entity_referenced(fact: &MemStoredFact, reference: &ExternalReference) -> (r: Option<
    MemoryEntityId,
>)
    ensures
        subject_view(r) == referenced_entity(*fact, reference@),
{
    match factual_assertion(fact) {
        Some(
            FactualAssertion::Attribute {
                fact: attribute::Fact::ExternalReference { entity, reference: r },
            },
        ) => {
            if r.same(reference) {
                Some(*entity)
            } else {
                None
            }
        },
        _ => None,
    }
}

/// The image a stored source fact is about, when its address matches.
pub fn image_sourced_from(fact: &MemStoredFact, url: &WebUrl) -> (r: Option<MemoryImageId>)
    ensures
        subject_view(r) == sourced_image(*fact, url@.0),
{
    match factual_assertion(fact) {
        Some(FactualAssertion::Image { fact: image::Fact::Source { image, url: u } }) => {
            if u.same(url) {
                Some(*image)
            } else {
                None
            }
        },
        _ => None,
    }
}

/// What a walk looks for: which facts it takes, and for which subject.
pub trait FactQuery: Sized {
    /// The kind of subject.
    type Subject: TotalOrder<V = u64> + Copy;

    /// The subject of a fact that is taken.
    spec fn wants(&self, fact: MemStoredFact) -> Option<u64>;

    /// The subject of a fact that is taken.
    fn subject_of(&self, fact: &MemStoredFact) -> (r: Option<Self::Subject>)
        ensures
            subject_view(r) == self.wants(*fact),
    ;
}

/// Entities by name; the name is normalized already.
pub struct Named<'q> {
    /// The name.
    pub needle: &'q str,
    /// Its language.
    pub language: &'q Language,
}

impl<'q> FactQuery for Named<'q> {
    type Subject = MemoryEntityId;

    open spec fn wants(&self, fact: MemStoredFact) -> Option<u64> {
        named_entity(fact, self.needle@, self.language@)
    }

    fn subject_of(&self, fact: &MemStoredFact) -> (r: Option<MemoryEntityId>) {
        entity_named(fact, self.needle, self.language)
    }
}

/// Entities by external reference.
pub struct Referenced<'q> {
    /// The reference.
    pub reference: &'q ExternalReference,
}

impl<'q> FactQuery for Referenced<'q> {
    type Subject = MemoryEntityId;

    open spec fn wants(&self, fact: MemStoredFact) -> Option<u64> {
        referenced_entity(fact, self.reference@)
    }

    fn subject_of(&self, fact: &MemStoredFact) -> (r: Option<MemoryEntityId>) {
        entity_referenced(fact, self.reference)
    }
}

/// Images by source.
pub struct SourcedFrom<'q> {
    /// The address.
    pub url: &'q WebUrl,
}

impl<'q> FactQuery for SourcedFrom<'q> {
    type Subject = MemoryImageId;

    open spec fn wants(&self, fact: MemStoredFact) -> Option<u64> {
        sourced_image(fact, self.url@.0)
    }

    fn subject_of(&self, fact: &MemStoredFact) -> (r: Option<MemoryImageId>) {
        image_sourced_from(fact, self.url)
    }
}

// --- The walk ---

/// Whether `representative` stands for the class of `subject`.
pub open spec fn represents<S: TotalOrder<V = u64>>(
    edges: Seq<(u64, u64)>,
    subject: u64,
    representative: S,
) -> bool {
    let class = component(edges, subject);
    &&& class.contains(representative@)
    &&& forall|x: u64| #[trigger]
        class.contains(x) ==> x == representative@ || S::precedes(representative@, x)
}

/// The numbers below a bound.
pub open spec fn below(n: nat) -> Set<u64> {
    Set::new(|x: u64| x < n)
}

impl<'a> ReadCore<'a> {
    /// A page of the facts that a query takes, active and below the snapshot, from
    /// `cursor` on, each with what stands for the class of its subject.
    ///
    /// A full page is followed by the next fact below the snapshot, whatever it
    /// is.
    pub fn walk_matching<K: IdentityEdges, Q: FactQuery<Subject = K::Subject>>(
        &self,
        cursor: FactId,
        limit: usize,
        query: &Q,
    ) -> (r: MemPage<'a, K::Subject>)
        requires
            self.wf(),
            limit > 0,
        ensures
            is_page(
                row_ids(r.items@),
                cursor_view(r.next_cursor),
                below(self.seen()),
                |x: u64| self.active(x) && query.wants(self.facts()[x as int]) is Some,
                self.snapshot@,
                cursor@,
                limit as nat,
            ),
            forall|k: int|
                0 <= k < r.items@.len() ==> *(#[trigger] r.items@[k]).fact
                    == self.facts()[r.items@[k].fact_id@ as int] && represents::<K::Subject>(
                    self.identity_edges::<K>(),
                    query.wants(*r.items@[k].fact)->0,
                    r.items@[k].representative,
                ),
    {
        let ghost shown = |x: u64| self.active(x) && query.wants(self.facts()[x as int]) is Some;
        let count: u64 = self.seen_count();
        let mut items: Vec<PageItem<&'a MemStoredFact, K::Subject>> = Vec::new();
        let mut adjacency: Option<EquivAdjacency<K::Subject>> = None;
        let mut i: u64 = cursor.get();
        assert(row_ids(items@) =~= Seq::<u64>::empty());
        while i < count
            invariant
                cursor@ <= i,
                i > cursor@ ==> i <= count,
                count == self.seen(),
                self.wf(),
                limit > 0,
                shown == (|x: u64| self.active(x) && query.wants(self.facts()[x as int]) is Some),
                items@.len() <= limit,
                scanned(row_ids(items@), cursor@, i, shown),
                forall|k: int|
                    0 <= k < items@.len() ==> *(#[trigger] items@[k]).fact
                        == self.facts()[items@[k].fact_id@ as int] && represents::<K::Subject>(
                        self.identity_edges::<K>(),
                        query.wants(*items@[k].fact)->0,
                        items@[k].representative,
                    ),
                items@.len() == limit ==> i > cursor@ && row_ids(items@).last() == i - 1,
                adjacency is Some ==> adjacency->0.edges() == self.identity_edges::<K>(),
            decreases count - i,
        {
            let id = FactId::new(i);
            if items.len() == limit {
                assert(below(self.seen()).contains(i));
                proof {
                    lemma_full_walk(
                        row_ids(items@),
                        cursor@,
                        i,
                        shown,
                        self.seen(),
                        self.snapshot@,
                        limit as nat,
                    );
                }
                return FactPage { items, next_cursor: Some(id) };
            }
            let ghost before = row_ids(items@);
            match self.fact_slot(id) {
                Some(fact) => {
                    match query.subject_of(fact) {
                        Some(subject) => {
                            match self.retracted_by(id) {
                                Some(_) => {
                                    assert(!shown(i));
                                    proof {
                                        lemma_scan_skip(before, cursor@, i, shown);
                                    }
                                },
                                None => {
                                    let edges = match adjacency {
                                        Some(edges) => edges,
                                        None => self.equiv_adjacency::<K>(),
                                    };
                                    let class = edges.class_of(subject);
                                    adjacency = Some(edges);
                                    items.push(
                                        PageItem {
                                            fact_id: id,
                                            fact,
                                            representative: class.representative,
                                        },
                                    );
                                    assert(row_ids(items@) =~= before.push(i));
                                    assert(shown(i));
                                    proof {
                                        lemma_scan_take(before, cursor@, i, shown);
                                    }
                                },
                            }
                        },
                        None => {
                            assert(!shown(i));
                            proof {
                                lemma_scan_skip(before, cursor@, i, shown);
                            }
                        },
                    }
                },
                None => {
                    assert(false);
                },
            }
            i += 1;
        }
        proof {
            lemma_walk_end(
                row_ids(items@),
                cursor@,
                i,
                shown,
                self.seen(),
                self.snapshot@,
                limit as nat,
            );
        }
        FactPage { items, next_cursor: None }
    }
}

/// `ids` are the shown numbers from `from` up to, not including, `to`, in order.
spec fn scanned(ids: Seq<u64>, from: u64, to: u64, shown: spec_fn(u64) -> bool) -> bool {
    &&& crate::algebra::ordered::ascending::<FactId>(ids)
    &&& forall|x: u64| #[trigger] ids.contains(x) <==> from <= x < to && shown(x)
}

/// A number that is not shown is passed over.
proof fn lemma_scan_skip(ids: Seq<u64>, from: u64, to: u64, shown: spec_fn(u64) -> bool)
    requires
        scanned(ids, from, to, shown),
        to < u64::MAX,
        !shown(to),
    ensures
        scanned(ids, from, (to + 1) as u64, shown),
{
    assert forall|x: u64| #[trigger] ids.contains(x) <==> from <= x < to + 1 && shown(x) by {
        if x == to {
            assert(!shown(x));
        }
    }
}

/// A number that is shown is taken.
proof fn lemma_scan_take(ids: Seq<u64>, from: u64, to: u64, shown: spec_fn(u64) -> bool)
    requires
        scanned(ids, from, to, shown),
        from <= to < u64::MAX,
        shown(to),
    ensures
        scanned(ids.push(to), from, (to + 1) as u64, shown),
{
    let out = ids.push(to);
    assert forall|x: u64| #[trigger] out.contains(x) <==> from <= x < to + 1 && shown(x) by {
        if out.contains(x) {
            let k = out.index_of(x);
            if k < ids.len() {
                assert(ids[k] == x);
                assert(ids.contains(x));
            }
        }
        if from <= x < to && shown(x) {
            assert(ids.contains(x));
            let k = ids.index_of(x);
            assert(out[k] == x);
        }
        if x == to {
            assert(out[ids.len() as int] == x);
        }
    }
    assert forall|a: int, b: int| 0 <= a < b < out.len() implies (#[trigger] out[a]) < (
    #[trigger] out[b]) by {
        if b < ids.len() {
            assert(ids[a] < ids[b]);
        } else {
            assert(ids.contains(ids[a]));
        }
    }
}

/// A walk that came to the end of what is seen is a last page.
proof fn lemma_walk_end(
    ids: Seq<u64>,
    cursor: u64,
    i: u64,
    shown: spec_fn(u64) -> bool,
    seen: nat,
    snapshot: u64,
    limit: nat,
)
    requires
        scanned(ids, cursor, i, shown),
        cursor <= i,
        i >= seen,
        i > cursor ==> i <= seen,
        seen <= snapshot,
        ids.len() <= limit,
        ids.len() == limit && limit > 0 ==> i > cursor && ids.last() == i - 1,
    ensures
        is_page(ids, None, below(seen), shown, snapshot, cursor, limit),
{
    assert forall|k: int| 0 <= k < ids.len() implies cursor <= #[trigger] ids[k] && ids[k]
        < snapshot && below(seen).contains(ids[k]) && shown(ids[k]) by {
        assert(ids.contains(ids[k]));
    }
}

/// A walk that filled the page is a full page.
proof fn lemma_full_walk(
    ids: Seq<u64>,
    cursor: u64,
    i: u64,
    shown: spec_fn(u64) -> bool,
    seen: nat,
    snapshot: u64,
    limit: nat,
)
    requires
        scanned(ids, cursor, i, shown),
        cursor < i < seen,
        seen <= snapshot,
        ids.len() == limit,
        limit > 0,
        ids.last() == i - 1,
    ensures
        is_page(ids, Some(i), below(seen), shown, snapshot, cursor, limit),
{
    assert forall|k: int| 0 <= k < ids.len() implies cursor <= #[trigger] ids[k] && ids[k]
        < snapshot && below(seen).contains(ids[k]) && shown(ids[k]) && ids[k] < i by {
        assert(ids.contains(ids[k]));
    }
    assert forall|x: u64| #[trigger] below(seen).contains(x) && cursor <= x < i implies {
        ||| shown(x) && ids.contains(x)
        ||| !shown(x) && (limit > 0 && x < ids.last())
    } by {
        if !shown(x) {
            assert(ids.contains(ids.last()));
            assert(x != i - 1);
        }
    }
}

// --- What single facts are found by ---

/// A fact that names an entity is found by that name, written with any case and white
/// space that comes to the same, in the language it gives, and a fact is found by a name
/// only where it says that name in that language of the entity found.
pub proof fn law_found_by_its_name(
    fact: MemStoredFact,
    needle: Seq<char>,
    language: Seq<char>,
    entity: u64,
)
    ensures
        named_entity(fact, needle, language) == Some(entity) <==> {
            &&& fact matches StoredFact::Factual(f)
            &&& f.assertion matches FactualAssertion::Attribute {
                fact: attribute::Fact::Name { entity: id, name, language: l, .. },
            }
            &&& id@ == entity
            &&& normalized(name@) == needle
            &&& l@ == language
        },
{
}

/// A fact is found by an external reference exactly where it gives that reference, of
/// the entity found.
pub proof fn law_found_by_its_reference(fact: MemStoredFact, reference: Reference, entity: u64)
    ensures
        referenced_entity(fact, reference) == Some(entity) <==> {
            &&& fact matches StoredFact::Factual(f)
            &&& f.assertion matches FactualAssertion::Attribute {
                fact: attribute::Fact::ExternalReference { entity: id, reference: r },
            }
            &&& id@ == entity
            &&& r@ == reference
        },
{
}

/// A fact is found by an address exactly where it gives that address as the source of
/// the image found.
pub proof fn law_found_by_its_source(fact: MemStoredFact, address: Seq<char>, image: u64)
    ensures
        sourced_image(fact, address) == Some(image) <==> {
            &&& fact matches StoredFact::Factual(f)
            &&& f.assertion matches FactualAssertion::Image {
                fact: image::Fact::Source { image: id, url },
            }
            &&& id@ == image
            &&& url@.0 == address
        },
{
}

/// Two entities are joined exactly by a judgment that they are the same, two images by
/// one that they show the same artifact.
pub proof fn law_joined_by_a_judgment(fact: MemStoredFact, a: u64, b: u64)
    ensures
        SameEntity::joins(fact) == Some((a, b)) <==> {
            &&& fact matches StoredFact::Judgment(f)
            &&& f.assertion matches JudgmentAssertion::Identity {
                fact: identity::Fact::SameEntity { pair },
            }
            &&& pair.first()@ == a
            &&& pair.second()@ == b
        },
        SameArtifact::joins(fact) == Some((a, b)) <==> {
            &&& fact matches StoredFact::Judgment(f)
            &&& f.assertion matches JudgmentAssertion::Identity {
                fact: identity::Fact::SameArtifact { pair },
            }
            &&& pair.first()@ == a
            &&& pair.second()@ == b
        },
{
}

/// Two members of a class have the same representative, which is one of them or comes
/// before them all.
pub proof fn law_one_representative_for_a_class(
    edges: Seq<(u64, u64)>,
    a: u64,
    b: u64,
    first: MemoryEntityId,
    second: MemoryEntityId,
)
    requires
        represents(edges, a, first),
        represents(edges, b, second),
    ensures
        component(edges, a).contains(b) <==> first@ == second@,
        first@ <= a,
        component(edges, a).contains(first@),
{
    law_classes_partition(edges, a, b);
    law_classes_partition(edges, a, first@);
    law_classes_partition(edges, b, second@);
    law_classes_partition(edges, a, a);
    if component(edges, a).contains(b) {
        assert(component(edges, a) == component(edges, b));
        assert(component(edges, b).contains(second@));
    } else {
        if first@ == second@ {
            assert(component(edges, a).contains(first@) && component(edges, b).contains(first@));
        }
    }
}

/// The same of images.
pub proof fn law_one_representative_for_an_artifact(
    edges: Seq<(u64, u64)>,
    a: u64,
    b: u64,
    first: MemoryImageId,
    second: MemoryImageId,
)
    requires
        represents(edges, a, first),
        represents(edges, b, second),
    ensures
        component(edges, a).contains(b) <==> first@ == second@,
        first@ <= a,
        component(edges, a).contains(first@),
{
    law_one_representative_for_a_class(
        edges,
        a,
        b,
        MemoryEntityId(first@),
        MemoryEntityId(second@),
    );
}

} // verus!
