//! Replacing the positions in submitted facts by the ids that the declarations
//! came to.
use vstd::prelude::*;

use super::ids::{
    MemStoredFact, MemSubmitError, MemoryEntityId, MemoryEventId, MemoryImageId,
};
use super::resolve::resolved_ids;
use super::scan::{MemFactualAssertion, MemJudgmentAssertion};
use crate::facts::assertions::{FactualAssertion, JudgmentAssertion};
use crate::facts::submit::{
    EntityIdx, EventIdx, ImageIdx, Resolution, StoredFact, StoredFactualFact, StoredJudgmentFact,
    SubmitError, SubmitFact,
};
use crate::facts::{
    attribute, bookend, composites, depiction, event, identity, image, observation, picture, spatial,
};

verus! {

/// What the declarations of a commit came to, as numbers.
#[verifier::ext_equal]
pub struct Tables {
    /// The entities.
    pub entities: Seq<u64>,
    /// The events.
    pub events: Seq<u64>,
    /// The images.
    pub images: Seq<u64>,
}

impl Tables {
    /// Whether an id is what a position came to.
    pub open spec fn entity(self) -> spec_fn(EntityIdx, MemoryEntityId) -> bool {
        |x: EntityIdx, y: MemoryEntityId|
            x@ < self.entities.len() && y@ == self.entities[x@ as int]
    }

    /// Whether an id is what a position came to.
    pub open spec fn event(self) -> spec_fn(EventIdx, MemoryEventId) -> bool {
        |x: EventIdx, y: MemoryEventId| x@ < self.events.len() && y@ == self.events[x@ as int]
    }

    /// Whether an id is what a position came to.
    pub open spec fn image(self) -> spec_fn(ImageIdx, MemoryImageId) -> bool {
        |x: ImageIdx, y: MemoryImageId| x@ < self.images.len() && y@ == self.images[x@ as int]
    }
}

/// The tables of resolutions.
pub open spec fn tables_of(
    entities: Seq<Resolution<MemoryEntityId>>,
    events: Seq<Resolution<MemoryEventId>>,
    images: Seq<Resolution<MemoryImageId>>,
) -> Tables {
    Tables {
        entities: resolved_ids(entities),
        events: resolved_ids(events),
        images: resolved_ids(images),
    }
}

/// Whether all positions are those of declarations.
pub open spec fn all_below<X: View<V = usize>>(ids: Seq<X>, n: nat) -> bool {
    forall|k: int| 0 <= k < ids.len() ==> (#[trigger] ids[k])@ < n
}

/// Whether one of the positions is this one.
pub open spec fn holds<X: View<V = usize>>(ids: Seq<X>, idx: usize) -> bool {
    exists|k: int| 0 <= k < ids.len() && (#[trigger] ids[k])@ == idx
}

/// Whether every position that a fact mentions is that of a declaration.
pub open spec fn in_range(fact: SubmitFact, tables: Tables) -> bool {
    &&& all_below(fact.entities(), tables.entities.len())
    &&& all_below(fact.events(), tables.events.len())
    &&& all_below(fact.images(), tables.images.len())
}

/// What is wrong with a fact whose two subjects came to the same id.
pub open spec fn self_loop(fact: SubmitFact, tables: Tables) -> Option<MemSubmitError> {
    match fact {
        StoredFact::Factual(f) => match f.assertion {
            FactualAssertion::Attribute { fact } => relationship_loop(fact, tables.entities),
            _ => None,
        },
        StoredFact::Judgment(f) => match f.assertion {
            JudgmentAssertion::Observation { fact } => spatial_loop(fact, tables.entities),
            JudgmentAssertion::Identity { fact } => identity_loop(fact, tables),
            _ => None,
        },
        StoredFact::Meta(_) => None,
    }
}

/// Whether `error` says of one of these positions that there is no such entity
/// declaration.
pub open spec fn entity_missing(ids: Seq<EntityIdx>, n: nat, error: MemSubmitError) -> bool {
    error matches SubmitError::EntityIdxOutOfRange { idx, decl_count } && holds(ids, idx) && idx
        >= n && decl_count == n
}

/// Whether `error` says of one of these positions that there is no such event
/// declaration.
pub open spec fn event_missing(ids: Seq<EventIdx>, n: nat, error: MemSubmitError) -> bool {
    error matches SubmitError::EventIdxOutOfRange { idx, decl_count } && holds(ids, idx) && idx
        >= n && decl_count == n
}

/// Whether `error` says of one of these positions that there is no such image
/// declaration.
pub open spec fn image_missing(ids: Seq<ImageIdx>, n: nat, error: MemSubmitError) -> bool {
    error matches SubmitError::ImageIdxOutOfRange { idx, decl_count } && holds(ids, idx) && idx
        >= n && decl_count == n
}

/// Whether `error` says of a position that a fact mentions that there is no such
/// declaration.
pub open spec fn names_missing(fact: SubmitFact, tables: Tables, error: MemSubmitError) -> bool {
    ||| entity_missing(fact.entities(), tables.entities.len(), error)
    ||| event_missing(fact.events(), tables.events.len(), error)
    ||| image_missing(fact.images(), tables.images.len(), error)
}

/// Whether `out` is the fact with the ids in place of the positions.
pub open spec fn substituted(fact: SubmitFact, out: MemStoredFact, tables: Tables) -> bool {
    fact.maps_by(out, tables.entity(), tables.event(), tables.image())
}

/// Whether `r` is what substitution makes of a fact.
pub open spec fn substitution(
    fact: SubmitFact,
    tables: Tables,
    r: Result<MemStoredFact, MemSubmitError>,
) -> bool {
    match r {
        Ok(out) => {
            &&& in_range(fact, tables)
            &&& self_loop(fact, tables) is None
            &&& substituted(fact, out, tables)
        },
        Err(error) => {
            ||| names_missing(fact, tables, error)
            ||| self_loop(fact, tables) == Some(error)
        },
    }
}

/// The id that the entity declaration at a position came to.
fn entity_id(entities: &Vec<Resolution<MemoryEntityId>>, idx: EntityIdx) -> (r: Result<
    MemoryEntityId,
    MemSubmitError,
>)
    ensures
        idx@ < entities@.len() ==> r is Ok && r->Ok_0@ == resolved_ids(entities@)[idx@ as int],
        idx@ >= entities@.len() ==> r == Err::<MemoryEntityId, MemSubmitError>(
            SubmitError::EntityIdxOutOfRange { idx: idx@, decl_count: entities@.len() as usize },
        ),
{
    if idx.0 < entities.len() {
        Ok(entities[idx.0].id)
    } else {
        Err(SubmitError::EntityIdxOutOfRange { idx: idx.0, decl_count: entities.len() })
    }
}

/// The id that the event declaration at a position came to.
fn event_id(events: &Vec<Resolution<MemoryEventId>>, idx: EventIdx) -> (r: Result<
    MemoryEventId,
    MemSubmitError,
>)
    ensures
        idx@ < events@.len() ==> r is Ok && r->Ok_0@ == resolved_ids(events@)[idx@ as int],
        idx@ >= events@.len() ==> r == Err::<MemoryEventId, MemSubmitError>(
            SubmitError::EventIdxOutOfRange { idx: idx@, decl_count: events@.len() as usize },
        ),
{
    if idx.0 < events.len() {
        Ok(events[idx.0].id)
    } else {
        Err(SubmitError::EventIdxOutOfRange { idx: idx.0, decl_count: events.len() })
    }
}

/// The id that the image declaration at a position came to.
fn image_id(images: &Vec<Resolution<MemoryImageId>>, idx: ImageIdx) -> (r: Result<
    MemoryImageId,
    MemSubmitError,
>)
    ensures
        idx@ < images@.len() ==> r is Ok && r->Ok_0@ == resolved_ids(images@)[idx@ as int],
        idx@ >= images@.len() ==> r == Err::<MemoryImageId, MemSubmitError>(
            SubmitError::ImageIdxOutOfRange { idx: idx@, decl_count: images@.len() as usize },
        ),
{
    if idx.0 < images.len() {
        Ok(images[idx.0].id)
    } else {
        Err(SubmitError::ImageIdxOutOfRange { idx: idx.0, decl_count: images.len() })
    }
}

// --- Clusters ---

/// Whether two positions are of declarations that came to the same id.
pub open spec fn same_image(table: Seq<u64>, a: usize, b: usize) -> bool {
    a < table.len() && b < table.len() && table[a as int] == table[b as int]
}

/// What the entity declarations came to.
pub open spec fn entity_image(
    entities: Seq<Resolution<MemoryEntityId>>,
) -> spec_fn(EntityIdx, MemoryEntityId) -> bool {
    tables_of(entities, Seq::empty(), Seq::empty()).entity()
}

/// What the event declarations came to.
pub open spec fn event_image(
    events: Seq<Resolution<MemoryEventId>>,
) -> spec_fn(EventIdx, MemoryEventId) -> bool {
    tables_of(Seq::empty(), events, Seq::empty()).event()
}

/// What the image declarations came to.
pub open spec fn image_image(
    images: Seq<Resolution<MemoryImageId>>,
) -> spec_fn(ImageIdx, MemoryImageId) -> bool {
    tables_of(Seq::empty(), Seq::empty(), images).image()
}

/// The self-loop of a relationship.
pub open spec fn relationship_loop(
    fact: attribute::Fact<EntityIdx>,
    entities: Seq<u64>,
) -> Option<MemSubmitError> {
    match fact {
        attribute::Fact::Relationship { pair, .. } => if same_image(
            entities,
            pair.first()@,
            pair.second()@,
        ) {
            Some(
                SubmitError::RelationshipSelfLoop {
                    id: MemoryEntityId(entities[pair.first()@ as int]),
                },
            )
        } else {
            None
        },
        _ => None,
    }
}

/// The self-loop of a spatial relation.
pub open spec fn spatial_loop(
    fact: observation::Fact<EntityIdx>,
    entities: Seq<u64>,
) -> Option<MemSubmitError> {
    match fact {
        observation::Fact::Spatial { pair, .. } => if same_image(
            entities,
            pair.first()@,
            pair.second()@,
        ) {
            Some(
                SubmitError::SpatialSelfLoop {
                    id: MemoryEntityId(entities[pair.first()@ as int]),
                },
            )
        } else {
            None
        },
        _ => None,
    }
}

/// The self-loop of an identity judgment.
pub open spec fn identity_loop(
    fact: identity::Fact<EntityIdx, EventIdx, ImageIdx>,
    tables: Tables,
) -> Option<MemSubmitError> {
    match fact {
        identity::Fact::SameEntity { pair } => if same_image(
            tables.entities,
            pair.first()@,
            pair.second()@,
        ) {
            Some(
                SubmitError::IdentityEntitySelfEquivalence {
                    id: MemoryEntityId(tables.entities[pair.first()@ as int]),
                },
            )
        } else {
            None
        },
        identity::Fact::SameEvent { pair } => if same_image(
            tables.events,
            pair.first()@,
            pair.second()@,
        ) {
            Some(
                SubmitError::IdentityEventSelfEquivalence {
                    id: MemoryEventId(tables.events[pair.first()@ as int]),
                },
            )
        } else {
            None
        },
        identity::Fact::SameArtifact { pair } => if same_image(
            tables.images,
            pair.first()@,
            pair.second()@,
        ) {
            Some(
                SubmitError::IdentityArtifactSelfEquivalence {
                    id: MemoryImageId(tables.images[pair.first()@ as int]),
                },
            )
        } else {
            None
        },
    }
}

/// Substitute in an attribute fact.
fn map_attribute(
    fact: attribute::Fact<EntityIdx>,
    entities: &Vec<Resolution<MemoryEntityId>>,
) -> (r: Result<attribute::Fact<MemoryEntityId>, MemSubmitError>)
    ensures
        r is Ok ==> {
            &&& all_below(fact.entities(), entities@.len())
            &&& fact.maps_by(r->Ok_0, entity_image(entities@))
            &&& relationship_loop(fact, resolved_ids(entities@)) is None
        },
        r is Err ==> {
            ||| entity_missing(fact.entities(), entities@.len(), r->Err_0)
            ||| relationship_loop(fact, resolved_ids(entities@)) == Some(r->Err_0)
        },
{
    let fe = |idx: &EntityIdx| -> (r: Result<MemoryEntityId, MemSubmitError>)
        ensures
            idx@ < entities@.len() ==> r is Ok && r->Ok_0@ == resolved_ids(entities@)[idx@ as int],
            idx@ >= entities@.len() ==> r == Err::<MemoryEntityId, MemSubmitError>(
                SubmitError::EntityIdxOutOfRange { idx: idx@, decl_count: entities@.len() as usize },
            ),
        { entity_id(entities, *idx) };
    let on_loop = |id: MemoryEntityId| -> (r: MemSubmitError)
        ensures
            r == (SubmitError::<MemoryEntityId, MemoryEventId, MemoryImageId>::RelationshipSelfLoop {
                id,
            }),
        { SubmitError::RelationshipSelfLoop { id } };
    let ghost whole = fact;
    let r = fact.try_map_ids(&fe, on_loop);
    proof {
        match whole {
            attribute::Fact::Name { entity, .. } => {
                assert(whole.entities()[0] == entity);
            },
            attribute::Fact::ExternalReference { entity, .. } => {
                assert(whole.entities()[0] == entity);
            },
            attribute::Fact::Relationship { pair, .. } => {
                assert(whole.entities()[0] == pair.first());
                assert(whole.entities()[1] == pair.second());
            },
        }
    }
    r
}

/// Substitute in a construction fact.
fn map_construction(
    fact: bookend::ConstructionFact<EntityIdx>,
    entities: &Vec<Resolution<MemoryEntityId>>,
) -> (r: Result<bookend::ConstructionFact<MemoryEntityId>, MemSubmitError>)
    ensures
        r is Ok ==> {
            &&& all_below(fact.entities(), entities@.len())
            &&& fact.maps_by(r->Ok_0, entity_image(entities@))
        },
        r is Err ==> {
            ||| entity_missing(fact.entities(), entities@.len(), r->Err_0)
        },
{
    let fe = |idx: &EntityIdx| -> (r: Result<MemoryEntityId, MemSubmitError>)
        ensures
            idx@ < entities@.len() ==> r is Ok && r->Ok_0@ == resolved_ids(entities@)[idx@ as int],
            idx@ >= entities@.len() ==> r == Err::<MemoryEntityId, MemSubmitError>(
                SubmitError::EntityIdxOutOfRange { idx: idx@, decl_count: entities@.len() as usize },
            ),
        { entity_id(entities, *idx) };
    let ghost whole = fact;
    let r = fact.try_map_ids(&fe);
    proof {
        match whole {
            bookend::ConstructionFact::Started { entity, .. } => {
                assert(whole.entities()[0] == entity);
            },
            bookend::ConstructionFact::Completed { entity, .. } => {
                assert(whole.entities()[0] == entity);
            },
            bookend::ConstructionFact::Location { entity, .. } => {
                assert(whole.entities()[0] == entity);
            },
        }
    }
    r
}

/// Substitute in a demolition fact.
fn map_demolition(
    fact: bookend::DemolitionFact<EntityIdx>,
    entities: &Vec<Resolution<MemoryEntityId>>,
) -> (r: Result<bookend::DemolitionFact<MemoryEntityId>, MemSubmitError>)
    ensures
        r is Ok ==> {
            &&& all_below(fact.entities(), entities@.len())
            &&& fact.maps_by(r->Ok_0, entity_image(entities@))
        },
        r is Err ==> {
            ||| entity_missing(fact.entities(), entities@.len(), r->Err_0)
        },
{
    let fe = |idx: &EntityIdx| -> (r: Result<MemoryEntityId, MemSubmitError>)
        ensures
            idx@ < entities@.len() ==> r is Ok && r->Ok_0@ == resolved_ids(entities@)[idx@ as int],
            idx@ >= entities@.len() ==> r == Err::<MemoryEntityId, MemSubmitError>(
                SubmitError::EntityIdxOutOfRange { idx: idx@, decl_count: entities@.len() as usize },
            ),
        { entity_id(entities, *idx) };
    let ghost whole = fact;
    let r = fact.try_map_ids(&fe);
    proof {
        match whole {
            bookend::DemolitionFact::Started { entity, .. } => {
                assert(whole.entities()[0] == entity);
            },
            bookend::DemolitionFact::Completed { entity, .. } => {
                assert(whole.entities()[0] == entity);
            },
        }
    }
    r
}

/// The one id of what can be ordered.
proof fn lemma_orderable(event: event::OrderableEvent<EntityIdx, EventIdx>)
    ensures
        match event {
            event::OrderableEvent::Event { event: e } => event.events().len() == 1
                && event.events()[0] == e && event.entities().len() == 0,
            event::OrderableEvent::ConstructionCompletion { entity } => event.entities().len() == 1
                && event.entities()[0] == entity && event.events().len() == 0,
            event::OrderableEvent::DemolitionStart { entity } => event.entities().len() == 1
                && event.entities()[0] == entity && event.events().len() == 0,
        },
{
}

/// The ids of a gap are those of its two ends.
proof fn lemma_gap(gap: event::GapBounds<EntityIdx, EventIdx>)
    ensures
        gap.from.entities().len() == 1 ==> gap.entities()[0] == gap.from.entities()[0],
        gap.to.entities().len() == 1 ==> gap.entities()[gap.from.entities().len() as int]
            == gap.to.entities()[0],
        gap.from.events().len() == 1 ==> gap.events()[0] == gap.from.events()[0],
        gap.to.events().len() == 1 ==> gap.events()[gap.from.events().len() as int]
            == gap.to.events()[0],
{
}

/// Substitute in an event fact.
fn map_event(
    fact: event::Fact<EntityIdx, EventIdx>,
    entities: &Vec<Resolution<MemoryEntityId>>,
    events: &Vec<Resolution<MemoryEventId>>,
) -> (r: Result<event::Fact<MemoryEntityId, MemoryEventId>, MemSubmitError>)
    ensures
        r is Ok ==> {
            &&& all_below(fact.entities(), entities@.len())
            &&& all_below(fact.events(), events@.len())
            &&& fact.maps_by(r->Ok_0, entity_image(entities@), event_image(events@))
        },
        r is Err ==> {
            ||| entity_missing(fact.entities(), entities@.len(), r->Err_0)
            ||| event_missing(fact.events(), events@.len(), r->Err_0)
        },
{
    let fe = |idx: &EntityIdx| -> (r: Result<MemoryEntityId, MemSubmitError>)
        ensures
            idx@ < entities@.len() ==> r is Ok && r->Ok_0@ == resolved_ids(entities@)[idx@ as int],
            idx@ >= entities@.len() ==> r == Err::<MemoryEntityId, MemSubmitError>(
                SubmitError::EntityIdxOutOfRange { idx: idx@, decl_count: entities@.len() as usize },
            ),
        { entity_id(entities, *idx) };
    let fv = |idx: &EventIdx| -> (r: Result<MemoryEventId, MemSubmitError>)
        ensures
            idx@ < events@.len() ==> r is Ok && r->Ok_0@ == resolved_ids(events@)[idx@ as int],
            idx@ >= events@.len() ==> r == Err::<MemoryEventId, MemSubmitError>(
                SubmitError::EventIdxOutOfRange { idx: idx@, decl_count: events@.len() as usize },
            ),
        { event_id(events, *idx) };
    let ghost whole = fact;
    let r = fact.try_map_ids(&fe, &fv);
    proof {
        match whole {
            event::Fact::DurationalDate { event, .. } => {
                assert(whole.events()[0] == event);
            },
            event::Fact::PointDate { event, .. } => {
                assert(whole.events()[0] == event);
            },
            event::Fact::MovedToLocation { event, .. } => {
                assert(whole.events()[0] == event);
            },
            event::Fact::DamageCause { event, .. } => {
                assert(whole.events()[0] == event);
            },
            event::Fact::MoveMethod { event, .. } => {
                assert(whole.events()[0] == event);
            },
            event::Fact::UsageChange { event, .. } => {
                assert(whole.events()[0] == event);
            },
            event::Fact::Designation { event, .. } => {
                assert(whole.events()[0] == event);
            },
            event::Fact::Description { event, .. } => {
                assert(whole.events()[0] == event);
            },
            event::Fact::Gap { gap } => {
                lemma_orderable(gap.from);
                lemma_orderable(gap.to);
                lemma_gap(gap);
                assert(whole.entities() =~= gap.entities());
                assert(whole.events() =~= gap.events());
            },
        }
    }
    r
}

/// Substitute in an image fact.
fn map_image(
    fact: image::Fact<ImageIdx>,
    images: &Vec<Resolution<MemoryImageId>>,
) -> (r: Result<image::Fact<MemoryImageId>, MemSubmitError>)
    ensures
        r is Ok ==> {
            &&& all_below(fact.images(), images@.len())
            &&& fact.maps_by(r->Ok_0, image_image(images@))
        },
        r is Err ==> {
            ||| image_missing(fact.images(), images@.len(), r->Err_0)
        },
{
    let fi = |idx: &ImageIdx| -> (r: Result<MemoryImageId, MemSubmitError>)
        ensures
            idx@ < images@.len() ==> r is Ok && r->Ok_0@ == resolved_ids(images@)[idx@ as int],
            idx@ >= images@.len() ==> r == Err::<MemoryImageId, MemSubmitError>(
                SubmitError::ImageIdxOutOfRange { idx: idx@, decl_count: images@.len() as usize },
            ),
        { image_id(images, *idx) };
    let ghost whole = fact;
    let r = fact.try_map_ids(&fi);
    proof {
        match whole {
            image::Fact::Source { image, .. } => {
                assert(whole.images()[0] == image);
            },
            image::Fact::Author { image, .. } => {
                assert(whole.images()[0] == image);
            },
            image::Fact::CreatedDate { image, .. } => {
                assert(whole.images()[0] == image);
            },
            image::Fact::CapturedDate { image, .. } => {
                assert(whole.images()[0] == image);
            },
            image::Fact::CapturedLocation { image, .. } => {
                assert(whole.images()[0] == image);
            },
            image::Fact::Medium { image, .. } => {
                assert(whole.images()[0] == image);
            },
        }
    }
    r
}

/// Substitute in a picture fact.
fn map_picture(
    fact: picture::Fact<ImageIdx>,
    images: &Vec<Resolution<MemoryImageId>>,
) -> (r: Result<picture::Fact<MemoryImageId>, MemSubmitError>)
    ensures
        r is Ok ==> {
            &&& all_below(fact.images(), images@.len())
            &&& fact.maps_by(r->Ok_0, image_image(images@))
        },
        r is Err ==> {
            ||| image_missing(fact.images(), images@.len(), r->Err_0)
        },
{
    let fi = |idx: &ImageIdx| -> (r: Result<MemoryImageId, MemSubmitError>)
        ensures
            idx@ < images@.len() ==> r is Ok && r->Ok_0@ == resolved_ids(images@)[idx@ as int],
            idx@ >= images@.len() ==> r == Err::<MemoryImageId, MemSubmitError>(
                SubmitError::ImageIdxOutOfRange { idx: idx@, decl_count: images@.len() as usize },
            ),
        { image_id(images, *idx) };
    let ghost whole = fact;
    let r = fact.try_map_ids(&fi);
    proof {
        match whole {
            picture::Fact::IsPicture { image, .. } => {
                assert(whole.images()[0] == image);
            },
            picture::Fact::CapturedDate { image, .. } => {
                assert(whole.images()[0] == image);
            },
            picture::Fact::CapturedLocation { image, .. } => {
                assert(whole.images()[0] == image);
            },
        }
    }
    r
}

/// Substitute in a map fact.
fn map_sheet(
    fact: crate::facts::map::Fact<ImageIdx>,
    images: &Vec<Resolution<MemoryImageId>>,
) -> (r: Result<crate::facts::map::Fact<MemoryImageId>, MemSubmitError>)
    ensures
        r is Ok ==> {
            &&& all_below(fact.images(), images@.len())
            &&& fact.maps_by(r->Ok_0, image_image(images@))
        },
        r is Err ==> {
            ||| image_missing(fact.images(), images@.len(), r->Err_0)
        },
{
    let fi = |idx: &ImageIdx| -> (r: Result<MemoryImageId, MemSubmitError>)
        ensures
            idx@ < images@.len() ==> r is Ok && r->Ok_0@ == resolved_ids(images@)[idx@ as int],
            idx@ >= images@.len() ==> r == Err::<MemoryImageId, MemSubmitError>(
                SubmitError::ImageIdxOutOfRange { idx: idx@, decl_count: images@.len() as usize },
            ),
        { image_id(images, *idx) };
    let ghost whole = fact;
    let r = fact.try_map_ids(&fi);
    proof {
        match whole {
            crate::facts::map::Fact::IsMap { image, .. } => {
                assert(whole.images()[0] == image);
            },
        }
    }
    r
}

/// Substitute in an identity judgment.
fn map_identity(
    fact: identity::Fact<EntityIdx, EventIdx, ImageIdx>,
    entities: &Vec<Resolution<MemoryEntityId>>,
    events: &Vec<Resolution<MemoryEventId>>,
    images: &Vec<Resolution<MemoryImageId>>,
) -> (r: Result<identity::Fact<MemoryEntityId, MemoryEventId, MemoryImageId>, MemSubmitError>)
    ensures
        r is Ok ==> {
            &&& all_below(fact.entities(), entities@.len())
            &&& all_below(fact.events(), events@.len())
            &&& all_below(fact.images(), images@.len())
            &&& fact.maps_by(r->Ok_0, entity_image(entities@), event_image(events@), image_image(images@))
            &&& identity_loop(fact, tables_of(entities@, events@, images@)) is None
        },
        r is Err ==> {
            ||| entity_missing(fact.entities(), entities@.len(), r->Err_0)
            ||| event_missing(fact.events(), events@.len(), r->Err_0)
            ||| image_missing(fact.images(), images@.len(), r->Err_0)
            ||| identity_loop(fact, tables_of(entities@, events@, images@)) == Some(r->Err_0)
        },
{
    let fe = |idx: &EntityIdx| -> (r: Result<MemoryEntityId, MemSubmitError>)
        ensures
            idx@ < entities@.len() ==> r is Ok && r->Ok_0@ == resolved_ids(entities@)[idx@ as int],
            idx@ >= entities@.len() ==> r == Err::<MemoryEntityId, MemSubmitError>(
                SubmitError::EntityIdxOutOfRange { idx: idx@, decl_count: entities@.len() as usize },
            ),
        { entity_id(entities, *idx) };
    let fv = |idx: &EventIdx| -> (r: Result<MemoryEventId, MemSubmitError>)
        ensures
            idx@ < events@.len() ==> r is Ok && r->Ok_0@ == resolved_ids(events@)[idx@ as int],
            idx@ >= events@.len() ==> r == Err::<MemoryEventId, MemSubmitError>(
                SubmitError::EventIdxOutOfRange { idx: idx@, decl_count: events@.len() as usize },
            ),
        { event_id(events, *idx) };
    let fi = |idx: &ImageIdx| -> (r: Result<MemoryImageId, MemSubmitError>)
        ensures
            idx@ < images@.len() ==> r is Ok && r->Ok_0@ == resolved_ids(images@)[idx@ as int],
            idx@ >= images@.len() ==> r == Err::<MemoryImageId, MemSubmitError>(
                SubmitError::ImageIdxOutOfRange { idx: idx@, decl_count: images@.len() as usize },
            ),
        { image_id(images, *idx) };
    let on_entity_loop = |id: MemoryEntityId| -> (r: MemSubmitError)
        ensures
            r == (SubmitError::<MemoryEntityId, MemoryEventId, MemoryImageId>::IdentityEntitySelfEquivalence {
                id,
            }),
        { SubmitError::IdentityEntitySelfEquivalence { id } };
    let on_event_loop = |id: MemoryEventId| -> (r: MemSubmitError)
        ensures
            r == (SubmitError::<MemoryEntityId, MemoryEventId, MemoryImageId>::IdentityEventSelfEquivalence {
                id,
            }),
        { SubmitError::IdentityEventSelfEquivalence { id } };
    let on_image_loop = |id: MemoryImageId| -> (r: MemSubmitError)
        ensures
            r == (SubmitError::<MemoryEntityId, MemoryEventId, MemoryImageId>::IdentityArtifactSelfEquivalence {
                id,
            }),
        { SubmitError::IdentityArtifactSelfEquivalence { id } };
    let ghost whole = fact;
    let r = fact.try_map_ids(&fe, &fv, &fi, on_entity_loop, on_event_loop, on_image_loop);
    proof {
        match whole {
            identity::Fact::SameEntity { pair } => {
                assert(whole.entities()[0] == pair.first());
                assert(whole.entities()[1] == pair.second());
            },
            identity::Fact::SameEvent { pair } => {
                assert(whole.events()[0] == pair.first());
                assert(whole.events()[1] == pair.second());
            },
            identity::Fact::SameArtifact { pair } => {
                assert(whole.images()[0] == pair.first());
                assert(whole.images()[1] == pair.second());
            },
        }
    }
    r
}

/// Substitute in a depiction.
fn map_depiction(
    fact: depiction::Fact<EntityIdx, ImageIdx>,
    entities: &Vec<Resolution<MemoryEntityId>>,
    images: &Vec<Resolution<MemoryImageId>>,
) -> (r: Result<depiction::Fact<MemoryEntityId, MemoryImageId>, MemSubmitError>)
    ensures
        r is Ok ==> {
            &&& all_below(fact.entities(), entities@.len())
            &&& all_below(fact.images(), images@.len())
            &&& fact.maps_by(r->Ok_0, entity_image(entities@), image_image(images@))
        },
        r is Err ==> {
            ||| entity_missing(fact.entities(), entities@.len(), r->Err_0)
            ||| image_missing(fact.images(), images@.len(), r->Err_0)
        },
{
    let fe = |idx: &EntityIdx| -> (r: Result<MemoryEntityId, MemSubmitError>)
        ensures
            idx@ < entities@.len() ==> r is Ok && r->Ok_0@ == resolved_ids(entities@)[idx@ as int],
            idx@ >= entities@.len() ==> r == Err::<MemoryEntityId, MemSubmitError>(
                SubmitError::EntityIdxOutOfRange { idx: idx@, decl_count: entities@.len() as usize },
            ),
        { entity_id(entities, *idx) };
    let fi = |idx: &ImageIdx| -> (r: Result<MemoryImageId, MemSubmitError>)
        ensures
            idx@ < images@.len() ==> r is Ok && r->Ok_0@ == resolved_ids(images@)[idx@ as int],
            idx@ >= images@.len() ==> r == Err::<MemoryImageId, MemSubmitError>(
                SubmitError::ImageIdxOutOfRange { idx: idx@, decl_count: images@.len() as usize },
            ),
        { image_id(images, *idx) };
    let ghost whole = fact;
    let r = fact.try_map_ids(&fe, &fi);
    proof {
        match whole {
            depiction::Fact::InPicture { entity, image, .. } => {
                assert(whole.entities()[0] == entity);
                assert(whole.images()[0] == image);
            },
            depiction::Fact::OnMap { entity, image, .. } => {
                assert(whole.entities()[0] == entity);
                assert(whole.images()[0] == image);
            },
        }
    }
    r
}

/// Substitute in an observation.
fn map_observation(
    fact: observation::Fact<EntityIdx>,
    entities: &Vec<Resolution<MemoryEntityId>>,
) -> (r: Result<observation::Fact<MemoryEntityId>, MemSubmitError>)
    ensures
        r is Ok ==> {
            &&& all_below(fact.entities(), entities@.len())
            &&& fact.maps_by(r->Ok_0, entity_image(entities@))
            &&& spatial_loop(fact, resolved_ids(entities@)) is None
        },
        r is Err ==> {
            ||| entity_missing(fact.entities(), entities@.len(), r->Err_0)
            ||| spatial_loop(fact, resolved_ids(entities@)) == Some(r->Err_0)
        },
{
    let fe = |idx: &EntityIdx| -> (r: Result<MemoryEntityId, MemSubmitError>)
        ensures
            idx@ < entities@.len() ==> r is Ok && r->Ok_0@ == resolved_ids(entities@)[idx@ as int],
            idx@ >= entities@.len() ==> r == Err::<MemoryEntityId, MemSubmitError>(
                SubmitError::EntityIdxOutOfRange { idx: idx@, decl_count: entities@.len() as usize },
            ),
        { entity_id(entities, *idx) };
    let on_loop = |id: MemoryEntityId| -> (r: MemSubmitError)
        ensures
            r == (SubmitError::<MemoryEntityId, MemoryEventId, MemoryImageId>::SpatialSelfLoop {
                id,
            }),
        { SubmitError::SpatialSelfLoop { id } };
    let ghost whole = fact;
    let r = fact.try_map_ids(&fe, on_loop);
    proof {
        match whole {
            observation::Fact::Feature { entity, .. } => {
                assert(whole.entities()[0] == entity);
            },
            observation::Fact::Spatial { pair, relation } => {
                assert(whole.entities()[0] == pair.first());
                assert(whole.entities()[1] == pair.second());
                match relation {
                    spatial::TopologicalRel::SeparatedBy { separator } => {
                        assert(whole.entities()[2] == separator);
                    },
                    spatial::TopologicalRel::AlignedAlong { axis } => {
                        assert(whole.entities()[2] == axis);
                    },
                    _ => {},
                }
            },
        }
    }
    r
}

/// Substitute in a composite fact.
fn map_composite(
    fact: composites::Fact<ImageIdx>,
    images: &Vec<Resolution<MemoryImageId>>,
) -> (r: Result<composites::Fact<MemoryImageId>, MemSubmitError>)
    ensures
        r is Ok ==> {
            &&& all_below(fact.images(), images@.len())
            &&& fact.maps_by(r->Ok_0, image_image(images@))
        },
        r is Err ==> {
            ||| image_missing(fact.images(), images@.len(), r->Err_0)
        },
{
    let fi = |idx: &ImageIdx| -> (r: Result<MemoryImageId, MemSubmitError>)
        ensures
            idx@ < images@.len() ==> r is Ok && r->Ok_0@ == resolved_ids(images@)[idx@ as int],
            idx@ >= images@.len() ==> r == Err::<MemoryImageId, MemSubmitError>(
                SubmitError::ImageIdxOutOfRange { idx: idx@, decl_count: images@.len() as usize },
            ),
        { image_id(images, *idx) };
    let ghost whole = fact;
    let r = fact.try_map_ids(&fi);
    proof {
        match whole {
            composites::Fact::IsSubimageOf { subimage, parent, .. } => {
                assert(whole.images()[0] == subimage);
                assert(whole.images()[1] == parent);
            },
        }
    }
    r
}

// --- Facts ---

/// Substitute in a factual fact.
fn substitute_factual(
    f: StoredFactualFact<EntityIdx, EventIdx, ImageIdx>,
    entities: &Vec<Resolution<MemoryEntityId>>,
    events: &Vec<Resolution<MemoryEventId>>,
    images: &Vec<Resolution<MemoryImageId>>,
) -> (r: Result<MemStoredFact, MemSubmitError>)
    ensures
        substitution(StoredFact::Factual(f), tables_of(entities@, events@, images@), r),
{
    let citation = f.citation;
    let mapped: Result<MemFactualAssertion, MemSubmitError> = match f.assertion {
        FactualAssertion::Attribute { fact } => match map_attribute(fact, entities) {
            Ok(fact) => Ok(FactualAssertion::Attribute { fact }),
            Err(error) => Err(error),
        },
        FactualAssertion::Construction { fact } => match map_construction(fact, entities) {
            Ok(fact) => Ok(FactualAssertion::Construction { fact }),
            Err(error) => Err(error),
        },
        FactualAssertion::Demolition { fact } => match map_demolition(fact, entities) {
            Ok(fact) => Ok(FactualAssertion::Demolition { fact }),
            Err(error) => Err(error),
        },
        FactualAssertion::Event { fact } => match map_event(fact, entities, events) {
            Ok(fact) => Ok(FactualAssertion::Event { fact }),
            Err(error) => Err(error),
        },
        FactualAssertion::Image { fact } => match map_image(fact, images) {
            Ok(fact) => Ok(FactualAssertion::Image { fact }),
            Err(error) => Err(error),
        },
        FactualAssertion::Picture { fact } => match map_picture(fact, images) {
            Ok(fact) => Ok(FactualAssertion::Picture { fact }),
            Err(error) => Err(error),
        },
        FactualAssertion::MapSheet { fact } => match map_sheet(fact, images) {
            Ok(fact) => Ok(FactualAssertion::MapSheet { fact }),
            Err(error) => Err(error),
        },
    };
    match mapped {
        Ok(assertion) => Ok(StoredFact::Factual(StoredFactualFact { assertion, citation })),
        Err(error) => Err(error),
    }
}

/// Substitute in a judgment.
fn substitute_judgment(
    f: StoredJudgmentFact<EntityIdx, EventIdx, ImageIdx>,
    entities: &Vec<Resolution<MemoryEntityId>>,
    events: &Vec<Resolution<MemoryEventId>>,
    images: &Vec<Resolution<MemoryImageId>>,
) -> (r: Result<MemStoredFact, MemSubmitError>)
    ensures
        substitution(StoredFact::Judgment(f), tables_of(entities@, events@, images@), r),
{
    let source = f.source;
    let mapped: Result<MemJudgmentAssertion, MemSubmitError> = match f.assertion {
        JudgmentAssertion::Identity { fact } => match map_identity(fact, entities, events, images) {
            Ok(fact) => Ok(JudgmentAssertion::Identity { fact }),
            Err(error) => Err(error),
        },
        JudgmentAssertion::Depiction { fact } => match map_depiction(fact, entities, images) {
            Ok(fact) => Ok(JudgmentAssertion::Depiction { fact }),
            Err(error) => Err(error),
        },
        JudgmentAssertion::Observation { fact } => match map_observation(fact, entities) {
            Ok(fact) => Ok(JudgmentAssertion::Observation { fact }),
            Err(error) => Err(error),
        },
        JudgmentAssertion::Composite { fact } => match map_composite(fact, images) {
            Ok(fact) => Ok(JudgmentAssertion::Composite { fact }),
            Err(error) => Err(error),
        },
    };
    match mapped {
        Ok(assertion) => Ok(StoredFact::Judgment(StoredJudgmentFact { assertion, source })),
        Err(error) => Err(error),
    }
}

/// Substitute in a fact. A meta fact stays as it is.
pub fn substitute_fact(
    fact: SubmitFact,
    entities: &Vec<Resolution<MemoryEntityId>>,
    events: &Vec<Resolution<MemoryEventId>>,
    images: &Vec<Resolution<MemoryImageId>>,
) -> (r: Result<MemStoredFact, MemSubmitError>)
    ensures
        substitution(fact, tables_of(entities@, events@, images@), r),
{
    match fact {
        StoredFact::Factual(f) => substitute_factual(f, entities, events, images),
        StoredFact::Judgment(f) => substitute_judgment(f, entities, events, images),
        StoredFact::Meta(f) => Ok(StoredFact::Meta(f)),
    }
}

// --- Which facts cannot be substituted ---

/// A fact between two things is refused exactly where the two positions came to the
/// same id, with the error of its kind and that id: a relationship, a spatial relation,
/// and a judgment that two entities, events or artifacts are the same. No other fact is
/// refused for that.
pub proof fn law_self_loop_exactly_where_two_came_to_one(fact: SubmitFact, tables: Tables)
    requires
        in_range(fact, tables),
    ensures
        (fact matches StoredFact::Factual(f) ==> match f.assertion {
            FactualAssertion::Attribute { fact: attribute::Fact::Relationship { pair, .. } } => {
                let a = tables.entities[pair.first()@ as int];
                let b = tables.entities[pair.second()@ as int];
                &&& a != b ==> self_loop(fact, tables) is None
                &&& a == b ==> self_loop(fact, tables) == Some::<MemSubmitError>(
                    (SubmitError::RelationshipSelfLoop { id: MemoryEntityId(a) }),
                )
            },
            _ => self_loop(fact, tables) is None,
        }),
        (fact matches StoredFact::Judgment(f) ==> match f.assertion {
            JudgmentAssertion::Observation { fact: observation::Fact::Spatial { pair, .. } } => {
                let a = tables.entities[pair.first()@ as int];
                let b = tables.entities[pair.second()@ as int];
                &&& a != b ==> self_loop(fact, tables) is None
                &&& a == b ==> self_loop(fact, tables) == Some::<MemSubmitError>(
                    (SubmitError::SpatialSelfLoop { id: MemoryEntityId(a) }),
                )
            },
            JudgmentAssertion::Identity { fact: identity::Fact::SameEntity { pair } } => {
                let a = tables.entities[pair.first()@ as int];
                let b = tables.entities[pair.second()@ as int];
                &&& a != b ==> self_loop(fact, tables) is None
                &&& a == b ==> self_loop(fact, tables) == Some::<MemSubmitError>(
                    (SubmitError::IdentityEntitySelfEquivalence { id: MemoryEntityId(a) }),
                )
            },
            JudgmentAssertion::Identity { fact: identity::Fact::SameEvent { pair } } => {
                let a = tables.events[pair.first()@ as int];
                let b = tables.events[pair.second()@ as int];
                &&& a != b ==> self_loop(fact, tables) is None
                &&& a == b ==> self_loop(fact, tables) == Some::<MemSubmitError>(
                    (SubmitError::IdentityEventSelfEquivalence { id: MemoryEventId(a) }),
                )
            },
            JudgmentAssertion::Identity { fact: identity::Fact::SameArtifact { pair } } => {
                let a = tables.images[pair.first()@ as int];
                let b = tables.images[pair.second()@ as int];
                &&& a != b ==> self_loop(fact, tables) is None
                &&& a == b ==> self_loop(fact, tables) == Some::<MemSubmitError>(
                    (SubmitError::IdentityArtifactSelfEquivalence { id: MemoryImageId(a) }),
                )
            },
            _ => self_loop(fact, tables) is None,
        }),
        fact is Meta ==> self_loop(fact, tables) is None,
{
    match fact {
        StoredFact::Factual(f) => match f.assertion {
            FactualAssertion::Attribute { fact: attribute::Fact::Relationship { pair, .. } } => {
                assert(fact.entities()[0] == pair.first());
                assert(fact.entities()[1] == pair.second());
            },
            _ => {},
        },
        StoredFact::Judgment(f) => match f.assertion {
            JudgmentAssertion::Observation { fact: observation::Fact::Spatial { pair, .. } } => {
                assert(fact.entities()[0] == pair.first());
                assert(fact.entities()[1] == pair.second());
            },
            JudgmentAssertion::Identity { fact: identity::Fact::SameEntity { pair } } => {
                assert(fact.entities()[0] == pair.first());
                assert(fact.entities()[1] == pair.second());
            },
            JudgmentAssertion::Identity { fact: identity::Fact::SameEvent { pair } } => {
                assert(fact.events()[0] == pair.first());
                assert(fact.events()[1] == pair.second());
            },
            JudgmentAssertion::Identity { fact: identity::Fact::SameArtifact { pair } } => {
                assert(fact.images()[0] == pair.first());
                assert(fact.images()[1] == pair.second());
            },
            _ => {},
        },
        _ => {},
    }
}

/// A fact is refused for a position exactly where it mentions one past the declarations
/// of its kind, with that position and their number, and else only where its two
/// subjects came to one.
pub proof fn law_substitution_fails_for(fact: SubmitFact, tables: Tables, error: MemSubmitError)
    requires
        substitution(fact, tables, Err(error)),
    ensures
        match error {
            SubmitError::EntityIdxOutOfRange { idx, decl_count } => decl_count
                == tables.entities.len() && decl_count <= idx && exists|j: int|
                0 <= j < fact.entities().len() && (#[trigger] fact.entities()[j])@ == idx,
            SubmitError::EventIdxOutOfRange { idx, decl_count } => decl_count
                == tables.events.len() && decl_count <= idx && exists|j: int|
                0 <= j < fact.events().len() && (#[trigger] fact.events()[j])@ == idx,
            SubmitError::ImageIdxOutOfRange { idx, decl_count } => decl_count
                == tables.images.len() && decl_count <= idx && exists|j: int|
                0 <= j < fact.images().len() && (#[trigger] fact.images()[j])@ == idx,
            _ => self_loop(fact, tables) == Some(error),
        },
{
}

/// A fact comes out only where every position that it mentions is that of a declaration.
pub proof fn law_substitution_succeeds_in_range(
    fact: SubmitFact,
    tables: Tables,
    out: MemStoredFact,
)
    requires
        substitution(fact, tables, Ok(out)),
    ensures
        forall|j: int|
            0 <= j < fact.entities().len() ==> (#[trigger] fact.entities()[j])@
                < tables.entities.len(),
        forall|j: int|
            0 <= j < fact.events().len() ==> (#[trigger] fact.events()[j])@ < tables.events.len(),
        forall|j: int|
            0 <= j < fact.images().len() ==> (#[trigger] fact.images()[j])@ < tables.images.len(),
        self_loop(fact, tables) is None,
        fact.maps_by(out, tables.entity(), tables.event(), tables.image()),
{
}

} // verus!
