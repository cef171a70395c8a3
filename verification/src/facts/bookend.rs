//! Bookend cluster: flat per-entity construction and demolition facts.
//!
//! Construction carries a start date, a completion date, and a location;
//! demolition carries a start and a completion date, its location being the
//! entity's last known one.
use vstd::prelude::*;

use crate::algebra::ordered::TotalOrder;
use crate::date::UncertainDate;
use crate::facts::identity::{agree, itself, undoes};
use crate::location::LocationReference;

verus! {

/// A fact about how an entity came to be.
#[derive(Debug, Clone, PartialEq, Eq)]
pub enum ConstructionFact<EntId: TotalOrder> {
    /// Construction began.
    Started {
        /// The entity.
        entity: EntId,
        /// When.
        bound: UncertainDate,
    },
    /// Construction was over.
    Completed {
        /// The entity.
        entity: EntId,
        /// When.
        bound: UncertainDate,
    },
    /// Where the entity was built.
    Location {
        /// The entity.
        entity: EntId,
        /// Where.
        location: LocationReference,
    },
}

impl<EntId: TotalOrder> ConstructionFact<EntId> {
    /// The one entity the fact is about.
    pub open spec fn about(self) -> EntId {
        match self {
            ConstructionFact::Started { entity, .. } => entity,
            ConstructionFact::Completed { entity, .. } => entity,
            ConstructionFact::Location { entity, .. } => entity,
        }
    }

    /// The one entity the fact is about.
    pub fn subject(&self) -> (r: &EntId)
        ensures
            *r == self.about(),
    {
        match self {
            ConstructionFact::Started { entity, .. } => entity,
            ConstructionFact::Completed { entity, .. } => entity,
            ConstructionFact::Location { entity, .. } => entity,
        }
    }

    /// The entities mentioned, in order.
    pub open spec fn entities(self) -> Seq<EntId> {
        match self {
            ConstructionFact::Started { entity, .. } => seq![entity],
            ConstructionFact::Completed { entity, .. } => seq![entity],
            ConstructionFact::Location { entity, .. } => seq![entity],
        }
    }

    /// Hand over every id mentioned, in order.
    pub fn for_each_id(&self, entities: &mut Vec<EntId>) where EntId: Copy
        ensures
            final(entities)@ == old(entities)@ + self.entities(),
    {
        match self {
            ConstructionFact::Started { entity, .. } => entities.push(*entity),
            ConstructionFact::Completed { entity, .. } => entities.push(*entity),
            ConstructionFact::Location { entity, .. } => entities.push(*entity),
        }
        assert(entities@ =~= old(entities)@ + self.entities());
    }

    /// Whether `out` says the same of the images of the ids.
    pub open spec fn maps_by<
        E2: TotalOrder,
    >(self, out: ConstructionFact<E2>, e: spec_fn(EntId, E2) -> bool) -> bool {
        match (self, out) {
            (
                ConstructionFact::Started { entity, bound },
                ConstructionFact::Started { entity: entity2, bound: bound2 },
            ) => {
                &&& e(entity, entity2)
                &&& bound == bound2
            },
            (
                ConstructionFact::Completed { entity, bound },
                ConstructionFact::Completed { entity: entity2, bound: bound2 },
            ) => {
                &&& e(entity, entity2)
                &&& bound == bound2
            },
            (
                ConstructionFact::Location { entity, location },
                ConstructionFact::Location { entity: entity2, location: location2 },
            ) => {
                &&& e(entity, entity2)
                &&& location == location2
            },
            _ => false,
        }
    }

    /// Whether mapping the ids fails with `error`.
    pub open spec fn fails_by<
        E2: TotalOrder,
        Fault,
        FE: Fn(&EntId) -> Result<E2, Fault>,
    >(self, fe: FE, error: Fault) -> bool {
        match self {
            ConstructionFact::Started { entity, .. } => call_ensures(
                fe,
                (&entity,),
                Err::<E2, Fault>(error),
            ),
            ConstructionFact::Completed { entity, .. } => call_ensures(
                fe,
                (&entity,),
                Err::<E2, Fault>(error),
            ),
            ConstructionFact::Location { entity, .. } => call_ensures(
                fe,
                (&entity,),
                Err::<E2, Fault>(error),
            ),
        }
    }

    /// Replace every id by its image; the first failure is the error.
    pub fn try_map_ids<
        E2: TotalOrder,
        Fault,
        FE: Fn(&EntId) -> Result<E2, Fault>,
    >(self, fe: &FE) -> (r: Result<ConstructionFact<E2>, Fault>)
        requires
            forall|x: EntId| call_requires(*fe, (&x,)),
        ensures
            r is Ok ==> self.maps_by(
                r->Ok_0,
                |x: EntId, y: E2| call_ensures(*fe, (&x,), Ok::<E2, Fault>(y)),
            ),
            r is Err ==> self.fails_by(*fe, r->Err_0),
    {
        match self {
            ConstructionFact::Started { entity, bound } => {
                let entity = match fe(&entity) {
                    Ok(image) => image,
                    Err(error) => return Err(error),
                };
                Ok(ConstructionFact::Started { entity, bound })
            },
            ConstructionFact::Completed { entity, bound } => {
                let entity = match fe(&entity) {
                    Ok(image) => image,
                    Err(error) => return Err(error),
                };
                Ok(ConstructionFact::Completed { entity, bound })
            },
            ConstructionFact::Location { entity, location } => {
                let entity = match fe(&entity) {
                    Ok(image) => image,
                    Err(error) => return Err(error),
                };
                Ok(ConstructionFact::Location { entity, location })
            },
        }
    }
}

/// A fact about how an entity came to its end.
#[derive(Debug, Clone, PartialEq, Eq)]
pub enum DemolitionFact<EntId: TotalOrder> {
    /// Demolition began.
    Started {
        /// The entity.
        entity: EntId,
        /// When.
        bound: UncertainDate,
    },
    /// Demolition was over.
    Completed {
        /// The entity.
        entity: EntId,
        /// When.
        bound: UncertainDate,
    },
}

impl<EntId: TotalOrder> DemolitionFact<EntId> {
    /// The one entity the fact is about.
    pub open spec fn about(self) -> EntId {
        match self {
            DemolitionFact::Started { entity, .. } => entity,
            DemolitionFact::Completed { entity, .. } => entity,
        }
    }

    /// The one entity the fact is about.
    pub fn subject(&self) -> (r: &EntId)
        ensures
            *r == self.about(),
    {
        match self {
            DemolitionFact::Started { entity, .. } => entity,
            DemolitionFact::Completed { entity, .. } => entity,
        }
    }

    /// The entities mentioned, in order.
    pub open spec fn entities(self) -> Seq<EntId> {
        match self {
            DemolitionFact::Started { entity, .. } => seq![entity],
            DemolitionFact::Completed { entity, .. } => seq![entity],
        }
    }

    /// Hand over every id mentioned, in order.
    pub fn for_each_id(&self, entities: &mut Vec<EntId>) where EntId: Copy
        ensures
            final(entities)@ == old(entities)@ + self.entities(),
    {
        match self {
            DemolitionFact::Started { entity, .. } => entities.push(*entity),
            DemolitionFact::Completed { entity, .. } => entities.push(*entity),
        }
        assert(entities@ =~= old(entities)@ + self.entities());
    }

    /// Whether `out` says the same of the images of the ids.
    pub open spec fn maps_by<
        E2: TotalOrder,
    >(self, out: DemolitionFact<E2>, e: spec_fn(EntId, E2) -> bool) -> bool {
        match (self, out) {
            (
                DemolitionFact::Started { entity, bound },
                DemolitionFact::Started { entity: entity2, bound: bound2 },
            ) => {
                &&& e(entity, entity2)
                &&& bound == bound2
            },
            (
                DemolitionFact::Completed { entity, bound },
                DemolitionFact::Completed { entity: entity2, bound: bound2 },
            ) => {
                &&& e(entity, entity2)
                &&& bound == bound2
            },
            _ => false,
        }
    }

    /// Whether mapping the ids fails with `error`.
    pub open spec fn fails_by<
        E2: TotalOrder,
        Fault,
        FE: Fn(&EntId) -> Result<E2, Fault>,
    >(self, fe: FE, error: Fault) -> bool {
        match self {
            DemolitionFact::Started { entity, .. } => call_ensures(
                fe,
                (&entity,),
                Err::<E2, Fault>(error),
            ),
            DemolitionFact::Completed { entity, .. } => call_ensures(
                fe,
                (&entity,),
                Err::<E2, Fault>(error),
            ),
        }
    }

    /// Replace every id by its image; the first failure is the error.
    pub fn try_map_ids<
        E2: TotalOrder,
        Fault,
        FE: Fn(&EntId) -> Result<E2, Fault>,
    >(self, fe: &FE) -> (r: Result<DemolitionFact<E2>, Fault>)
        requires
            forall|x: EntId| call_requires(*fe, (&x,)),
        ensures
            r is Ok ==> self.maps_by(
                r->Ok_0,
                |x: EntId, y: E2| call_ensures(*fe, (&x,), Ok::<E2, Fault>(y)),
            ),
            r is Err ==> self.fails_by(*fe, r->Err_0),
    {
        match self {
            DemolitionFact::Started { entity, bound } => {
                let entity = match fe(&entity) {
                    Ok(image) => image,
                    Err(error) => return Err(error),
                };
                Ok(DemolitionFact::Started { entity, bound })
            },
            DemolitionFact::Completed { entity, bound } => {
                let entity = match fe(&entity) {
                    Ok(image) => image,
                    Err(error) => return Err(error),
                };
                Ok(DemolitionFact::Completed { entity, bound })
            },
        }
    }
}

impl<EntId: TotalOrder> ConstructionFact<EntId> {
    /// Mapping the ids keeps the kind of a fact and all it says: each kind comes to the
    /// same kind, every id to its image in the same place, and the rest stays.
    pub proof fn law_mapping_keeps_what_is_said<E2: TotalOrder>(
        self,
        out: ConstructionFact<E2>,
        e: spec_fn(EntId, E2) -> bool,
    )
        requires
            self.maps_by(out, e),
        ensures
            (self matches ConstructionFact::Started { entity, bound } ==> {
                &&& out matches ConstructionFact::Started { entity: entity2, bound: bound2 }
                &&& e(entity, entity2)
                &&& bound == bound2
            }),
            (self matches ConstructionFact::Completed { entity, bound } ==> {
                &&& out matches ConstructionFact::Completed { entity: entity2, bound: bound2 }
                &&& e(entity, entity2)
                &&& bound == bound2
            }),
            (self matches ConstructionFact::Location { entity, location } ==> {
                &&& out matches ConstructionFact::Location { entity: entity2, location: location2 }
                &&& e(entity, entity2)
                &&& location == location2
            }),
            out is Started ==> self is Started,
            out is Completed ==> self is Completed,
            out is Location ==> self is Location,
    {
    }

    /// Mapping every id to itself changes nothing.
    pub proof fn law_mapping_to_itself(self, out: ConstructionFact<EntId>)
        requires
            self.maps_by(out, itself::<EntId>()),
        ensures
            out == self,
    {
    }

    /// Mapping the ids there and back gives the fact again, where the way back undoes the
    /// way there.
    pub proof fn law_mapping_there_and_back<E2: TotalOrder>(
        self,
        out: ConstructionFact<E2>,
        back: ConstructionFact<EntId>,
        e: spec_fn(EntId, E2) -> bool,
        e_back: spec_fn(E2, EntId) -> bool,
    )
        requires
            self.maps_by(out, e),
            out.maps_by(back, e_back),
            undoes(e, e_back),
        ensures
            back == self,
    {
    }

    /// Mapping the ids fails only with the error of an id that is mentioned.
    pub proof fn law_failure_is_of_a_mentioned_id<
        E2: TotalOrder,
        Fault,
        FE: Fn(&EntId) -> Result<E2, Fault>,
    >(
        self,
        fe: FE,
        error: Fault,
    )
        requires
            self.fails_by(fe, error),
        ensures
            (exists|k: int|
                0 <= k < self.entities().len() && #[trigger] call_ensures(
                    fe,
                    (&self.entities()[k],),
                    Err::<E2, Fault>(error),
                )),
    {
        match self {
            ConstructionFact::Started { entity, .. } => {
                assert(self.entities()[0] == entity);
                assert(call_ensures(fe, (&entity,), Err::<E2, Fault>(error)) ==> call_ensures(
                    fe,
                    (&self.entities()[0],),
                    Err::<E2, Fault>(error),
                ));
            },
            ConstructionFact::Completed { entity, .. } => {
                assert(self.entities()[0] == entity);
                assert(call_ensures(fe, (&entity,), Err::<E2, Fault>(error)) ==> call_ensures(
                    fe,
                    (&self.entities()[0],),
                    Err::<E2, Fault>(error),
                ));
            },
            ConstructionFact::Location { entity, .. } => {
                assert(self.entities()[0] == entity);
                assert(call_ensures(fe, (&entity,), Err::<E2, Fault>(error)) ==> call_ensures(
                    fe,
                    (&self.entities()[0],),
                    Err::<E2, Fault>(error),
                ));
            },
        }
    }

    /// Which ids a fact mentions, by its kind and in their order.
    pub proof fn law_mentions_by_kind(self)
        ensures
            (self matches ConstructionFact::Started { entity, .. } ==> {
                &&& self.entities() == seq![entity]
            }),
            (self matches ConstructionFact::Completed { entity, .. } ==> {
                &&& self.entities() == seq![entity]
            }),
            (self matches ConstructionFact::Location { entity, .. } ==> {
                &&& self.entities() == seq![entity]
            }),
    {
    }

    /// Only the ids that a fact mentions matter to it, and it mentions every id that
    /// does: two ways to map them that agree on those give the same.
    pub proof fn law_only_mentioned_ids_matter<E2: TotalOrder>(
        self,
        out: ConstructionFact<E2>,
        e: spec_fn(EntId, E2) -> bool,
        other_e: spec_fn(EntId, E2) -> bool,
    )
        requires
            agree(self.entities(), e, other_e),
        ensures
            self.maps_by(out, e) <==> self.maps_by(out, other_e),
    {
        match self {
            ConstructionFact::Started { entity, .. } => {
                assert(self.entities()[0] == entity);
            },
            ConstructionFact::Completed { entity, .. } => {
                assert(self.entities()[0] == entity);
            },
            ConstructionFact::Location { entity, .. } => {
                assert(self.entities()[0] == entity);
            },
        }
    }
}

impl<EntId: TotalOrder> DemolitionFact<EntId> {
    /// Mapping the ids keeps the kind of a fact and all it says: each kind comes to the
    /// same kind, every id to its image in the same place, and the rest stays.
    pub proof fn law_mapping_keeps_what_is_said<E2: TotalOrder>(
        self,
        out: DemolitionFact<E2>,
        e: spec_fn(EntId, E2) -> bool,
    )
        requires
            self.maps_by(out, e),
        ensures
            (self matches DemolitionFact::Started { entity, bound } ==> {
                &&& out matches DemolitionFact::Started { entity: entity2, bound: bound2 }
                &&& e(entity, entity2)
                &&& bound == bound2
            }),
            (self matches DemolitionFact::Completed { entity, bound } ==> {
                &&& out matches DemolitionFact::Completed { entity: entity2, bound: bound2 }
                &&& e(entity, entity2)
                &&& bound == bound2
            }),
            out is Started ==> self is Started,
            out is Completed ==> self is Completed,
    {
    }

    /// Mapping every id to itself changes nothing.
    pub proof fn law_mapping_to_itself(self, out: DemolitionFact<EntId>)
        requires
            self.maps_by(out, itself::<EntId>()),
        ensures
            out == self,
    {
    }

    /// Mapping the ids there and back gives the fact again, where the way back undoes the
    /// way there.
    pub proof fn law_mapping_there_and_back<E2: TotalOrder>(
        self,
        out: DemolitionFact<E2>,
        back: DemolitionFact<EntId>,
        e: spec_fn(EntId, E2) -> bool,
        e_back: spec_fn(E2, EntId) -> bool,
    )
        requires
            self.maps_by(out, e),
            out.maps_by(back, e_back),
            undoes(e, e_back),
        ensures
            back == self,
    {
    }

    /// Mapping the ids fails only with the error of an id that is mentioned.
    pub proof fn law_failure_is_of_a_mentioned_id<
        E2: TotalOrder,
        Fault,
        FE: Fn(&EntId) -> Result<E2, Fault>,
    >(
        self,
        fe: FE,
        error: Fault,
    )
        requires
            self.fails_by(fe, error),
        ensures
            (exists|k: int|
                0 <= k < self.entities().len() && #[trigger] call_ensures(
                    fe,
                    (&self.entities()[k],),
                    Err::<E2, Fault>(error),
                )),
    {
        match self {
            DemolitionFact::Started { entity, .. } => {
                assert(self.entities()[0] == entity);
                assert(call_ensures(fe, (&entity,), Err::<E2, Fault>(error)) ==> call_ensures(
                    fe,
                    (&self.entities()[0],),
                    Err::<E2, Fault>(error),
                ));
            },
            DemolitionFact::Completed { entity, .. } => {
                assert(self.entities()[0] == entity);
                assert(call_ensures(fe, (&entity,), Err::<E2, Fault>(error)) ==> call_ensures(
                    fe,
                    (&self.entities()[0],),
                    Err::<E2, Fault>(error),
                ));
            },
        }
    }

    /// Which ids a fact mentions, by its kind and in their order.
    pub proof fn law_mentions_by_kind(self)
        ensures
            (self matches DemolitionFact::Started { entity, .. } ==> {
                &&& self.entities() == seq![entity]
            }),
            (self matches DemolitionFact::Completed { entity, .. } ==> {
                &&& self.entities() == seq![entity]
            }),
    {
    }

    /// Only the ids that a fact mentions matter to it, and it mentions every id that
    /// does: two ways to map them that agree on those give the same.
    pub proof fn law_only_mentioned_ids_matter<E2: TotalOrder>(
        self,
        out: DemolitionFact<E2>,
        e: spec_fn(EntId, E2) -> bool,
        other_e: spec_fn(EntId, E2) -> bool,
    )
        requires
            agree(self.entities(), e, other_e),
        ensures
            self.maps_by(out, e) <==> self.maps_by(out, other_e),
    {
        match self {
            DemolitionFact::Started { entity, .. } => {
                assert(self.entities()[0] == entity);
            },
            DemolitionFact::Completed { entity, .. } => {
                assert(self.entities()[0] == entity);
            },
        }
    }
}

} // verus!
