//! Attribute cluster: names, external references and relationships of entities.
use vstd::prelude::*;

use crate::algebra::ordered::TotalOrder;
use crate::date::UncertainDate;
use crate::facts::identity::{agree, itself, undoes, DistinctPair, SelfPairError};
use crate::facts::reference::ExternalReference;
use crate::facts::web::Language;

verus! {

/// What kind of name a name is.
#[derive(Debug, Clone, Copy, PartialEq, Eq, PartialOrd, Ord, Hash, Structural)]
pub enum NameType {
    Official,
    Common,
    Historical,
    Unknown,
}

/// Type of relationship between two entities.
#[derive(Debug, Clone, Copy, PartialEq, Eq, PartialOrd, Ord, Hash, Structural)]
pub enum EntityRelationType {
    /// The first entity replaces the second.
    Replaces,
    /// The first entity contains the second.
    Contains,
    /// The first entity was formed by merging the second into it.
    MergedFrom,
    /// The first entity was split off from the second.
    SplitFrom,
}

/// A fact about an entity.
#[derive(Debug, Clone, PartialEq, Eq)]
pub enum Fact<EntId: TotalOrder> {
    /// A name of the entity.
    Name {
        /// The entity.
        entity: EntId,
        /// The name.
        name: String,
        /// Its language.
        language: Language,
        /// What kind of name it is.
        name_type: NameType,
        /// Since when it has been in use.
        valid_from: Option<UncertainDate>,
        /// Until when it was in use.
        valid_to: Option<UncertainDate>,
    },
    /// The entity in an external knowledge system.
    ExternalReference {
        /// The entity.
        entity: EntId,
        /// The reference.
        reference: ExternalReference,
    },
    /// How the first entity stands to the second.
    Relationship {
        /// The two entities.
        pair: DistinctPair<EntId>,
        /// How they stand.
        relation: EntityRelationType,
    },
}

impl<EntId: TotalOrder> Fact<EntId> {
    /// The entities mentioned, in order.
    pub open spec fn entities(self) -> Seq<EntId> {
        match self {
            Fact::Name { entity, .. } => seq![entity],
            Fact::ExternalReference { entity, .. } => seq![entity],
            Fact::Relationship { pair, .. } => pair.ids(),
        }
    }

    /// Hand over every id mentioned, in order.
    pub fn for_each_id(&self, entities: &mut Vec<EntId>) where EntId: Copy
        ensures
            final(entities)@ == old(entities)@ + self.entities(),
    {
        match self {
            Fact::Name { entity, .. } => entities.push(*entity),
            Fact::ExternalReference { entity, .. } => entities.push(*entity),
            Fact::Relationship { pair, .. } => pair.for_each_id(entities),
        }
        assert(entities@ =~= old(entities)@ + self.entities());
    }

    /// Whether `out` says the same of the images of the ids.
    pub open spec fn maps_by<
        E2: TotalOrder,
    >(self, out: Fact<E2>, e: spec_fn(EntId, E2) -> bool) -> bool {
        match (self, out) {
            (
                Fact::Name { entity, name, language, name_type, valid_from, valid_to },
                Fact::Name {
                    entity: entity2,
                    name: name2,
                    language: language2,
                    name_type: name_type2,
                    valid_from: valid_from2,
                    valid_to: valid_to2,
                },
            ) => {
                &&& e(entity, entity2)
                &&& name == name2
                &&& language == language2
                &&& name_type == name_type2
                &&& valid_from == valid_from2
                &&& valid_to == valid_to2
            },
            (
                Fact::ExternalReference { entity, reference },
                Fact::ExternalReference { entity: entity2, reference: reference2 },
            ) => {
                &&& e(entity, entity2)
                &&& reference == reference2
            },
            (
                Fact::Relationship { pair, relation },
                Fact::Relationship { pair: pair2, relation: relation2 },
            ) => {
                &&& pair.maps_by(pair2, e)
                &&& relation == relation2
            },
            _ => false,
        }
    }

    /// Whether mapping the ids fails with `error`.
    pub open spec fn fails_by<
        E2: TotalOrder,
        Fault,
        FE: Fn(&EntId) -> Result<E2, Fault>,
        L: FnOnce(E2) -> Fault,
    >(self, fe: FE, on_self_loop: L, error: Fault) -> bool {
        match self {
            Fact::Name { entity, .. } => call_ensures(fe, (&entity,), Err::<E2, Fault>(error)),
            Fact::ExternalReference { entity, .. } => call_ensures(
                fe,
                (&entity,),
                Err::<E2, Fault>(error),
            ),
            Fact::Relationship { pair, .. } => pair.fails_by(fe, on_self_loop, error),
        }
    }

    /// Replace every id by its image; the first failure is the error.
    pub fn try_map_ids<
        E2: TotalOrder,
        Fault,
        FE: Fn(&EntId) -> Result<E2, Fault>,
        L: FnOnce(E2) -> Fault,
    >(self, fe: &FE, on_self_loop: L) -> (r: Result<Fact<E2>, Fault>)
        requires
            forall|x: EntId| call_requires(*fe, (&x,)),
            forall|y: E2| call_requires(on_self_loop, (y,)),
        ensures
            r is Ok ==> self.maps_by(
                r->Ok_0,
                |x: EntId, y: E2| call_ensures(*fe, (&x,), Ok::<E2, Fault>(y)),
            ),
            r is Err ==> self.fails_by(*fe, on_self_loop, r->Err_0),
    {
        match self {
            Fact::Name { entity, name, language, name_type, valid_from, valid_to } => {
                let entity = match fe(&entity) {
                    Ok(image) => image,
                    Err(error) => return Err(error),
                };
                Ok(Fact::Name { entity, name, language, name_type, valid_from, valid_to })
            },
            Fact::ExternalReference { entity, reference } => {
                let entity = match fe(&entity) {
                    Ok(image) => image,
                    Err(error) => return Err(error),
                };
                Ok(Fact::ExternalReference { entity, reference })
            },
            Fact::Relationship { pair, relation } => {
                let pair = match pair.try_map_ids(fe, on_self_loop) {
                    Ok(image) => image,
                    Err(error) => return Err(error),
                };
                Ok(Fact::Relationship { pair, relation })
            },
        }
    }
}

impl<EntId: TotalOrder> Fact<EntId> {
    /// A relationship from one entity to another; none of an entity with itself.
    pub fn relationship(from: EntId, to: EntId, relation: EntityRelationType) -> (r: Result<
        Self,
        SelfPairError<EntId>,
    >)
        ensures
            from@ == to@ ==> r == Err::<Fact<EntId>, SelfPairError<EntId>>(
                SelfPairError { id: from },
            ),
            from@ != to@ ==> r is Ok && r->Ok_0 is Relationship && r->Ok_0->pair.first() == from
                && r->Ok_0->pair.second() == to && r->Ok_0->relation == relation,
    {
        match DistinctPair::new(from, to) {
            Ok(pair) => Ok(Fact::Relationship { pair, relation }),
            Err(error) => Err(error),
        }
    }
}

impl<EntId: TotalOrder> Fact<EntId> {
    /// Mapping the ids keeps the kind of a fact and all it says: each kind comes to the
    /// same kind, every id to its image in the same place, and the rest stays.
    pub proof fn law_mapping_keeps_what_is_said<E2: TotalOrder>(
        self,
        out: Fact<E2>,
        e: spec_fn(EntId, E2) -> bool,
    )
        requires
            self.maps_by(out, e),
        ensures
            (self matches Fact::Name { entity, name, language, name_type, valid_from, valid_to } ==> {
                &&& out matches Fact::Name {
                    entity: entity2,
                    name: name2,
                    language: language2,
                    name_type: name_type2,
                    valid_from: valid_from2,
                    valid_to: valid_to2,
                }
                &&& e(entity, entity2)
                &&& name == name2
                &&& language == language2
                &&& name_type == name_type2
                &&& valid_from == valid_from2
                &&& valid_to == valid_to2
            }),
            (self matches Fact::ExternalReference { entity, reference } ==> {
                &&& out matches Fact::ExternalReference { entity: entity2, reference: reference2 }
                &&& e(entity, entity2)
                &&& reference == reference2
            }),
            (self matches Fact::Relationship { pair, relation } ==> {
                &&& out matches Fact::Relationship { pair: pair2, relation: relation2 }
                &&& e(pair.first(), pair2.first())
                &&& e(pair.second(), pair2.second())
                &&& relation == relation2
            }),
            out is Name ==> self is Name,
            out is ExternalReference ==> self is ExternalReference,
            out is Relationship ==> self is Relationship,
    {
    }

    /// Mapping every id to itself changes nothing.
    pub proof fn law_mapping_to_itself(self, out: Fact<EntId>)
        requires
            self.maps_by(out, itself::<EntId>()),
        ensures
            out == self,
    {
        match (self, out) {
            (
                Fact::Relationship { pair, .. },
                Fact::Relationship { pair: pair2, .. },
            ) => {
                pair.lemma_same_ids(pair2);
            },
            _ => {},
        }
    }

    /// Mapping the ids there and back gives the fact again, where the way back undoes the
    /// way there.
    pub proof fn law_mapping_there_and_back<E2: TotalOrder>(
        self,
        out: Fact<E2>,
        back: Fact<EntId>,
        e: spec_fn(EntId, E2) -> bool,
        e_back: spec_fn(E2, EntId) -> bool,
    )
        requires
            self.maps_by(out, e),
            out.maps_by(back, e_back),
            undoes(e, e_back),
        ensures
            back == self,
    {
        match (self, out, back) {
            (
                Fact::Relationship { pair, .. },
                Fact::Relationship { pair: pair2, .. },
                Fact::Relationship { pair: pair3, .. },
            ) => {
                pair.lemma_same_ids(pair3);
            },
            _ => {},
        }
    }

    /// Mapping the ids fails only with the error of an id that is mentioned, or with
    /// that of two ids which come to the same.
    pub proof fn law_failure_is_of_a_mentioned_id<
        E2: TotalOrder,
        Fault,
        FE: Fn(&EntId) -> Result<E2, Fault>,
        L: FnOnce(E2) -> Fault,
    >(
        self,
        fe: FE,
        on_self_loop: L,
        error: Fault,
    )
        requires
            self.fails_by(fe, on_self_loop, error),
        ensures
            (exists|k: int|
                0 <= k < self.entities().len() && #[trigger] call_ensures(
                    fe,
                    (&self.entities()[k],),
                    Err::<E2, Fault>(error),
                ))
                || (exists|y: E2| #[trigger] call_ensures(on_self_loop, (y,), error)),
    {
        match self {
            Fact::Name { entity, .. } => {
                assert(self.entities()[0] == entity);
                assert(call_ensures(fe, (&entity,), Err::<E2, Fault>(error)) ==> call_ensures(
                    fe,
                    (&self.entities()[0],),
                    Err::<E2, Fault>(error),
                ));
            },
            Fact::ExternalReference { entity, .. } => {
                assert(self.entities()[0] == entity);
                assert(call_ensures(fe, (&entity,), Err::<E2, Fault>(error)) ==> call_ensures(
                    fe,
                    (&self.entities()[0],),
                    Err::<E2, Fault>(error),
                ));
            },
            Fact::Relationship { pair, .. } => {
                assert(self.entities()[0] == pair.first());
                assert(call_ensures(fe, (&pair.first(),), Err::<E2, Fault>(error)) ==> call_ensures(
                    fe,
                    (&self.entities()[0],),
                    Err::<E2, Fault>(error),
                ));
                assert(self.entities()[1] == pair.second());
                assert(call_ensures(fe, (&pair.second(),), Err::<E2, Fault>(error)) ==> call_ensures(
                    fe,
                    (&self.entities()[1],),
                    Err::<E2, Fault>(error),
                ));
            },
        }
    }

    /// Which ids a fact mentions, by its kind and in their order.
    pub proof fn law_mentions_by_kind(self)
        ensures
            (self matches Fact::Name { entity, .. } ==> {
                &&& self.entities() == seq![entity]
            }),
            (self matches Fact::ExternalReference { entity, .. } ==> {
                &&& self.entities() == seq![entity]
            }),
            (self matches Fact::Relationship { pair, .. } ==> {
                &&& self.entities() == seq![pair.first(), pair.second()]
            }),
    {
    }

    /// Only the ids that a fact mentions matter to it, and it mentions every id that
    /// does: two ways to map them that agree on those give the same.
    pub proof fn law_only_mentioned_ids_matter<E2: TotalOrder>(
        self,
        out: Fact<E2>,
        e: spec_fn(EntId, E2) -> bool,
        other_e: spec_fn(EntId, E2) -> bool,
    )
        requires
            agree(self.entities(), e, other_e),
        ensures
            self.maps_by(out, e) <==> self.maps_by(out, other_e),
    {
        match self {
            Fact::Name { entity, .. } => {
                assert(self.entities()[0] == entity);
            },
            Fact::ExternalReference { entity, .. } => {
                assert(self.entities()[0] == entity);
            },
            Fact::Relationship { pair, .. } => {
                assert(self.entities()[0] == pair.first());
                assert(self.entities()[1] == pair.second());
            },
        }
    }
}

} // verus!
