//! Observation cluster: features and spatial relations seen in images.
use vstd::prelude::*;

use crate::algebra::ordered::TotalOrder;
use crate::facts::features::Feature;
use crate::facts::identity::{agree, itself, undoes, DistinctPair, SelfPairError};
use crate::facts::spatial::TopologicalRel;

verus! {

/// A fact seen in an image.
#[derive(Debug, Clone, PartialEq, Eq)]
pub enum Fact<EntId: TotalOrder> {
    /// A feature of the entity.
    Feature {
        /// The entity.
        entity: EntId,
        /// The feature.
        feature: Feature,
    },
    /// How the first entity stands to the second.
    Spatial {
        /// The two entities.
        pair: DistinctPair<EntId>,
        /// How they stand.
        relation: TopologicalRel<EntId>,
    },
}

impl<EntId: TotalOrder> Fact<EntId> {
    /// The entities mentioned, in order.
    pub open spec fn entities(self) -> Seq<EntId> {
        match self {
            Fact::Feature { entity, .. } => seq![entity],
            Fact::Spatial { pair, relation } => pair.ids() + relation.entities(),
        }
    }

    /// Hand over every id mentioned, in order.
    pub fn for_each_id(&self, entities: &mut Vec<EntId>) where EntId: Copy
        ensures
            final(entities)@ == old(entities)@ + self.entities(),
    {
        match self {
            Fact::Feature { entity, .. } => entities.push(*entity),
            Fact::Spatial { pair, relation } => {
                pair.for_each_id(entities);
                relation.for_each_id(entities);
            },
        }
        assert(entities@ =~= old(entities)@ + self.entities());
    }

    /// Whether `out` says the same of the images of the ids.
    pub open spec fn maps_by<
        E2: TotalOrder,
    >(self, out: Fact<E2>, e: spec_fn(EntId, E2) -> bool) -> bool {
        match (self, out) {
            (
                Fact::Feature { entity, feature },
                Fact::Feature { entity: entity2, feature: feature2 },
            ) => {
                &&& e(entity, entity2)
                &&& feature == feature2
            },
            (
                Fact::Spatial { pair, relation },
                Fact::Spatial { pair: pair2, relation: relation2 },
            ) => {
                &&& pair.maps_by(pair2, e)
                &&& relation.maps_by(relation2, e)
            },
            _ => false,
        }
    }

    /// Whether mapping the ids fails with `error`.
    pub open spec fn fails_by<
        E2: TotalOrder,
        Fault,
        FE: Fn(&EntId) -> Result<E2, Fault>,
        L: FnOnce(E2) -> Fault,
    >(self, fe: FE, on_self_loop: L, error: Fault) -> bool {
        match self {
            Fact::Feature { entity, .. } => call_ensures(fe, (&entity,), Err::<E2, Fault>(error)),
            Fact::Spatial { pair, relation } => {
                ||| pair.fails_by(fe, on_self_loop, error)
                ||| pair.can_map(fe) && relation.fails_by(fe, error)
            },
        }
    }

    /// Replace every id by its image; the first failure is the error.
    pub fn try_map_ids<
        E2: TotalOrder,
        Fault,
        FE: Fn(&EntId) -> Result<E2, Fault>,
        L: FnOnce(E2) -> Fault,
    >(self, fe: &FE, on_self_loop: L) -> (r: Result<Fact<E2>, Fault>)
        requires
            forall|x: EntId| call_requires(*fe, (&x,)),
            forall|y: E2| call_requires(on_self_loop, (y,)),
        ensures
            r is Ok ==> self.maps_by(
                r->Ok_0,
                |x: EntId, y: E2| call_ensures(*fe, (&x,), Ok::<E2, Fault>(y)),
            ),
            r is Err ==> self.fails_by(*fe, on_self_loop, r->Err_0),
    {
        match self {
            Fact::Feature { entity, feature } => {
                let entity = match fe(&entity) {
                    Ok(image) => image,
                    Err(error) => return Err(error),
                };
                Ok(Fact::Feature { entity, feature })
            },
            Fact::Spatial { pair, relation } => {
                let pair = match pair.try_map_ids(fe, on_self_loop) {
                    Ok(image) => image,
                    Err(error) => return Err(error),
                };
                let relation = match relation.try_map_ids(fe) {
                    Ok(image) => image,
                    Err(error) => return Err(error),
                };
                Ok(Fact::Spatial { pair, relation })
            },
        }
    }
}

impl<EntId: TotalOrder> Fact<EntId> {
    /// A spatial relation of one entity to another; none of an entity to itself.
    pub fn spatial(a: EntId, b: EntId, relation: TopologicalRel<EntId>) -> (r: Result<
        Self,
        SelfPairError<EntId>,
    >)
        ensures
            a@ == b@ ==> r == Err::<Fact<EntId>, SelfPairError<EntId>>(SelfPairError { id: a }),
            a@ != b@ ==> r is Ok && r->Ok_0 is Spatial && r->Ok_0->pair.first() == a
                && r->Ok_0->pair.second() == b && r->Ok_0->relation == relation,
    {
        match DistinctPair::new(a, b) {
            Ok(pair) => Ok(Fact::Spatial { pair, relation }),
            Err(error) => Err(error),
        }
    }
}

impl<EntId: TotalOrder> Fact<EntId> {
    /// Mapping the ids keeps the kind of a fact and all it says: each kind comes to the
    /// same kind, every id to its image in the same place, and the rest stays.
    pub proof fn law_mapping_keeps_what_is_said<E2: TotalOrder>(
        self,
        out: Fact<E2>,
        e: spec_fn(EntId, E2) -> bool,
    )
        requires
            self.maps_by(out, e),
        ensures
            (self matches Fact::Feature { entity, feature } ==> {
                &&& out matches Fact::Feature { entity: entity2, feature: feature2 }
                &&& e(entity, entity2)
                &&& feature == feature2
            }),
            (self matches Fact::Spatial { pair, relation } ==> {
                &&& out matches Fact::Spatial { pair: pair2, relation: relation2 }
                &&& e(pair.first(), pair2.first())
                &&& e(pair.second(), pair2.second())
                &&& relation.maps_by(relation2, e)
            }),
            out is Feature ==> self is Feature,
            out is Spatial ==> self is Spatial,
    {
    }

    /// Mapping every id to itself changes nothing.
    pub proof fn law_mapping_to_itself(self, out: Fact<EntId>)
        requires
            self.maps_by(out, itself::<EntId>()),
        ensures
            out == self,
    {
        match (self, out) {
            (
                Fact::Spatial { pair, relation },
                Fact::Spatial { pair: pair2, relation: relation2 },
            ) => {
                pair.lemma_same_ids(pair2);
                relation.law_mapping_to_itself(relation2);
            },
            _ => {},
        }
    }

    /// Mapping the ids there and back gives the fact again, where the way back undoes the
    /// way there.
    pub proof fn law_mapping_there_and_back<E2: TotalOrder>(
        self,
        out: Fact<E2>,
        back: Fact<EntId>,
        e: spec_fn(EntId, E2) -> bool,
        e_back: spec_fn(E2, EntId) -> bool,
    )
        requires
            self.maps_by(out, e),
            out.maps_by(back, e_back),
            undoes(e, e_back),
        ensures
            back == self,
    {
        match (self, out, back) {
            (
                Fact::Spatial { pair, relation },
                Fact::Spatial { pair: pair2, relation: relation2 },
                Fact::Spatial { pair: pair3, relation: relation3 },
            ) => {
                pair.lemma_same_ids(pair3);
                relation.law_mapping_there_and_back(relation2, relation3, e, e_back);
            },
            _ => {},
        }
    }

    /// Mapping the ids fails only with the error of an id that is mentioned, or with
    /// that of two ids which come to the same.
    pub proof fn law_failure_is_of_a_mentioned_id<
        E2: TotalOrder,
        Fault,
        FE: Fn(&EntId) -> Result<E2, Fault>,
        L: FnOnce(E2) -> Fault,
    >(
        self,
        fe: FE,
        on_self_loop: L,
        error: Fault,
    )
        requires
            self.fails_by(fe, on_self_loop, error),
        ensures
            (exists|k: int|
                0 <= k < self.entities().len() && #[trigger] call_ensures(
                    fe,
                    (&self.entities()[k],),
                    Err::<E2, Fault>(error),
                ))
                || (exists|y: E2| #[trigger] call_ensures(on_self_loop, (y,), error)),
    {
        match self {
            Fact::Feature { entity, .. } => {
                assert(self.entities()[0] == entity);
                assert(call_ensures(fe, (&entity,), Err::<E2, Fault>(error)) ==> call_ensures(
                    fe,
                    (&self.entities()[0],),
                    Err::<E2, Fault>(error),
                ));
            },
            Fact::Spatial { pair, relation } => {
                assert(self.entities()[0] == pair.first());
                assert(call_ensures(fe, (&pair.first(),), Err::<E2, Fault>(error)) ==> call_ensures(
                    fe,
                    (&self.entities()[0],),
                    Err::<E2, Fault>(error),
                ));
                assert(self.entities()[1] == pair.second());
                assert(call_ensures(fe, (&pair.second(),), Err::<E2, Fault>(error)) ==> call_ensures(
                    fe,
                    (&self.entities()[1],),
                    Err::<E2, Fault>(error),
                ));
                assert forall|k: int|
                    0 <= k < relation.entities().len() && #[trigger] call_ensures(
                        fe,
                        (&relation.entities()[k],),
                        Err::<E2, Fault>(error),
                    ) implies call_ensures(
                    fe,
                    (&self.entities()[k + 2],),
                    Err::<E2, Fault>(error),
                ) by {
                    assert(self.entities()[k + 2] == relation.entities()[k]);
                }
                if relation.fails_by(fe, error) {
                    relation.law_failure_is_of_a_mentioned_id(fe, error);
                }
            },
        }
    }

    /// Which ids a fact mentions, by its kind and in their order.
    pub proof fn law_mentions_by_kind(self)
        ensures
            (self matches Fact::Feature { entity, .. } ==> {
                &&& self.entities() == seq![entity]
            }),
            (self matches Fact::Spatial { pair, relation } ==> {
                &&& self.entities() == seq![pair.first(), pair.second()] + relation.entities()
            }),
    {
    }

    /// Only the ids that a fact mentions matter to it, and it mentions every id that
    /// does: two ways to map them that agree on those give the same.
    pub proof fn law_only_mentioned_ids_matter<E2: TotalOrder>(
        self,
        out: Fact<E2>,
        e: spec_fn(EntId, E2) -> bool,
        other_e: spec_fn(EntId, E2) -> bool,
    )
        requires
            agree(self.entities(), e, other_e),
        ensures
            self.maps_by(out, e) <==> self.maps_by(out, other_e),
    {
        match self {
            Fact::Feature { entity, .. } => {
                assert(self.entities()[0] == entity);
            },
            Fact::Spatial { pair, relation } => {
                assert(self.entities()[0] == pair.first());
                assert(self.entities()[1] == pair.second());
                assert forall|k: int| 0 <= k < relation.entities().len() implies (
                #[trigger] relation.entities()[k]) == self.entities()[k + 2] by {}
                match out {
                    Fact::Spatial { relation: relation2, .. } => {
                        relation.law_only_mentioned_ids_matter(relation2, e, other_e);
                    },
                    _ => {},
                }
            },
        }
    }
}

} // verus!
