//! Topological relations between entities, as seen in images.
use vstd::prelude::*;

use crate::algebra::ordered::TotalOrder;
use crate::facts::identity::{agree, itself, undoes};

verus! {

/// How one entity stands to another in space.
#[derive(Debug, Clone, PartialEq, Eq)]
pub enum TopologicalRel<EntId: TotalOrder> {
    /// The first entity is part of the second.
    PartOf,
    /// The first entity surrounds the second.
    Surrounds,
    /// A third entity lies between the two.
    SeparatedBy {
        /// The entity between them.
        separator: EntId,
    },
    /// The two stand along a third entity.
    AlignedAlong {
        /// The entity they stand along.
        axis: EntId,
    },
}

impl<EntId: TotalOrder> TopologicalRel<EntId> {
    /// The entities mentioned, in order.
    pub open spec fn entities(self) -> Seq<EntId> {
        match self {
            TopologicalRel::PartOf => Seq::empty(),
            TopologicalRel::Surrounds => Seq::empty(),
            TopologicalRel::SeparatedBy { separator } => seq![separator],
            TopologicalRel::AlignedAlong { axis } => seq![axis],
        }
    }

    /// Hand over every id mentioned, in order.
    pub fn for_each_id(&self, entities: &mut Vec<EntId>) where EntId: Copy
        ensures
            final(entities)@ == old(entities)@ + self.entities(),
    {
        match self {
            TopologicalRel::PartOf => {},
            TopologicalRel::Surrounds => {},
            TopologicalRel::SeparatedBy { separator } => entities.push(*separator),
            TopologicalRel::AlignedAlong { axis } => entities.push(*axis),
        }
        assert(entities@ =~= old(entities)@ + self.entities());
    }

    /// Whether `out` says the same of the images of the ids.
    pub open spec fn maps_by<
        E2: TotalOrder,
    >(self, out: TopologicalRel<E2>, e: spec_fn(EntId, E2) -> bool) -> bool {
        match (self, out) {
            (TopologicalRel::PartOf, TopologicalRel::PartOf) => true,
            (TopologicalRel::Surrounds, TopologicalRel::Surrounds) => true,
            (
                TopologicalRel::SeparatedBy { separator },
                TopologicalRel::SeparatedBy { separator: separator2 },
            ) => {
                &&& e(separator, separator2)
            },
            (
                TopologicalRel::AlignedAlong { axis },
                TopologicalRel::AlignedAlong { axis: axis2 },
            ) => {
                &&& e(axis, axis2)
            },
            _ => false,
        }
    }

    /// Whether mapping the ids fails with `error`.
    pub open spec fn fails_by<
        E2: TotalOrder,
        Fault,
        FE: Fn(&EntId) -> Result<E2, Fault>,
    >(self, fe: FE, error: Fault) -> bool {
        match self {
            TopologicalRel::PartOf => false,
            TopologicalRel::Surrounds => false,
            TopologicalRel::SeparatedBy { separator } => call_ensures(
                fe,
                (&separator,),
                Err::<E2, Fault>(error),
            ),
            TopologicalRel::AlignedAlong { axis } => call_ensures(
                fe,
                (&axis,),
                Err::<E2, Fault>(error),
            ),
        }
    }

    /// Replace every id by its image; the first failure is the error.
    pub fn try_map_ids<
        E2: TotalOrder,
        Fault,
        FE: Fn(&EntId) -> Result<E2, Fault>,
    >(self, fe: &FE) -> (r: Result<TopologicalRel<E2>, Fault>)
        requires
            forall|x: EntId| call_requires(*fe, (&x,)),
        ensures
            r is Ok ==> self.maps_by(
                r->Ok_0,
                |x: EntId, y: E2| call_ensures(*fe, (&x,), Ok::<E2, Fault>(y)),
            ),
            r is Err ==> self.fails_by(*fe, r->Err_0),
    {
        match self {
            TopologicalRel::PartOf => Ok(TopologicalRel::PartOf),
            TopologicalRel::Surrounds => Ok(TopologicalRel::Surrounds),
            TopologicalRel::SeparatedBy { separator } => {
                let separator = match fe(&separator) {
                    Ok(image) => image,
                    Err(error) => return Err(error),
                };
                Ok(TopologicalRel::SeparatedBy { separator })
            },
            TopologicalRel::AlignedAlong { axis } => {
                let axis = match fe(&axis) {
                    Ok(image) => image,
                    Err(error) => return Err(error),
                };
                Ok(TopologicalRel::AlignedAlong { axis })
            },
        }
    }
}

impl<EntId: TotalOrder> TopologicalRel<EntId> {
    /// Mapping the ids keeps the kind of a fact and all it says: each kind comes to the
    /// same kind, every id to its image in the same place, and the rest stays.
    pub proof fn law_mapping_keeps_what_is_said<E2: TotalOrder>(
        self,
        out: TopologicalRel<E2>,
        e: spec_fn(EntId, E2) -> bool,
    )
        requires
            self.maps_by(out, e),
        ensures
            self is PartOf ==> out is PartOf,
            self is Surrounds ==> out is Surrounds,
            (self matches TopologicalRel::SeparatedBy { separator } ==> {
                &&& out matches TopologicalRel::SeparatedBy { separator: separator2 }
                &&& e(separator, separator2)
            }),
            (self matches TopologicalRel::AlignedAlong { axis } ==> {
                &&& out matches TopologicalRel::AlignedAlong { axis: axis2 }
                &&& e(axis, axis2)
            }),
            out is PartOf ==> self is PartOf,
            out is Surrounds ==> self is Surrounds,
            out is SeparatedBy ==> self is SeparatedBy,
            out is AlignedAlong ==> self is AlignedAlong,
    {
    }

    /// Mapping every id to itself changes nothing.
    pub proof fn law_mapping_to_itself(self, out: TopologicalRel<EntId>)
        requires
            self.maps_by(out, itself::<EntId>()),
        ensures
            out == self,
    {
    }

    /// Mapping the ids there and back gives the fact again, where the way back undoes the
    /// way there.
    pub proof fn law_mapping_there_and_back<E2: TotalOrder>(
        self,
        out: TopologicalRel<E2>,
        back: TopologicalRel<EntId>,
        e: spec_fn(EntId, E2) -> bool,
        e_back: spec_fn(E2, EntId) -> bool,
    )
        requires
            self.maps_by(out, e),
            out.maps_by(back, e_back),
            undoes(e, e_back),
        ensures
            back == self,
    {
    }

    /// Mapping the ids fails only with the error of an id that is mentioned.
    pub proof fn law_failure_is_of_a_mentioned_id<
        E2: TotalOrder,
        Fault,
        FE: Fn(&EntId) -> Result<E2, Fault>,
    >(
        self,
        fe: FE,
        error: Fault,
    )
        requires
            self.fails_by(fe, error),
        ensures
            (exists|k: int|
                0 <= k < self.entities().len() && #[trigger] call_ensures(
                    fe,
                    (&self.entities()[k],),
                    Err::<E2, Fault>(error),
                )),
    {
        match self {
            TopologicalRel::PartOf => {
            },
            TopologicalRel::Surrounds => {
            },
            TopologicalRel::SeparatedBy { separator } => {
                assert(self.entities()[0] == separator);
                assert(call_ensures(fe, (&separator,), Err::<E2, Fault>(error)) ==> call_ensures(
                    fe,
                    (&self.entities()[0],),
                    Err::<E2, Fault>(error),
                ));
            },
            TopologicalRel::AlignedAlong { axis } => {
                assert(self.entities()[0] == axis);
                assert(call_ensures(fe, (&axis,), Err::<E2, Fault>(error)) ==> call_ensures(
                    fe,
                    (&self.entities()[0],),
                    Err::<E2, Fault>(error),
                ));
            },
        }
    }

    /// Which ids a fact mentions, by its kind and in their order.
    pub proof fn law_mentions_by_kind(self)
        ensures
            self is PartOf ==> self.entities().len() == 0,
            self is Surrounds ==> self.entities().len() == 0,
            (self matches TopologicalRel::SeparatedBy { separator } ==> {
                &&& self.entities() == seq![separator]
            }),
            (self matches TopologicalRel::AlignedAlong { axis } ==> {
                &&& self.entities() == seq![axis]
            }),
    {
    }

    /// Only the ids that a fact mentions matter to it, and it mentions every id that
    /// does: two ways to map them that agree on those give the same.
    pub proof fn law_only_mentioned_ids_matter<E2: TotalOrder>(
        self,
        out: TopologicalRel<E2>,
        e: spec_fn(EntId, E2) -> bool,
        other_e: spec_fn(EntId, E2) -> bool,
    )
        requires
            agree(self.entities(), e, other_e),
        ensures
            self.maps_by(out, e) <==> self.maps_by(out, other_e),
    {
        match self {
            TopologicalRel::PartOf => {
            },
            TopologicalRel::Surrounds => {
            },
            TopologicalRel::SeparatedBy { separator } => {
                assert(self.entities()[0] == separator);
            },
            TopologicalRel::AlignedAlong { axis } => {
                assert(self.entities()[0] == axis);
            },
        }
    }
}

} // verus!
