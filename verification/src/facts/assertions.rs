//! The three assertion sums: factual, judgment, and meta.
//!
//! - **Factual** ([`FactualAssertion`]): claims about the external world.
//! - **Judgment** ([`JudgmentAssertion`]): interpretive conclusions.
//! - **Meta** ([`MetaAssertion`]): facts about facts.
//!
//! The first two are generic over the ids they mention, so that one enum serves
//! a submission, with indices into its declarations, and the store, with its own
//! ids.
use vstd::prelude::*;

use crate::algebra::ordered::TotalOrder;
use crate::facts::identity::{agree, itself, undoes};
use crate::facts::ids::{CommitId, FactId};
use crate::facts::{
    attribute, bookend, composites, depiction, event, identity, image, observation, picture,
};

verus! {

/// A claim about the external world.
#[derive(Debug, Clone, PartialEq, Eq)]
pub enum FactualAssertion<EntId: TotalOrder, EvtId: TotalOrder, ImgId: TotalOrder> {
    /// A name, external reference or relationship.
    Attribute {
        /// The fact.
        fact: attribute::Fact<EntId>,
    },
    /// How an entity came to be.
    Construction {
        /// The fact.
        fact: bookend::ConstructionFact<EntId>,
    },
    /// How an entity came to its end.
    Demolition {
        /// The fact.
        fact: bookend::DemolitionFact<EntId>,
    },
    /// What happened in between.
    Event {
        /// The fact.
        fact: event::Fact<EntId, EvtId>,
    },
    /// Where an image came from.
    Image {
        /// The fact.
        fact: image::Fact<ImgId>,
    },
    /// An image as a picture.
    Picture {
        /// The fact.
        fact: picture::Fact<ImgId>,
    },
    /// An image as a map.
    MapSheet {
        /// The fact.
        fact: crate::facts::map::Fact<ImgId>,
    },
}

impl<EntId: TotalOrder, EvtId: TotalOrder, ImgId: TotalOrder> FactualAssertion<EntId, EvtId, ImgId> {
    /// The entities mentioned, in order.
    pub open spec fn entities(self) -> Seq<EntId> {
        match self {
            FactualAssertion::Attribute { fact } => fact.entities(),
            FactualAssertion::Construction { fact } => fact.entities(),
            FactualAssertion::Demolition { fact } => fact.entities(),
            FactualAssertion::Event { fact } => fact.entities(),
            FactualAssertion::Image { .. } => Seq::empty(),
            FactualAssertion::Picture { .. } => Seq::empty(),
            FactualAssertion::MapSheet { .. } => Seq::empty(),
        }
    }

    /// The events mentioned, in order.
    pub open spec fn events(self) -> Seq<EvtId> {
        match self {
            FactualAssertion::Attribute { .. } => Seq::empty(),
            FactualAssertion::Construction { .. } => Seq::empty(),
            FactualAssertion::Demolition { .. } => Seq::empty(),
            FactualAssertion::Event { fact } => fact.events(),
            FactualAssertion::Image { .. } => Seq::empty(),
            FactualAssertion::Picture { .. } => Seq::empty(),
            FactualAssertion::MapSheet { .. } => Seq::empty(),
        }
    }

    /// The images mentioned, in order.
    pub open spec fn images(self) -> Seq<ImgId> {
        match self {
            FactualAssertion::Attribute { .. } => Seq::empty(),
            FactualAssertion::Construction { .. } => Seq::empty(),
            FactualAssertion::Demolition { .. } => Seq::empty(),
            FactualAssertion::Event { .. } => Seq::empty(),
            FactualAssertion::Image { fact } => fact.images(),
            FactualAssertion::Picture { fact } => fact.images(),
            FactualAssertion::MapSheet { fact } => fact.images(),
        }
    }

    /// Hand over every id mentioned, in order.
    pub fn for_each_id(
        &self,
        entities: &mut Vec<EntId>,
        events: &mut Vec<EvtId>,
        images: &mut Vec<ImgId>,
    ) where EntId: Copy, EvtId: Copy, ImgId: Copy
        ensures
            final(entities)@ == old(entities)@ + self.entities(),
            final(events)@ == old(events)@ + self.events(),
            final(images)@ == old(images)@ + self.images(),
    {
        match self {
            FactualAssertion::Attribute { fact } => fact.for_each_id(entities),
            FactualAssertion::Construction { fact } => fact.for_each_id(entities),
            FactualAssertion::Demolition { fact } => fact.for_each_id(entities),
            FactualAssertion::Event { fact } => fact.for_each_id(entities, events),
            FactualAssertion::Image { fact } => fact.for_each_id(images),
            FactualAssertion::Picture { fact } => fact.for_each_id(images),
            FactualAssertion::MapSheet { fact } => fact.for_each_id(images),
        }
        assert(entities@ =~= old(entities)@ + self.entities());
        assert(events@ =~= old(events)@ + self.events());
        assert(images@ =~= old(images)@ + self.images());
    }

    /// Whether `out` says the same of the images of the ids.
    pub open spec fn maps_by<
        E2: TotalOrder,
        V2: TotalOrder,
        I2: TotalOrder,
    >(
        self,
        out: FactualAssertion<E2, V2, I2>,
        e: spec_fn(EntId, E2) -> bool,
        v: spec_fn(EvtId, V2) -> bool,
        i: spec_fn(ImgId, I2) -> bool,
    ) -> bool {
        match (self, out) {
            (FactualAssertion::Attribute { fact }, FactualAssertion::Attribute { fact: fact2 }) => {
                &&& fact.maps_by(fact2, e)
            },
            (
                FactualAssertion::Construction { fact },
                FactualAssertion::Construction { fact: fact2 },
            ) => {
                &&& fact.maps_by(fact2, e)
            },
            (
                FactualAssertion::Demolition { fact },
                FactualAssertion::Demolition { fact: fact2 },
            ) => {
                &&& fact.maps_by(fact2, e)
            },
            (FactualAssertion::Event { fact }, FactualAssertion::Event { fact: fact2 }) => {
                &&& fact.maps_by(fact2, e, v)
            },
            (FactualAssertion::Image { fact }, FactualAssertion::Image { fact: fact2 }) => {
                &&& fact.maps_by(fact2, i)
            },
            (FactualAssertion::Picture { fact }, FactualAssertion::Picture { fact: fact2 }) => {
                &&& fact.maps_by(fact2, i)
            },
            (FactualAssertion::MapSheet { fact }, FactualAssertion::MapSheet { fact: fact2 }) => {
                &&& fact.maps_by(fact2, i)
            },
            _ => false,
        }
    }
}

/// An interpretive conclusion.
#[derive(Debug, Clone, PartialEq)]
pub enum JudgmentAssertion<EntId: TotalOrder, EvtId: TotalOrder, ImgId: TotalOrder> {
    /// Two ids stand for one thing.
    Identity {
        /// The fact.
        fact: identity::Fact<EntId, EvtId, ImgId>,
    },
    /// An image shows an entity.
    Depiction {
        /// The fact.
        fact: depiction::Fact<EntId, ImgId>,
    },
    /// What an image shows of an entity.
    Observation {
        /// The fact.
        fact: observation::Fact<EntId>,
    },
    /// An image is a part of another.
    Composite {
        /// The fact.
        fact: composites::Fact<ImgId>,
    },
}

impl<EntId: TotalOrder, EvtId: TotalOrder, ImgId: TotalOrder> JudgmentAssertion<EntId, EvtId, ImgId> {
    /// The entities mentioned, in order.
    pub open spec fn entities(self) -> Seq<EntId> {
        match self {
            JudgmentAssertion::Identity { fact } => fact.entities(),
            JudgmentAssertion::Depiction { fact } => fact.entities(),
            JudgmentAssertion::Observation { fact } => fact.entities(),
            JudgmentAssertion::Composite { .. } => Seq::empty(),
        }
    }

    /// The events mentioned, in order.
    pub open spec fn events(self) -> Seq<EvtId> {
        match self {
            JudgmentAssertion::Identity { fact } => fact.events(),
            JudgmentAssertion::Depiction { .. } => Seq::empty(),
            JudgmentAssertion::Observation { .. } => Seq::empty(),
            JudgmentAssertion::Composite { .. } => Seq::empty(),
        }
    }

    /// The images mentioned, in order.
    pub open spec fn images(self) -> Seq<ImgId> {
        match self {
            JudgmentAssertion::Identity { fact } => fact.images(),
            JudgmentAssertion::Depiction { fact } => fact.images(),
            JudgmentAssertion::Observation { .. } => Seq::empty(),
            JudgmentAssertion::Composite { fact } => fact.images(),
        }
    }

    /// Hand over every id mentioned, in order.
    pub fn for_each_id(
        &self,
        entities: &mut Vec<EntId>,
        events: &mut Vec<EvtId>,
        images: &mut Vec<ImgId>,
    ) where EntId: Copy, EvtId: Copy, ImgId: Copy
        ensures
            final(entities)@ == old(entities)@ + self.entities(),
            final(events)@ == old(events)@ + self.events(),
            final(images)@ == old(images)@ + self.images(),
    {
        match self {
            JudgmentAssertion::Identity { fact } => fact.for_each_id(entities, events, images),
            JudgmentAssertion::Depiction { fact } => fact.for_each_id(entities, images),
            JudgmentAssertion::Observation { fact } => fact.for_each_id(entities),
            JudgmentAssertion::Composite { fact } => fact.for_each_id(images),
        }
        assert(entities@ =~= old(entities)@ + self.entities());
        assert(events@ =~= old(events)@ + self.events());
        assert(images@ =~= old(images)@ + self.images());
    }

    /// Whether `out` says the same of the images of the ids.
    pub open spec fn maps_by<
        E2: TotalOrder,
        V2: TotalOrder,
        I2: TotalOrder,
    >(
        self,
        out: JudgmentAssertion<E2, V2, I2>,
        e: spec_fn(EntId, E2) -> bool,
        v: spec_fn(EvtId, V2) -> bool,
        i: spec_fn(ImgId, I2) -> bool,
    ) -> bool {
        match (self, out) {
            (JudgmentAssertion::Identity { fact }, JudgmentAssertion::Identity { fact: fact2 }) => {
                &&& fact.maps_by(fact2, e, v, i)
            },
            (
                JudgmentAssertion::Depiction { fact },
                JudgmentAssertion::Depiction { fact: fact2 },
            ) => {
                &&& fact.maps_by(fact2, e, i)
            },
            (
                JudgmentAssertion::Observation { fact },
                JudgmentAssertion::Observation { fact: fact2 },
            ) => {
                &&& fact.maps_by(fact2, e)
            },
            (
                JudgmentAssertion::Composite { fact },
                JudgmentAssertion::Composite { fact: fact2 },
            ) => {
                &&& fact.maps_by(fact2, i)
            },
            _ => false,
        }
    }
}

/// A fact about facts.
#[derive(Debug, Clone, PartialEq, Eq)]
pub enum MetaAssertion {
    /// A fact no longer holds.
    RetractFact {
        /// The fact.
        target: FactId,
        /// Why.
        reason: RetractionReason,
    },
    /// No fact of a commit holds any longer.
    RetractCommit {
        /// The commit.
        target: CommitId,
        /// Why.
        reason: RetractionReason,
    },
    /// A fact gives way to another.
    SupersedeFact {
        /// The fact.
        target: FactId,
        /// The other.
        replacement: FactId,
        /// Why.
        reason: RetractionReason,
    },
}

/// Why a fact was taken back.
#[derive(Debug, Clone, Copy, PartialEq, Eq, PartialOrd, Ord, Hash, Structural)]
pub enum RetractionReason {
    Vandalism,
    FactualError,
    ModeratorAction,
}

impl<EntId: TotalOrder, EvtId: TotalOrder, ImgId: TotalOrder> FactualAssertion<EntId, EvtId, ImgId> {
    /// Mapping the ids keeps the kind of an assertion, and what the fact in it says.
    pub proof fn law_mapping_keeps_what_is_said<E2: TotalOrder, V2: TotalOrder, I2: TotalOrder>(
        self,
        out: FactualAssertion<E2, V2, I2>,
        e: spec_fn(EntId, E2) -> bool,
        v: spec_fn(EvtId, V2) -> bool,
        i: spec_fn(ImgId, I2) -> bool,
    )
        requires
            self.maps_by(out, e, v, i),
        ensures
            (self matches FactualAssertion::Attribute { fact } ==> {
                &&& out matches FactualAssertion::Attribute { fact: fact2 }
                &&& fact.maps_by(fact2, e)
            }),
            (self matches FactualAssertion::Construction { fact } ==> {
                &&& out matches FactualAssertion::Construction { fact: fact2 }
                &&& fact.maps_by(fact2, e)
            }),
            (self matches FactualAssertion::Demolition { fact } ==> {
                &&& out matches FactualAssertion::Demolition { fact: fact2 }
                &&& fact.maps_by(fact2, e)
            }),
            (self matches FactualAssertion::Event { fact } ==> {
                &&& out matches FactualAssertion::Event { fact: fact2 }
                &&& fact.maps_by(fact2, e, v)
            }),
            (self matches FactualAssertion::Image { fact } ==> {
                &&& out matches FactualAssertion::Image { fact: fact2 }
                &&& fact.maps_by(fact2, i)
            }),
            (self matches FactualAssertion::Picture { fact } ==> {
                &&& out matches FactualAssertion::Picture { fact: fact2 }
                &&& fact.maps_by(fact2, i)
            }),
            (self matches FactualAssertion::MapSheet { fact } ==> {
                &&& out matches FactualAssertion::MapSheet { fact: fact2 }
                &&& fact.maps_by(fact2, i)
            }),
            out is Attribute ==> self is Attribute,
            out is Construction ==> self is Construction,
            out is Demolition ==> self is Demolition,
            out is Event ==> self is Event,
            out is Image ==> self is Image,
            out is Picture ==> self is Picture,
            out is MapSheet ==> self is MapSheet,
    {
    }

    /// Mapping every id to itself changes nothing.
    pub proof fn law_mapping_to_itself(self, out: FactualAssertion<EntId, EvtId, ImgId>)
        requires
            self.maps_by(out, itself::<EntId>(), itself::<EvtId>(), itself::<ImgId>()),
        ensures
            out == self,
    {
        match (self, out) {
            (FactualAssertion::Attribute { fact }, FactualAssertion::Attribute { fact: fact2 }) => {
                fact.law_mapping_to_itself(fact2);
            },
            (
                FactualAssertion::Construction { fact },
                FactualAssertion::Construction { fact: fact2 },
            ) => {
                fact.law_mapping_to_itself(fact2);
            },
            (
                FactualAssertion::Demolition { fact },
                FactualAssertion::Demolition { fact: fact2 },
            ) => {
                fact.law_mapping_to_itself(fact2);
            },
            (FactualAssertion::Event { fact }, FactualAssertion::Event { fact: fact2 }) => {
                fact.law_mapping_to_itself(fact2);
            },
            (FactualAssertion::Image { fact }, FactualAssertion::Image { fact: fact2 }) => {
                fact.law_mapping_to_itself(fact2);
            },
            (FactualAssertion::Picture { fact }, FactualAssertion::Picture { fact: fact2 }) => {
                fact.law_mapping_to_itself(fact2);
            },
            (FactualAssertion::MapSheet { fact }, FactualAssertion::MapSheet { fact: fact2 }) => {
                fact.law_mapping_to_itself(fact2);
            },
            _ => {},
        }
    }

    /// Mapping the ids there and back gives the assertion again, where the way back undoes the
    /// way there.
    pub proof fn law_mapping_there_and_back<E2: TotalOrder, V2: TotalOrder, I2: TotalOrder>(
        self,
        out: FactualAssertion<E2, V2, I2>,
        back: FactualAssertion<EntId, EvtId, ImgId>,
        e: spec_fn(EntId, E2) -> bool,
        e_back: spec_fn(E2, EntId) -> bool,
        v: spec_fn(EvtId, V2) -> bool,
        v_back: spec_fn(V2, EvtId) -> bool,
        i: spec_fn(ImgId, I2) -> bool,
        i_back: spec_fn(I2, ImgId) -> bool,
    )
        requires
            self.maps_by(out, e, v, i),
            out.maps_by(back, e_back, v_back, i_back),
            undoes(e, e_back),
            undoes(v, v_back),
            undoes(i, i_back),
        ensures
            back == self,
    {
        match (self, out, back) {
            (
                FactualAssertion::Attribute { fact },
                FactualAssertion::Attribute { fact: fact2 },
                FactualAssertion::Attribute { fact: fact3 },
            ) => {
                fact.law_mapping_there_and_back(fact2, fact3, e, e_back);
            },
            (
                FactualAssertion::Construction { fact },
                FactualAssertion::Construction { fact: fact2 },
                FactualAssertion::Construction { fact: fact3 },
            ) => {
                fact.law_mapping_there_and_back(fact2, fact3, e, e_back);
            },
            (
                FactualAssertion::Demolition { fact },
                FactualAssertion::Demolition { fact: fact2 },
                FactualAssertion::Demolition { fact: fact3 },
            ) => {
                fact.law_mapping_there_and_back(fact2, fact3, e, e_back);
            },
            (
                FactualAssertion::Event { fact },
                FactualAssertion::Event { fact: fact2 },
                FactualAssertion::Event { fact: fact3 },
            ) => {
                fact.law_mapping_there_and_back(fact2, fact3, e, e_back, v, v_back);
            },
            (
                FactualAssertion::Image { fact },
                FactualAssertion::Image { fact: fact2 },
                FactualAssertion::Image { fact: fact3 },
            ) => {
                fact.law_mapping_there_and_back(fact2, fact3, i, i_back);
            },
            (
                FactualAssertion::Picture { fact },
                FactualAssertion::Picture { fact: fact2 },
                FactualAssertion::Picture { fact: fact3 },
            ) => {
                fact.law_mapping_there_and_back(fact2, fact3, i, i_back);
            },
            (
                FactualAssertion::MapSheet { fact },
                FactualAssertion::MapSheet { fact: fact2 },
                FactualAssertion::MapSheet { fact: fact3 },
            ) => {
                fact.law_mapping_there_and_back(fact2, fact3, i, i_back);
            },
            _ => {},
        }
    }

    /// Only the ids that an assertion mentions matter to it, and it mentions every id
    /// that does.
    pub proof fn law_only_mentioned_ids_matter<E2: TotalOrder, V2: TotalOrder, I2: TotalOrder>(
        self,
        out: FactualAssertion<E2, V2, I2>,
        e: spec_fn(EntId, E2) -> bool,
        other_e: spec_fn(EntId, E2) -> bool,
        v: spec_fn(EvtId, V2) -> bool,
        other_v: spec_fn(EvtId, V2) -> bool,
        i: spec_fn(ImgId, I2) -> bool,
        other_i: spec_fn(ImgId, I2) -> bool,
    )
        requires
            agree(self.entities(), e, other_e),
            agree(self.events(), v, other_v),
            agree(self.images(), i, other_i),
        ensures
            self.maps_by(out, e, v, i) <==> self.maps_by(out, other_e, other_v, other_i),
    {
        match (self, out) {
            (FactualAssertion::Attribute { fact }, FactualAssertion::Attribute { fact: fact2 }) => {
                fact.law_only_mentioned_ids_matter(fact2, e, other_e);
            },
            (
                FactualAssertion::Construction { fact },
                FactualAssertion::Construction { fact: fact2 },
            ) => {
                fact.law_only_mentioned_ids_matter(fact2, e, other_e);
            },
            (
                FactualAssertion::Demolition { fact },
                FactualAssertion::Demolition { fact: fact2 },
            ) => {
                fact.law_only_mentioned_ids_matter(fact2, e, other_e);
            },
            (FactualAssertion::Event { fact }, FactualAssertion::Event { fact: fact2 }) => {
                fact.law_only_mentioned_ids_matter(fact2, e, other_e, v, other_v);
            },
            (FactualAssertion::Image { fact }, FactualAssertion::Image { fact: fact2 }) => {
                fact.law_only_mentioned_ids_matter(fact2, i, other_i);
            },
            (FactualAssertion::Picture { fact }, FactualAssertion::Picture { fact: fact2 }) => {
                fact.law_only_mentioned_ids_matter(fact2, i, other_i);
            },
            (FactualAssertion::MapSheet { fact }, FactualAssertion::MapSheet { fact: fact2 }) => {
                fact.law_only_mentioned_ids_matter(fact2, i, other_i);
            },
            _ => {},
        }
    }
}

impl<EntId: TotalOrder, EvtId: TotalOrder, ImgId: TotalOrder> JudgmentAssertion<EntId, EvtId, ImgId> {
    /// Mapping the ids keeps the kind of an assertion, and what the fact in it says.
    pub proof fn law_mapping_keeps_what_is_said<E2: TotalOrder, V2: TotalOrder, I2: TotalOrder>(
        self,
        out: JudgmentAssertion<E2, V2, I2>,
        e: spec_fn(EntId, E2) -> bool,
        v: spec_fn(EvtId, V2) -> bool,
        i: spec_fn(ImgId, I2) -> bool,
    )
        requires
            self.maps_by(out, e, v, i),
        ensures
            (self matches JudgmentAssertion::Identity { fact } ==> {
                &&& out matches JudgmentAssertion::Identity { fact: fact2 }
                &&& fact.maps_by(fact2, e, v, i)
            }),
            (self matches JudgmentAssertion::Depiction { fact } ==> {
                &&& out matches JudgmentAssertion::Depiction { fact: fact2 }
                &&& fact.maps_by(fact2, e, i)
            }),
            (self matches JudgmentAssertion::Observation { fact } ==> {
                &&& out matches JudgmentAssertion::Observation { fact: fact2 }
                &&& fact.maps_by(fact2, e)
            }),
            (self matches JudgmentAssertion::Composite { fact } ==> {
                &&& out matches JudgmentAssertion::Composite { fact: fact2 }
                &&& fact.maps_by(fact2, i)
            }),
            out is Identity ==> self is Identity,
            out is Depiction ==> self is Depiction,
            out is Observation ==> self is Observation,
            out is Composite ==> self is Composite,
    {
    }

    /// Mapping every id to itself changes nothing.
    pub proof fn law_mapping_to_itself(self, out: JudgmentAssertion<EntId, EvtId, ImgId>)
        requires
            self.maps_by(out, itself::<EntId>(), itself::<EvtId>(), itself::<ImgId>()),
        ensures
            out == self,
    {
        match (self, out) {
            (JudgmentAssertion::Identity { fact }, JudgmentAssertion::Identity { fact: fact2 }) => {
                fact.law_mapping_to_itself(fact2);
            },
            (
                JudgmentAssertion::Depiction { fact },
                JudgmentAssertion::Depiction { fact: fact2 },
            ) => {
                fact.law_mapping_to_itself(fact2);
            },
            (
                JudgmentAssertion::Observation { fact },
                JudgmentAssertion::Observation { fact: fact2 },
            ) => {
                fact.law_mapping_to_itself(fact2);
            },
            (
                JudgmentAssertion::Composite { fact },
                JudgmentAssertion::Composite { fact: fact2 },
            ) => {
                fact.law_mapping_to_itself(fact2);
            },
            _ => {},
        }
    }

    /// Mapping the ids there and back gives the assertion again, where the way back undoes the
    /// way there.
    pub proof fn law_mapping_there_and_back<E2: TotalOrder, V2: TotalOrder, I2: TotalOrder>(
        self,
        out: JudgmentAssertion<E2, V2, I2>,
        back: JudgmentAssertion<EntId, EvtId, ImgId>,
        e: spec_fn(EntId, E2) -> bool,
        e_back: spec_fn(E2, EntId) -> bool,
        v: spec_fn(EvtId, V2) -> bool,
        v_back: spec_fn(V2, EvtId) -> bool,
        i: spec_fn(ImgId, I2) -> bool,
        i_back: spec_fn(I2, ImgId) -> bool,
    )
        requires
            self.maps_by(out, e, v, i),
            out.maps_by(back, e_back, v_back, i_back),
            undoes(e, e_back),
            undoes(v, v_back),
            undoes(i, i_back),
        ensures
            back == self,
    {
        match (self, out, back) {
            (
                JudgmentAssertion::Identity { fact },
                JudgmentAssertion::Identity { fact: fact2 },
                JudgmentAssertion::Identity { fact: fact3 },
            ) => {
                fact.law_mapping_there_and_back(fact2, fact3, e, e_back, v, v_back, i, i_back);
            },
            (
                JudgmentAssertion::Depiction { fact },
                JudgmentAssertion::Depiction { fact: fact2 },
                JudgmentAssertion::Depiction { fact: fact3 },
            ) => {
                fact.law_mapping_there_and_back(fact2, fact3, e, e_back, i, i_back);
            },
            (
                JudgmentAssertion::Observation { fact },
                JudgmentAssertion::Observation { fact: fact2 },
                JudgmentAssertion::Observation { fact: fact3 },
            ) => {
                fact.law_mapping_there_and_back(fact2, fact3, e, e_back);
            },
            (
                JudgmentAssertion::Composite { fact },
                JudgmentAssertion::Composite { fact: fact2 },
                JudgmentAssertion::Composite { fact: fact3 },
            ) => {
                fact.law_mapping_there_and_back(fact2, fact3, i, i_back);
            },
            _ => {},
        }
    }

    /// Only the ids that an assertion mentions matter to it, and it mentions every id
    /// that does.
    pub proof fn law_only_mentioned_ids_matter<E2: TotalOrder, V2: TotalOrder, I2: TotalOrder>(
        self,
        out: JudgmentAssertion<E2, V2, I2>,
        e: spec_fn(EntId, E2) -> bool,
        other_e: spec_fn(EntId, E2) -> bool,
        v: spec_fn(EvtId, V2) -> bool,
        other_v: spec_fn(EvtId, V2) -> bool,
        i: spec_fn(ImgId, I2) -> bool,
        other_i: spec_fn(ImgId, I2) -> bool,
    )
        requires
            agree(self.entities(), e, other_e),
            agree(self.events(), v, other_v),
            agree(self.images(), i, other_i),
        ensures
            self.maps_by(out, e, v, i) <==> self.maps_by(out, other_e, other_v, other_i),
    {
        match (self, out) {
            (JudgmentAssertion::Identity { fact }, JudgmentAssertion::Identity { fact: fact2 }) => {
                fact.law_only_mentioned_ids_matter(fact2, e, other_e, v, other_v, i, other_i);
            },
            (
                JudgmentAssertion::Depiction { fact },
                JudgmentAssertion::Depiction { fact: fact2 },
            ) => {
                fact.law_only_mentioned_ids_matter(fact2, e, other_e, i, other_i);
            },
            (
                JudgmentAssertion::Observation { fact },
                JudgmentAssertion::Observation { fact: fact2 },
            ) => {
                fact.law_only_mentioned_ids_matter(fact2, e, other_e);
            },
            (
                JudgmentAssertion::Composite { fact },
                JudgmentAssertion::Composite { fact: fact2 },
            ) => {
                fact.law_only_mentioned_ids_matter(fact2, i, other_i);
            },
            _ => {},
        }
    }
}

} // verus!
