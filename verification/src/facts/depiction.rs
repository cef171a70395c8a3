//! Depiction cluster: entities located in pictures and on maps.
use vstd::prelude::*;

use crate::algebra::ordered::TotalOrder;
use crate::facts::geometry::{ImageRegion, SpatialGeometry};
use crate::facts::identity::{agree, itself, maps, undoes};

verus! {

/// From where a picture shows an entity.
#[derive(Debug, Clone, Copy, PartialEq, Eq, PartialOrd, Ord, Hash, Structural)]
pub enum Perspective {
    /// Nobody has said.
    Unknown,
    /// From outside.
    Exterior,
    /// From inside.
    Interior,
}

/// An entity shown by an image.
#[derive(Debug, Clone, PartialEq)]
pub enum Fact<EntId: TotalOrder, ImgId: TotalOrder> {
    /// The picture shows the entity.
    InPicture {
        /// The entity.
        entity: EntId,
        /// The image.
        image: ImgId,
        /// From where.
        perspective: Perspective,
        /// Where in the picture, when known.
        region: Option<ImageRegion>,
    },
    /// The map shows the entity.
    OnMap {
        /// The entity.
        entity: EntId,
        /// The image.
        image: ImgId,
        /// Where on the map, when known.
        geometry: Option<SpatialGeometry>,
    },
}

impl<EntId: TotalOrder, ImgId: TotalOrder> Fact<EntId, ImgId> {
    /// The entities mentioned, in order.
    pub open spec fn entities(self) -> Seq<EntId> {
        match self {
            Fact::InPicture { entity, .. } => seq![entity],
            Fact::OnMap { entity, .. } => seq![entity],
        }
    }

    /// The images mentioned, in order.
    pub open spec fn images(self) -> Seq<ImgId> {
        match self {
            Fact::InPicture { image, .. } => seq![image],
            Fact::OnMap { image, .. } => seq![image],
        }
    }

    /// Hand over every id mentioned, in order.
    pub fn for_each_id(
        &self,
        entities: &mut Vec<EntId>,
        images: &mut Vec<ImgId>,
    ) where EntId: Copy, ImgId: Copy
        ensures
            final(entities)@ == old(entities)@ + self.entities(),
            final(images)@ == old(images)@ + self.images(),
    {
        match self {
            Fact::InPicture { entity, image, .. } => {
                entities.push(*entity);
                images.push(*image);
            },
            Fact::OnMap { entity, image, .. } => {
                entities.push(*entity);
                images.push(*image);
            },
        }
        assert(entities@ =~= old(entities)@ + self.entities());
        assert(images@ =~= old(images)@ + self.images());
    }

    /// Whether `out` says the same of the images of the ids.
    pub open spec fn maps_by<
        E2: TotalOrder,
        I2: TotalOrder,
    >(
        self,
        out: Fact<E2, I2>,
        e: spec_fn(EntId, E2) -> bool,
        i: spec_fn(ImgId, I2) -> bool,
    ) -> bool {
        match (self, out) {
            (
                Fact::InPicture { entity, image, perspective, region },
                Fact::InPicture {
                    entity: entity2,
                    image: image2,
                    perspective: perspective2,
                    region: region2,
                },
            ) => {
                &&& e(entity, entity2)
                &&& i(image, image2)
                &&& perspective == perspective2
                &&& region == region2
            },
            (
                Fact::OnMap { entity, image, geometry },
                Fact::OnMap { entity: entity2, image: image2, geometry: geometry2 },
            ) => {
                &&& e(entity, entity2)
                &&& i(image, image2)
                &&& geometry == geometry2
            },
            _ => false,
        }
    }

    /// Whether mapping the ids fails with `error`.
    pub open spec fn fails_by<
        E2: TotalOrder,
        I2: TotalOrder,
        Fault,
        FE: Fn(&EntId) -> Result<E2, Fault>,
        FI: Fn(&ImgId) -> Result<I2, Fault>,
    >(self, fe: FE, fi: FI, error: Fault) -> bool {
        match self {
            Fact::InPicture { entity, image, .. } => {
                ||| call_ensures(fe, (&entity,), Err::<E2, Fault>(error))
                ||| maps(fe, entity) && call_ensures(fi, (&image,), Err::<I2, Fault>(error))
            },
            Fact::OnMap { entity, image, .. } => {
                ||| call_ensures(fe, (&entity,), Err::<E2, Fault>(error))
                ||| maps(fe, entity) && call_ensures(fi, (&image,), Err::<I2, Fault>(error))
            },
        }
    }

    /// Replace every id by its image; the first failure is the error.
    pub fn try_map_ids<
        E2: TotalOrder,
        I2: TotalOrder,
        Fault,
        FE: Fn(&EntId) -> Result<E2, Fault>,
        FI: Fn(&ImgId) -> Result<I2, Fault>,
    >(self, fe: &FE, fi: &FI) -> (r: Result<Fact<E2, I2>, Fault>)
        requires
            forall|x: EntId| call_requires(*fe, (&x,)),
            forall|x: ImgId| call_requires(*fi, (&x,)),
        ensures
            r is Ok ==> self.maps_by(
                r->Ok_0,
                |x: EntId, y: E2| call_ensures(*fe, (&x,), Ok::<E2, Fault>(y)),
                |x: ImgId, y: I2| call_ensures(*fi, (&x,), Ok::<I2, Fault>(y)),
            ),
            r is Err ==> self.fails_by(*fe, *fi, r->Err_0),
    {
        match self {
            Fact::InPicture { entity, image, perspective, region } => {
                let entity = match fe(&entity) {
                    Ok(image) => image,
                    Err(error) => return Err(error),
                };
                let image = match fi(&image) {
                    Ok(image) => image,
                    Err(error) => return Err(error),
                };
                Ok(Fact::InPicture { entity, image, perspective, region })
            },
            Fact::OnMap { entity, image, geometry } => {
                let entity = match fe(&entity) {
                    Ok(image) => image,
                    Err(error) => return Err(error),
                };
                let image = match fi(&image) {
                    Ok(image) => image,
                    Err(error) => return Err(error),
                };
                Ok(Fact::OnMap { entity, image, geometry })
            },
        }
    }
}

impl<EntId: TotalOrder, ImgId: TotalOrder> Fact<EntId, ImgId> {
    /// Mapping the ids keeps the kind of a fact and all it says: each kind comes to the
    /// same kind, every id to its image in the same place, and the rest stays.
    pub proof fn law_mapping_keeps_what_is_said<E2: TotalOrder, I2: TotalOrder>(
        self,
        out: Fact<E2, I2>,
        e: spec_fn(EntId, E2) -> bool,
        i: spec_fn(ImgId, I2) -> bool,
    )
        requires
            self.maps_by(out, e, i),
        ensures
            (self matches Fact::InPicture { entity, image, perspective, region } ==> {
                &&& out matches Fact::InPicture {
                    entity: entity2,
                    image: image2,
                    perspective: perspective2,
                    region: region2,
                }
                &&& e(entity, entity2)
                &&& i(image, image2)
                &&& perspective == perspective2
                &&& region == region2
            }),
            (self matches Fact::OnMap { entity, image, geometry } ==> {
                &&& out matches Fact::OnMap { entity: entity2, image: image2, geometry: geometry2 }
                &&& e(entity, entity2)
                &&& i(image, image2)
                &&& geometry == geometry2
            }),
            out is InPicture ==> self is InPicture,
            out is OnMap ==> self is OnMap,
    {
    }

    /// Mapping every id to itself changes nothing.
    pub proof fn law_mapping_to_itself(self, out: Fact<EntId, ImgId>)
        requires
            self.maps_by(out, itself::<EntId>(), itself::<ImgId>()),
        ensures
            out == self,
    {
    }

    /// Mapping the ids there and back gives the fact again, where the way back undoes the
    /// way there.
    pub proof fn law_mapping_there_and_back<E2: TotalOrder, I2: TotalOrder>(
        self,
        out: Fact<E2, I2>,
        back: Fact<EntId, ImgId>,
        e: spec_fn(EntId, E2) -> bool,
        e_back: spec_fn(E2, EntId) -> bool,
        i: spec_fn(ImgId, I2) -> bool,
        i_back: spec_fn(I2, ImgId) -> bool,
    )
        requires
            self.maps_by(out, e, i),
            out.maps_by(back, e_back, i_back),
            undoes(e, e_back),
            undoes(i, i_back),
        ensures
            back == self,
    {
    }

    /// Mapping the ids fails only with the error of an id that is mentioned.
    pub proof fn law_failure_is_of_a_mentioned_id<
        E2: TotalOrder,
        I2: TotalOrder,
        Fault,
        FE: Fn(&EntId) -> Result<E2, Fault>,
        FI: Fn(&ImgId) -> Result<I2, Fault>,
    >(
        self,
        fe: FE,
        fi: FI,
        error: Fault,
    )
        requires
            self.fails_by(fe, fi, error),
        ensures
            (exists|k: int|
                0 <= k < self.entities().len() && #[trigger] call_ensures(
                    fe,
                    (&self.entities()[k],),
                    Err::<E2, Fault>(error),
                ))
                || (exists|k: int|
                0 <= k < self.images().len() && #[trigger] call_ensures(
                    fi,
                    (&self.images()[k],),
                    Err::<I2, Fault>(error),
                )),
    {
        match self {
            Fact::InPicture { entity, image, .. } => {
                assert(self.entities()[0] == entity);
                assert(call_ensures(fe, (&entity,), Err::<E2, Fault>(error)) ==> call_ensures(
                    fe,
                    (&self.entities()[0],),
                    Err::<E2, Fault>(error),
                ));
                assert(self.images()[0] == image);
                assert(call_ensures(fi, (&image,), Err::<I2, Fault>(error)) ==> call_ensures(
                    fi,
                    (&self.images()[0],),
                    Err::<I2, Fault>(error),
                ));
            },
            Fact::OnMap { entity, image, .. } => {
                assert(self.entities()[0] == entity);
                assert(call_ensures(fe, (&entity,), Err::<E2, Fault>(error)) ==> call_ensures(
                    fe,
                    (&self.entities()[0],),
                    Err::<E2, Fault>(error),
                ));
                assert(self.images()[0] == image);
                assert(call_ensures(fi, (&image,), Err::<I2, Fault>(error)) ==> call_ensures(
                    fi,
                    (&self.images()[0],),
                    Err::<I2, Fault>(error),
                ));
            },
        }
    }

    /// Which ids a fact mentions, by its kind and in their order.
    pub proof fn law_mentions_by_kind(self)
        ensures
            (self matches Fact::InPicture { entity, image, .. } ==> {
                &&& self.entities() == seq![entity]
                &&& self.images() == seq![image]
            }),
            (self matches Fact::OnMap { entity, image, .. } ==> {
                &&& self.entities() == seq![entity]
                &&& self.images() == seq![image]
            }),
    {
    }

    /// Only the ids that a fact mentions matter to it, and it mentions every id that
    /// does: two ways to map them that agree on those give the same.
    pub proof fn law_only_mentioned_ids_matter<E2: TotalOrder, I2: TotalOrder>(
        self,
        out: Fact<E2, I2>,
        e: spec_fn(EntId, E2) -> bool,
        other_e: spec_fn(EntId, E2) -> bool,
        i: spec_fn(ImgId, I2) -> bool,
        other_i: spec_fn(ImgId, I2) -> bool,
    )
        requires
            agree(self.entities(), e, other_e),
            agree(self.images(), i, other_i),
        ensures
            self.maps_by(out, e, i) <==> self.maps_by(out, other_e, other_i),
    {
        match self {
            Fact::InPicture { entity, image, .. } => {
                assert(self.entities()[0] == entity);
                assert(self.images()[0] == image);
            },
            Fact::OnMap { entity, image, .. } => {
                assert(self.entities()[0] == entity);
                assert(self.images()[0] == image);
            },
        }
    }
}

} // verus!
