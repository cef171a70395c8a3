//! Map cluster: the cartographic role of an image.
use vstd::prelude::*;

use crate::algebra::ordered::TotalOrder;
use crate::facts::identity::{agree, itself, undoes};

verus! {

/// A fact about an image as a map.
#[derive(Debug, Clone, PartialEq, Eq)]
pub enum Fact<ImgId: TotalOrder> {
    /// The image is a cartographic representation.
    IsMap {
        /// The image.
        image: ImgId,
    },
}

impl<ImgId: TotalOrder> Fact<ImgId> {
    /// The images mentioned, in order.
    pub open spec fn images(self) -> Seq<ImgId> {
        match self {
            Fact::IsMap { image } => seq![image],
        }
    }

    /// Hand over every id mentioned, in order.
    pub fn for_each_id(&self, images: &mut Vec<ImgId>) where ImgId: Copy
        ensures
            final(images)@ == old(images)@ + self.images(),
    {
        match self {
            Fact::IsMap { image } => images.push(*image),
        }
        assert(images@ =~= old(images)@ + self.images());
    }

    /// Whether `out` says the same of the images of the ids.
    pub open spec fn maps_by<
        I2: TotalOrder,
    >(self, out: Fact<I2>, i: spec_fn(ImgId, I2) -> bool) -> bool {
        match (self, out) {
            (Fact::IsMap { image }, Fact::IsMap { image: image2 }) => {
                &&& i(image, image2)
            },
        }
    }

    /// Whether mapping the ids fails with `error`.
    pub open spec fn fails_by<
        I2: TotalOrder,
        Fault,
        FI: Fn(&ImgId) -> Result<I2, Fault>,
    >(self, fi: FI, error: Fault) -> bool {
        match self {
            Fact::IsMap { image } => call_ensures(fi, (&image,), Err::<I2, Fault>(error)),
        }
    }

    /// Replace every id by its image; the first failure is the error.
    pub fn try_map_ids<
        I2: TotalOrder,
        Fault,
        FI: Fn(&ImgId) -> Result<I2, Fault>,
    >(self, fi: &FI) -> (r: Result<Fact<I2>, Fault>)
        requires
            forall|x: ImgId| call_requires(*fi, (&x,)),
        ensures
            r is Ok ==> self.maps_by(
                r->Ok_0,
                |x: ImgId, y: I2| call_ensures(*fi, (&x,), Ok::<I2, Fault>(y)),
            ),
            r is Err ==> self.fails_by(*fi, r->Err_0),
    {
        match self {
            Fact::IsMap { image } => {
                let image = match fi(&image) {
                    Ok(image) => image,
                    Err(error) => return Err(error),
                };
                Ok(Fact::IsMap { image })
            },
        }
    }
}

impl<ImgId: TotalOrder> Fact<ImgId> {
    /// Mapping the ids keeps the kind of a fact and all it says: each kind comes to the
    /// same kind, every id to its image in the same place, and the rest stays.
    pub proof fn law_mapping_keeps_what_is_said<I2: TotalOrder>(
        self,
        out: Fact<I2>,
        i: spec_fn(ImgId, I2) -> bool,
    )
        requires
            self.maps_by(out, i),
        ensures
            (self matches Fact::IsMap { image } ==> {
                &&& out matches Fact::IsMap { image: image2 }
                &&& i(image, image2)
            }),
    {
    }

    /// Mapping every id to itself changes nothing.
    pub proof fn law_mapping_to_itself(self, out: Fact<ImgId>)
        requires
            self.maps_by(out, itself::<ImgId>()),
        ensures
            out == self,
    {
    }

    /// Mapping the ids there and back gives the fact again, where the way back undoes the
    /// way there.
    pub proof fn law_mapping_there_and_back<I2: TotalOrder>(
        self,
        out: Fact<I2>,
        back: Fact<ImgId>,
        i: spec_fn(ImgId, I2) -> bool,
        i_back: spec_fn(I2, ImgId) -> bool,
    )
        requires
            self.maps_by(out, i),
            out.maps_by(back, i_back),
            undoes(i, i_back),
        ensures
            back == self,
    {
    }

    /// Mapping the ids fails only with the error of an id that is mentioned.
    pub proof fn law_failure_is_of_a_mentioned_id<
        I2: TotalOrder,
        Fault,
        FI: Fn(&ImgId) -> Result<I2, Fault>,
    >(
        self,
        fi: FI,
        error: Fault,
    )
        requires
            self.fails_by(fi, error),
        ensures
            (exists|k: int|
                0 <= k < self.images().len() && #[trigger] call_ensures(
                    fi,
                    (&self.images()[k],),
                    Err::<I2, Fault>(error),
                )),
    {
        match self {
            Fact::IsMap { image } => {
                assert(self.images()[0] == image);
                assert(call_ensures(fi, (&image,), Err::<I2, Fault>(error)) ==> call_ensures(
                    fi,
                    (&self.images()[0],),
                    Err::<I2, Fault>(error),
                ));
            },
        }
    }

    /// Which ids a fact mentions, by its kind and in their order.
    pub proof fn law_mentions_by_kind(self)
        ensures
            (self matches Fact::IsMap { image } ==> {
                &&& self.images() == seq![image]
            }),
    {
    }

    /// Only the ids that a fact mentions matter to it, and it mentions every id that
    /// does: two ways to map them that agree on those give the same.
    pub proof fn law_only_mentioned_ids_matter<I2: TotalOrder>(
        self,
        out: Fact<I2>,
        i: spec_fn(ImgId, I2) -> bool,
        other_i: spec_fn(ImgId, I2) -> bool,
    )
        requires
            agree(self.images(), i, other_i),
        ensures
            self.maps_by(out, i) <==> self.maps_by(out, other_i),
    {
        match self {
            Fact::IsMap { image } => {
                assert(self.images()[0] == image);
            },
        }
    }
}

} // verus!
