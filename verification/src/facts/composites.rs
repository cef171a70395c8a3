//! Composite cluster: images that are parts of other images.
use vstd::prelude::*;

use crate::algebra::ordered::TotalOrder;
use crate::facts::geometry::{
    rect_fault, unsigned_zero, ProportionalRect, ProportionalRectError,
};
use crate::facts::identity::{agree, itself, maps, undoes};

verus! {

/// Where in its parent a subimage lies.
#[derive(Debug, Clone, Copy, PartialEq, Eq, PartialOrd, Ord, Hash)]
pub enum SubimageRegion {
    /// A rectangle.
    Rect(ProportionalRect),
}

impl SubimageRegion {
    /// A rectangle. See [`ProportionalRect::new`] for the arguments and the
    /// validation rules.
    pub fn rect(x: u32, y: u32, width: u32, height: u32, right: u32, bottom: u32) -> (r: Result<
        Self,
        ProportionalRectError,
    >)
        ensures
            match rect_fault(x, y, width, height, right, bottom) {
                Some(error) => r == Err::<SubimageRegion, ProportionalRectError>(error),
                None => r is Ok && r->Ok_0->Rect_0.bits() == (
                    unsigned_zero(x),
                    unsigned_zero(y),
                    width,
                    height,
                ),
            },
    {
        match ProportionalRect::new(x, y, width, height, right, bottom) {
            Ok(rect) => Ok(SubimageRegion::Rect(rect)),
            Err(error) => Err(error),
        }
    }
}

/// How images are made of images.
#[derive(Debug, Clone, PartialEq, Eq)]
pub enum Fact<ImgId: TotalOrder> {
    /// One image is a part of another.
    IsSubimageOf {
        /// The part.
        subimage: ImgId,
        /// The whole.
        parent: ImgId,
        /// Where the part lies.
        region: SubimageRegion,
    },
}

impl<ImgId: TotalOrder> Fact<ImgId> {
    /// The images mentioned, in order.
    pub open spec fn images(self) -> Seq<ImgId> {
        match self {
            Fact::IsSubimageOf { subimage, parent, .. } => seq![subimage, parent],
        }
    }

    /// Hand over every id mentioned, in order.
    pub fn for_each_id(&self, images: &mut Vec<ImgId>) where ImgId: Copy
        ensures
            final(images)@ == old(images)@ + self.images(),
    {
        match self {
            Fact::IsSubimageOf { subimage, parent, .. } => {
                images.push(*subimage);
                images.push(*parent);
            },
        }
        assert(images@ =~= old(images)@ + self.images());
    }

    /// Whether `out` says the same of the images of the ids.
    pub open spec fn maps_by<
        I2: TotalOrder,
    >(self, out: Fact<I2>, i: spec_fn(ImgId, I2) -> bool) -> bool {
        match (self, out) {
            (
                Fact::IsSubimageOf { subimage, parent, region },
                Fact::IsSubimageOf { subimage: subimage2, parent: parent2, region: region2 },
            ) => {
                &&& i(subimage, subimage2)
                &&& i(parent, parent2)
                &&& region == region2
            },
        }
    }

    /// Whether mapping the ids fails with `error`.
    pub open spec fn fails_by<
        I2: TotalOrder,
        Fault,
        FI: Fn(&ImgId) -> Result<I2, Fault>,
    >(self, fi: FI, error: Fault) -> bool {
        match self {
            Fact::IsSubimageOf { subimage, parent, .. } => {
                ||| call_ensures(fi, (&subimage,), Err::<I2, Fault>(error))
                ||| maps(fi, subimage) && call_ensures(fi, (&parent,), Err::<I2, Fault>(error))
            },
        }
    }

    /// Replace every id by its image; the first failure is the error.
    pub fn try_map_ids<
        I2: TotalOrder,
        Fault,
        FI: Fn(&ImgId) -> Result<I2, Fault>,
    >(self, fi: &FI) -> (r: Result<Fact<I2>, Fault>)
        requires
            forall|x: ImgId| call_requires(*fi, (&x,)),
        ensures
            r is Ok ==> self.maps_by(
                r->Ok_0,
                |x: ImgId, y: I2| call_ensures(*fi, (&x,), Ok::<I2, Fault>(y)),
            ),
            r is Err ==> self.fails_by(*fi, r->Err_0),
    {
        match self {
            Fact::IsSubimageOf { subimage, parent, region } => {
                let subimage = match fi(&subimage) {
                    Ok(image) => image,
                    Err(error) => return Err(error),
                };
                let parent = match fi(&parent) {
                    Ok(image) => image,
                    Err(error) => return Err(error),
                };
                Ok(Fact::IsSubimageOf { subimage, parent, region })
            },
        }
    }
}

impl<ImgId: TotalOrder> Fact<ImgId> {
    /// Mapping the ids keeps the kind of a fact and all it says: each kind comes to the
    /// same kind, every id to its image in the same place, and the rest stays.
    pub proof fn law_mapping_keeps_what_is_said<I2: TotalOrder>(
        self,
        out: Fact<I2>,
        i: spec_fn(ImgId, I2) -> bool,
    )
        requires
            self.maps_by(out, i),
        ensures
            (self matches Fact::IsSubimageOf { subimage, parent, region } ==> {
                &&& out matches Fact::IsSubimageOf { subimage: subimage2, parent: parent2, region: region2 }
                &&& i(subimage, subimage2)
                &&& i(parent, parent2)
                &&& region == region2
            }),
    {
    }

    /// Mapping every id to itself changes nothing.
    pub proof fn law_mapping_to_itself(self, out: Fact<ImgId>)
        requires
            self.maps_by(out, itself::<ImgId>()),
        ensures
            out == self,
    {
    }

    /// Mapping the ids there and back gives the fact again, where the way back undoes the
    /// way there.
    pub proof fn law_mapping_there_and_back<I2: TotalOrder>(
        self,
        out: Fact<I2>,
        back: Fact<ImgId>,
        i: spec_fn(ImgId, I2) -> bool,
        i_back: spec_fn(I2, ImgId) -> bool,
    )
        requires
            self.maps_by(out, i),
            out.maps_by(back, i_back),
            undoes(i, i_back),
        ensures
            back == self,
    {
    }

    /// Mapping the ids fails only with the error of an id that is mentioned.
    pub proof fn law_failure_is_of_a_mentioned_id<
        I2: TotalOrder,
        Fault,
        FI: Fn(&ImgId) -> Result<I2, Fault>,
    >(
        self,
        fi: FI,
        error: Fault,
    )
        requires
            self.fails_by(fi, error),
        ensures
            (exists|k: int|
                0 <= k < self.images().len() && #[trigger] call_ensures(
                    fi,
                    (&self.images()[k],),
                    Err::<I2, Fault>(error),
                )),
    {
        match self {
            Fact::IsSubimageOf { subimage, parent, .. } => {
                assert(self.images()[0] == subimage);
                assert(call_ensures(fi, (&subimage,), Err::<I2, Fault>(error)) ==> call_ensures(
                    fi,
                    (&self.images()[0],),
                    Err::<I2, Fault>(error),
                ));
                assert(self.images()[1] == parent);
                assert(call_ensures(fi, (&parent,), Err::<I2, Fault>(error)) ==> call_ensures(
                    fi,
                    (&self.images()[1],),
                    Err::<I2, Fault>(error),
                ));
            },
        }
    }

    /// Which ids a fact mentions, by its kind and in their order.
    pub proof fn law_mentions_by_kind(self)
        ensures
            (self matches Fact::IsSubimageOf { subimage, parent, .. } ==> {
                &&& self.images() == seq![subimage, parent]
            }),
    {
    }

    /// Only the ids that a fact mentions matter to it, and it mentions every id that
    /// does: two ways to map them that agree on those give the same.
    pub proof fn law_only_mentioned_ids_matter<I2: TotalOrder>(
        self,
        out: Fact<I2>,
        i: spec_fn(ImgId, I2) -> bool,
        other_i: spec_fn(ImgId, I2) -> bool,
    )
        requires
            agree(self.images(), i, other_i),
        ensures
            self.maps_by(out, i) <==> self.maps_by(out, other_i),
    {
        match self {
            Fact::IsSubimageOf { subimage, parent, .. } => {
                assert(self.images()[0] == subimage);
                assert(self.images()[1] == parent);
            },
        }
    }
}

} // verus!
