//! Image cluster: where an image came from, who made it and when, and what kind
//! of image it is.
use vstd::prelude::*;

use crate::algebra::ordered::TotalOrder;
use crate::date::UncertainDate;
use crate::facts::identity::{agree, itself, undoes};
use crate::facts::web::{Language, WebUrl};
use crate::location::LocationReference;

verus! {

/// What an image shows.
#[derive(Debug, Clone, Copy, PartialEq, Eq, PartialOrd, Ord, Hash, Structural)]
pub enum ImageMedium {
    /// A figurative depiction: photograph, painting, drawing.
    Picture,
    /// A cartographic representation.
    MapSheet,
    /// A map drawn as a picture.
    PictorialMap,
}

/// A fact about an image.
#[derive(Debug, Clone, PartialEq, Eq)]
pub enum Fact<ImgId: TotalOrder> {
    /// The address the bytes came from.
    Source {
        /// The image.
        image: ImgId,
        /// The address.
        url: WebUrl,
    },
    /// Who made the image.
    Author {
        /// The image.
        image: ImgId,
        /// The name.
        name: String,
        /// The language of the name.
        language: Language,
    },
    /// When the image was made.
    CreatedDate {
        /// The image.
        image: ImgId,
        /// When.
        bound: UncertainDate,
    },
    /// When what it shows was seen.
    CapturedDate {
        /// The image.
        image: ImgId,
        /// When.
        bound: UncertainDate,
    },
    /// Where what it shows was seen.
    CapturedLocation {
        /// The image.
        image: ImgId,
        /// Where.
        location: LocationReference,
    },
    /// What kind of image it is.
    Medium {
        /// The image.
        image: ImgId,
        /// Which.
        medium: ImageMedium,
    },
}

impl<ImgId: TotalOrder> Fact<ImgId> {
    /// The images mentioned, in order.
    pub open spec fn images(self) -> Seq<ImgId> {
        match self {
            Fact::Source { image, .. } => seq![image],
            Fact::Author { image, .. } => seq![image],
            Fact::CreatedDate { image, .. } => seq![image],
            Fact::CapturedDate { image, .. } => seq![image],
            Fact::CapturedLocation { image, .. } => seq![image],
            Fact::Medium { image, .. } => seq![image],
        }
    }

    /// Hand over every id mentioned, in order.
    pub fn for_each_id(&self, images: &mut Vec<ImgId>) where ImgId: Copy
        ensures
            final(images)@ == old(images)@ + self.images(),
    {
        match self {
            Fact::Source { image, .. } => images.push(*image),
            Fact::Author { image, .. } => images.push(*image),
            Fact::CreatedDate { image, .. } => images.push(*image),
            Fact::CapturedDate { image, .. } => images.push(*image),
            Fact::CapturedLocation { image, .. } => images.push(*image),
            Fact::Medium { image, .. } => images.push(*image),
        }
        assert(images@ =~= old(images)@ + self.images());
    }

    /// Whether `out` says the same of the images of the ids.
    pub open spec fn maps_by<
        I2: TotalOrder,
    >(self, out: Fact<I2>, i: spec_fn(ImgId, I2) -> bool) -> bool {
        match (self, out) {
            (Fact::Source { image, url }, Fact::Source { image: image2, url: url2 }) => {
                &&& i(image, image2)
                &&& url == url2
            },
            (
                Fact::Author { image, name, language },
                Fact::Author { image: image2, name: name2, language: language2 },
            ) => {
                &&& i(image, image2)
                &&& name == name2
                &&& language == language2
            },
            (
                Fact::CreatedDate { image, bound },
                Fact::CreatedDate { image: image2, bound: bound2 },
            ) => {
                &&& i(image, image2)
                &&& bound == bound2
            },
            (
                Fact::CapturedDate { image, bound },
                Fact::CapturedDate { image: image2, bound: bound2 },
            ) => {
                &&& i(image, image2)
                &&& bound == bound2
            },
            (
                Fact::CapturedLocation { image, location },
                Fact::CapturedLocation { image: image2, location: location2 },
            ) => {
                &&& i(image, image2)
                &&& location == location2
            },
            (Fact::Medium { image, medium }, Fact::Medium { image: image2, medium: medium2 }) => {
                &&& i(image, image2)
                &&& medium == medium2
            },
            _ => false,
        }
    }

    /// Whether mapping the ids fails with `error`.
    pub open spec fn fails_by<
        I2: TotalOrder,
        Fault,
        FI: Fn(&ImgId) -> Result<I2, Fault>,
    >(self, fi: FI, error: Fault) -> bool {
        match self {
            Fact::Source { image, .. } => call_ensures(fi, (&image,), Err::<I2, Fault>(error)),
            Fact::Author { image, .. } => call_ensures(fi, (&image,), Err::<I2, Fault>(error)),
            Fact::CreatedDate { image, .. } => call_ensures(fi, (&image,), Err::<I2, Fault>(error)),
            Fact::CapturedDate { image, .. } => call_ensures(
                fi,
                (&image,),
                Err::<I2, Fault>(error),
            ),
            Fact::CapturedLocation { image, .. } => call_ensures(
                fi,
                (&image,),
                Err::<I2, Fault>(error),
            ),
            Fact::Medium { image, .. } => call_ensures(fi, (&image,), Err::<I2, Fault>(error)),
        }
    }

    /// Replace every id by its image; the first failure is the error.
    pub fn try_map_ids<
        I2: TotalOrder,
        Fault,
        FI: Fn(&ImgId) -> Result<I2, Fault>,
    >(self, fi: &FI) -> (r: Result<Fact<I2>, Fault>)
        requires
            forall|x: ImgId| call_requires(*fi, (&x,)),
        ensures
            r is Ok ==> self.maps_by(
                r->Ok_0,
                |x: ImgId, y: I2| call_ensures(*fi, (&x,), Ok::<I2, Fault>(y)),
            ),
            r is Err ==> self.fails_by(*fi, r->Err_0),
    {
        match self {
            Fact::Source { image, url } => {
                let image = match fi(&image) {
                    Ok(image) => image,
                    Err(error) => return Err(error),
                };
                Ok(Fact::Source { image, url })
            },
            Fact::Author { image, name, language } => {
                let image = match fi(&image) {
                    Ok(image) => image,
                    Err(error) => return Err(error),
                };
                Ok(Fact::Author { image, name, language })
            },
            Fact::CreatedDate { image, bound } => {
                let image = match fi(&image) {
                    Ok(image) => image,
                    Err(error) => return Err(error),
                };
                Ok(Fact::CreatedDate { image, bound })
            },
            Fact::CapturedDate { image, bound } => {
                let image = match fi(&image) {
                    Ok(image) => image,
                    Err(error) => return Err(error),
                };
                Ok(Fact::CapturedDate { image, bound })
            },
            Fact::CapturedLocation { image, location } => {
                let image = match fi(&image) {
                    Ok(image) => image,
                    Err(error) => return Err(error),
                };
                Ok(Fact::CapturedLocation { image, location })
            },
            Fact::Medium { image, medium } => {
                let image = match fi(&image) {
                    Ok(image) => image,
                    Err(error) => return Err(error),
                };
                Ok(Fact::Medium { image, medium })
            },
        }
    }
}

impl<ImgId: TotalOrder> Fact<ImgId> {
    /// Mapping the ids keeps the kind of a fact and all it says: each kind comes to the
    /// same kind, every id to its image in the same place, and the rest stays.
    pub proof fn law_mapping_keeps_what_is_said<I2: TotalOrder>(
        self,
        out: Fact<I2>,
        i: spec_fn(ImgId, I2) -> bool,
    )
        requires
            self.maps_by(out, i),
        ensures
            (self matches Fact::Source { image, url } ==> {
                &&& out matches Fact::Source { image: image2, url: url2 }
                &&& i(image, image2)
                &&& url == url2
            }),
            (self matches Fact::Author { image, name, language } ==> {
                &&& out matches Fact::Author { image: image2, name: name2, language: language2 }
                &&& i(image, image2)
                &&& name == name2
                &&& language == language2
            }),
            (self matches Fact::CreatedDate { image, bound } ==> {
                &&& out matches Fact::CreatedDate { image: image2, bound: bound2 }
                &&& i(image, image2)
                &&& bound == bound2
            }),
            (self matches Fact::CapturedDate { image, bound } ==> {
                &&& out matches Fact::CapturedDate { image: image2, bound: bound2 }
                &&& i(image, image2)
                &&& bound == bound2
            }),
            (self matches Fact::CapturedLocation { image, location } ==> {
                &&& out matches Fact::CapturedLocation { image: image2, location: location2 }
                &&& i(image, image2)
                &&& location == location2
            }),
            (self matches Fact::Medium { image, medium } ==> {
                &&& out matches Fact::Medium { image: image2, medium: medium2 }
                &&& i(image, image2)
                &&& medium == medium2
            }),
            out is Source ==> self is Source,
            out is Author ==> self is Author,
            out is CreatedDate ==> self is CreatedDate,
            out is CapturedDate ==> self is CapturedDate,
            out is CapturedLocation ==> self is CapturedLocation,
            out is Medium ==> self is Medium,
    {
    }

    /// Mapping every id to itself changes nothing.
    pub proof fn law_mapping_to_itself(self, out: Fact<ImgId>)
        requires
            self.maps_by(out, itself::<ImgId>()),
        ensures
            out == self,
    {
    }

    /// Mapping the ids there and back gives the fact again, where the way back undoes the
    /// way there.
    pub proof fn law_mapping_there_and_back<I2: TotalOrder>(
        self,
        out: Fact<I2>,
        back: Fact<ImgId>,
        i: spec_fn(ImgId, I2) -> bool,
        i_back: spec_fn(I2, ImgId) -> bool,
    )
        requires
            self.maps_by(out, i),
            out.maps_by(back, i_back),
            undoes(i, i_back),
        ensures
            back == self,
    {
    }

    /// Mapping the ids fails only with the error of an id that is mentioned.
    pub proof fn law_failure_is_of_a_mentioned_id<
        I2: TotalOrder,
        Fault,
        FI: Fn(&ImgId) -> Result<I2, Fault>,
    >(
        self,
        fi: FI,
        error: Fault,
    )
        requires
            self.fails_by(fi, error),
        ensures
            (exists|k: int|
                0 <= k < self.images().len() && #[trigger] call_ensures(
                    fi,
                    (&self.images()[k],),
                    Err::<I2, Fault>(error),
                )),
    {
        match self {
            Fact::Source { image, .. } => {
                assert(self.images()[0] == image);
                assert(call_ensures(fi, (&image,), Err::<I2, Fault>(error)) ==> call_ensures(
                    fi,
                    (&self.images()[0],),
                    Err::<I2, Fault>(error),
                ));
            },
            Fact::Author { image, .. } => {
                assert(self.images()[0] == image);
                assert(call_ensures(fi, (&image,), Err::<I2, Fault>(error)) ==> call_ensures(
                    fi,
                    (&self.images()[0],),
                    Err::<I2, Fault>(error),
                ));
            },
            Fact::CreatedDate { image, .. } => {
                assert(self.images()[0] == image);
                assert(call_ensures(fi, (&image,), Err::<I2, Fault>(error)) ==> call_ensures(
                    fi,
                    (&self.images()[0],),
                    Err::<I2, Fault>(error),
                ));
            },
            Fact::CapturedDate { image, .. } => {
                assert(self.images()[0] == image);
                assert(call_ensures(fi, (&image,), Err::<I2, Fault>(error)) ==> call_ensures(
                    fi,
                    (&self.images()[0],),
                    Err::<I2, Fault>(error),
                ));
            },
            Fact::CapturedLocation { image, .. } => {
                assert(self.images()[0] == image);
                assert(call_ensures(fi, (&image,), Err::<I2, Fault>(error)) ==> call_ensures(
                    fi,
                    (&self.images()[0],),
                    Err::<I2, Fault>(error),
                ));
            },
            Fact::Medium { image, .. } => {
                assert(self.images()[0] == image);
                assert(call_ensures(fi, (&image,), Err::<I2, Fault>(error)) ==> call_ensures(
                    fi,
                    (&self.images()[0],),
                    Err::<I2, Fault>(error),
                ));
            },
        }
    }

    /// Which ids a fact mentions, by its kind and in their order.
    pub proof fn law_mentions_by_kind(self)
        ensures
            (self matches Fact::Source { image, .. } ==> {
                &&& self.images() == seq![image]
            }),
            (self matches Fact::Author { image, .. } ==> {
                &&& self.images() == seq![image]
            }),
            (self matches Fact::CreatedDate { image, .. } ==> {
                &&& self.images() == seq![image]
            }),
            (self matches Fact::CapturedDate { image, .. } ==> {
                &&& self.images() == seq![image]
            }),
            (self matches Fact::CapturedLocation { image, .. } ==> {
                &&& self.images() == seq![image]
            }),
            (self matches Fact::Medium { image, .. } ==> {
                &&& self.images() == seq![image]
            }),
    {
    }

    /// Only the ids that a fact mentions matter to it, and it mentions every id that
    /// does: two ways to map them that agree on those give the same.
    pub proof fn law_only_mentioned_ids_matter<I2: TotalOrder>(
        self,
        out: Fact<I2>,
        i: spec_fn(ImgId, I2) -> bool,
        other_i: spec_fn(ImgId, I2) -> bool,
    )
        requires
            agree(self.images(), i, other_i),
        ensures
            self.maps_by(out, i) <==> self.maps_by(out, other_i),
    {
        match self {
            Fact::Source { image, .. } => {
                assert(self.images()[0] == image);
            },
            Fact::Author { image, .. } => {
                assert(self.images()[0] == image);
            },
            Fact::CreatedDate { image, .. } => {
                assert(self.images()[0] == image);
            },
            Fact::CapturedDate { image, .. } => {
                assert(self.images()[0] == image);
            },
            Fact::CapturedLocation { image, .. } => {
                assert(self.images()[0] == image);
            },
            Fact::Medium { image, .. } => {
                assert(self.images()[0] == image);
            },
        }
    }
}

} // verus!
