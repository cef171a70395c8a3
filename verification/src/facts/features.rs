//! Feature vocabulary for building observations.
//!
//! A [`Feature`] is one observed attribute of a building. Feature facts are
//! per-observation singular: a building with both a gabled wing and a dome has
//! two roof-shape facts.
use vstd::prelude::*;
use vstd::string::*;

use crate::facts::ids::{validate, ValidatedStringError};
use crate::text::trimmed;

verus! {

/// One observed feature on a building.
#[derive(Debug, Clone, PartialEq, Eq, PartialOrd, Ord, Hash)]
pub enum Feature {
    /// Number of visible stories on the section being observed.
    StoryCount {
        /// Count of visible stories.
        stories: u32,
    },
    /// A roof structure observed on the building.
    RoofShape {
        /// The observed roof shape.
        shape: RoofShape,
    },
    /// A facade material observed on the building.
    FacadeMaterial {
        /// The observed facade material.
        material: FacadeMaterial,
    },
    /// Overall observed condition of the building.
    Condition {
        /// The observed overall condition.
        condition: Condition,
    },
    /// Transcribed text from a sign, plaque, or inscription visible on the
    /// building.
    Sign {
        /// The transcribed sign text.
        text: SignText,
    },
}

/// Roof structures that observations distinguish.
#[derive(Debug, Clone, Copy, PartialEq, Eq, PartialOrd, Ord, Hash, Structural)]
pub enum RoofShape {
    /// Flat or near-flat roof.
    Flat,
    /// Two sloping sides meeting at a ridge.
    Gabled,
    /// Four sloping sides meeting at ridges, no vertical end walls.
    Hipped,
    /// Two pitch angles per side (steep lower, shallower upper).
    Mansard,
    /// Hemispherical or oblate dome.
    Dome,
    /// Tall pointed structure (church spire, steeple).
    Spire,
}

/// Facade materials that observations distinguish.
#[derive(Debug, Clone, Copy, PartialEq, Eq, PartialOrd, Ord, Hash, Structural)]
pub enum FacadeMaterial {
    Brick,
    Stone,
    Wood,
    Stucco,
    Concrete,
    Glass,
    Metal,
}

/// Overall observed condition of a building, from intact to ruined.
#[derive(Debug, Clone, Copy, PartialEq, Eq, PartialOrd, Ord, Hash, Structural)]
pub enum Condition {
    /// Visibly intact; no obvious damage or significant wear.
    Intact,
    /// Worn, but whole.
    Weathered,
    /// Parts are missing or broken.
    Damaged,
    /// Little but ruins is left.
    Ruined,
}

/// Minimum trimmed character count for a [`SignText`].
pub const SIGN_TEXT_MIN_LEN: usize = 1;

/// Maximum trimmed character count for a [`SignText`].
pub const SIGN_TEXT_MAX_LEN: usize = 1024;

/// The transcribed text of a sign, without the white space around it; from
/// [`SIGN_TEXT_MIN_LEN`] to [`SIGN_TEXT_MAX_LEN`] characters long.
#[derive(Debug, Clone, PartialEq, Eq, PartialOrd, Ord, Hash)]
pub struct SignText {
    inner: String,
}

impl View for SignText {
    type V = Seq<char>;

    closed spec fn view(&self) -> Seq<char> {
        self.inner@
    }
}

impl SignText {
    /// Construct a sign text. Trims white space, and rejects what is then empty
    /// or too long.
    pub fn new(text: &str) -> (r: Result<Self, ValidatedStringError>)
        ensures
            trimmed(text@).len() < SIGN_TEXT_MIN_LEN ==> r == Err::<SignText, ValidatedStringError>(
                ValidatedStringError::TooShort { len: 0, min: SIGN_TEXT_MIN_LEN },
            ),
            trimmed(text@).len() > SIGN_TEXT_MAX_LEN ==> r == Err::<SignText, ValidatedStringError>(
                ValidatedStringError::TooLong {
                    len: trimmed(text@).len() as usize,
                    max: SIGN_TEXT_MAX_LEN,
                },
            ),
            SIGN_TEXT_MIN_LEN <= trimmed(text@).len() <= SIGN_TEXT_MAX_LEN ==> r is Ok
                && r->Ok_0@ == trimmed(text@),
    {
        match validate(text, true, SIGN_TEXT_MIN_LEN, SIGN_TEXT_MAX_LEN) {
            Ok(inner) => Ok(SignText { inner }),
            Err(error) => Err(error),
        }
    }

    /// The underlying string slice.
    pub fn as_str(&self) -> (r: &str)
        ensures
            r@ == self@,
    {
        self.inner.as_str()
    }
}

} // verus!
