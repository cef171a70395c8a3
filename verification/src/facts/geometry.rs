//! Geometry primitives referenced by depiction and feature facts.
//!
//! Coordinates are held as the bits of IEEE 754 single-precision numbers: the
//! lower thirty-one bits give the magnitude, and for finite numbers of one sign
//! the greater magnitude has the greater bits.
use vstd::prelude::*;

use crate::bits::{same_single, singles_equal, SINGLE_INFINITY, SINGLE_SIGN};
use crate::evidence::Polyline;

verus! {

/// Run-length-encoded binary mask in the COCO compressed-string format.
#[derive(Debug, Clone, PartialEq, Eq, PartialOrd, Ord, Hash)]
pub struct RleMask {
    /// Compressed run-length bytes, COCO format.
    pub counts: String,
}

// --- Bits of single-precision numbers ---

/// The bits of one.
pub const ONE: u32 = 0x3f80_0000;

/// The bits without the sign.
pub open spec fn magnitude(bits: u32) -> u32 {
    bits % SINGLE_SIGN
}

/// Whether the number is finite.
pub open spec fn is_finite(bits: u32) -> bool {
    magnitude(bits) < SINGLE_INFINITY
}

/// Whether the number is less than zero; a negative zero is not.
pub open spec fn is_below_zero(bits: u32) -> bool {
    bits >= SINGLE_SIGN && magnitude(bits) > 0
}

/// Whether the number is zero or less.
pub open spec fn is_zero_or_below(bits: u32) -> bool {
    bits >= SINGLE_SIGN || magnitude(bits) == 0
}

/// Whether the number is greater than one.
pub open spec fn exceeds_one(bits: u32) -> bool {
    ONE < bits <= SINGLE_INFINITY
}

/// The number with a negative zero made positive.
pub open spec fn unsigned_zero(bits: u32) -> u32 {
    if bits == SINGLE_SIGN {
        0
    } else {
        bits
    }
}

/// [`unsigned_zero`] of a number.
fn without_negative_zero(bits: u32) -> (r: u32)
    ensures
        r == unsigned_zero(bits),
{
    if bits == SINGLE_SIGN {
        0
    } else {
        bits
    }
}

// --- ProportionalRect ---

/// An axis-aligned proportional rectangle in `0.0..=1.0` coordinates.
///
/// Every coordinate is finite, the origin is not negative and free of negative
/// zero, and the extents are positive. So equal rectangles have equal bits, and
/// comparing the bits in field order orders the rectangles by `x`, `y`,
/// `width` and `height`.
#[derive(Debug, Clone, Copy, PartialEq, Eq, PartialOrd, Ord, Hash, Structural)]
pub struct ProportionalRect {
    x: u32,
    y: u32,
    width: u32,
    height: u32,
}

/// Errors from [`ProportionalRect::new`]; coordinates as bits. Errors are compared as
/// the numbers in them are.
#[derive(Debug, Clone, Copy)]
pub enum ProportionalRectError {
    /// One or more coordinates were not finite (`NaN` or infinite).
    NotFinite,
    /// The origin had a negative component.
    NegativeOrigin { x: u32, y: u32 },
    /// The width or height was zero or negative.
    NonPositiveExtent { width: u32, height: u32 },
    /// The rectangle extended beyond the unit square's `0.0..=1.0` range.
    OutOfBounds { x: u32, y: u32, width: u32, height: u32 },
}

impl ProportionalRectError {
    /// Whether two errors are of one kind, with equal numbers.
    pub open spec fn agrees(self, other: ProportionalRectError) -> bool {
        match (self, other) {
            (ProportionalRectError::NotFinite, ProportionalRectError::NotFinite) => true,
            (
                ProportionalRectError::NegativeOrigin { x: a, y: b },
                ProportionalRectError::NegativeOrigin { x: c, y: d },
            ) => singles_equal(a, c) && singles_equal(b, d),
            (
                ProportionalRectError::NonPositiveExtent { width: a, height: b },
                ProportionalRectError::NonPositiveExtent { width: c, height: d },
            ) => singles_equal(a, c) && singles_equal(b, d),
            (
                ProportionalRectError::OutOfBounds { x: a, y: b, width: w, height: h },
                ProportionalRectError::OutOfBounds { x: c, y: d, width: v, height: g },
            ) => singles_equal(a, c) && singles_equal(b, d) && singles_equal(w, v)
                && singles_equal(h, g),
            _ => false,
        }
    }
}

impl PartialEq for ProportionalRectError {
    fn eq(&self, other: &Self) -> (r: bool) {
        match (*self, *other) {
            (ProportionalRectError::NotFinite, ProportionalRectError::NotFinite) => true,
            (
                ProportionalRectError::NegativeOrigin { x: a, y: b },
                ProportionalRectError::NegativeOrigin { x: c, y: d },
            ) => same_single(a, c) && same_single(b, d),
            (
                ProportionalRectError::NonPositiveExtent { width: a, height: b },
                ProportionalRectError::NonPositiveExtent { width: c, height: d },
            ) => same_single(a, c) && same_single(b, d),
            (
                ProportionalRectError::OutOfBounds { x: a, y: b, width: w, height: h },
                ProportionalRectError::OutOfBounds { x: c, y: d, width: v, height: g },
            ) => same_single(a, c) && same_single(b, d) && same_single(w, v) && same_single(h, g),
            _ => false,
        }
    }
}

impl vstd::std_specs::cmp::PartialEqSpecImpl for ProportionalRectError {
    open spec fn obeys_eq_spec() -> bool {
        true
    }

    open spec fn eq_spec(&self, other: &Self) -> bool {
        self.agrees(*other)
    }
}

/// What is wrong with a rectangle; `right` is the bits of `x + width`, `bottom`
/// those of `y + height`.
pub open spec fn rect_fault(
    x: u32,
    y: u32,
    width: u32,
    height: u32,
    right: u32,
    bottom: u32,
) -> Option<ProportionalRectError> {
    if !(is_finite(x) && is_finite(y) && is_finite(width) && is_finite(height)) {
        Some(ProportionalRectError::NotFinite)
    } else if is_below_zero(x) || is_below_zero(y) {
        Some(ProportionalRectError::NegativeOrigin { x, y })
    } else if is_zero_or_below(width) || is_zero_or_below(height) {
        Some(ProportionalRectError::NonPositiveExtent { width, height })
    } else if exceeds_one(right) || exceeds_one(bottom) {
        Some(ProportionalRectError::OutOfBounds { x, y, width, height })
    } else {
        None
    }
}

/// Whether the number is finite.
fn finite(bits: u32) -> (r: bool)
    ensures
        r == is_finite(bits),
{
    bits % SINGLE_SIGN < SINGLE_INFINITY
}

impl ProportionalRect {
    /// The bits of `x`, `y`, `width` and `height`.
    pub closed spec fn bits(self) -> (u32, u32, u32, u32) {
        (self.x, self.y, self.width, self.height)
    }

    /// Whether the coordinates are finite, the origin not negative and without
    /// negative zero, and the extents positive.
    #[verifier::type_invariant]
    spec fn proper(self) -> bool {
        &&& self.x < SINGLE_INFINITY
        &&& self.y < SINGLE_INFINITY
        &&& 0 < self.width < SINGLE_INFINITY
        &&& 0 < self.height < SINGLE_INFINITY
    }

    /// Construct a proportional rect. Bounds must satisfy `0.0 <= x`,
    /// `0.0 <= y`, `width > 0`, `height > 0`, `x + width <= 1.0`, and
    /// `y + height <= 1.0`, with all four components finite. `right` holds the
    /// bits of `x + width`, `bottom` those of `y + height`.
    ///
    /// `-0.0` is normalized to `+0.0`.
    pub fn new(x: u32, y: u32, width: u32, height: u32, right: u32, bottom: u32) -> (r: Result<
        Self,
        ProportionalRectError,
    >)
        ensures
            match rect_fault(x, y, width, height, right, bottom) {
                Some(error) => r == Err::<ProportionalRect, ProportionalRectError>(error),
                None => r is Ok && r->Ok_0.bits() == (
                    unsigned_zero(x),
                    unsigned_zero(y),
                    width,
                    height,
                ),
            },
    {
        if !(finite(x) && finite(y) && finite(width) && finite(height)) {
            return Err(ProportionalRectError::NotFinite);
        }
        if x > SINGLE_SIGN || y > SINGLE_SIGN {
            return Err(ProportionalRectError::NegativeOrigin { x, y });
        }
        if width >= SINGLE_SIGN || width == 0 || height >= SINGLE_SIGN || height == 0 {
            return Err(ProportionalRectError::NonPositiveExtent { width, height });
        }
        if (ONE < right && right <= SINGLE_INFINITY) || (ONE < bottom && bottom <= SINGLE_INFINITY) {
            return Err(ProportionalRectError::OutOfBounds { x, y, width, height });
        }
        Ok(
            ProportionalRect {
                x: without_negative_zero(x),
                y: without_negative_zero(y),
                width,
                height,
            },
        )
    }

    /// The bits of the horizontal origin.
    pub fn x(&self) -> (r: u32)
        ensures
            r == self.bits().0,
            is_finite(r) && !is_below_zero(r),
    {
        proof {
            use_type_invariant(self);
        }
        self.x
    }

    /// The bits of the vertical origin.
    pub fn y(&self) -> (r: u32)
        ensures
            r == self.bits().1,
            is_finite(r) && !is_below_zero(r),
    {
        proof {
            use_type_invariant(self);
        }
        self.y
    }

    /// The bits of the width.
    pub fn width(&self) -> (r: u32)
        ensures
            r == self.bits().2,
            is_finite(r) && !is_zero_or_below(r),
    {
        proof {
            use_type_invariant(self);
        }
        self.width
    }

    /// The bits of the height.
    pub fn height(&self) -> (r: u32)
        ensures
            r == self.bits().3,
            is_finite(r) && !is_zero_or_below(r),
    {
        proof {
            use_type_invariant(self);
        }
        self.height
    }
}

/// A negative zero in the origin is invisible: it passes and fails with the
/// positive zero, and the rectangle that comes of it is the same.
pub proof fn law_negative_zero_is_invisible(
    x: u32,
    y: u32,
    width: u32,
    height: u32,
    right: u32,
    bottom: u32,
)
    ensures
        rect_fault(x, y, width, height, right, bottom) is None <==> rect_fault(
            unsigned_zero(x),
            unsigned_zero(y),
            width,
            height,
            right,
            bottom,
        ) is None,
        unsigned_zero(unsigned_zero(x)) == unsigned_zero(x),
        unsigned_zero(SINGLE_SIGN) == unsigned_zero(0),
{
}

// --- Regions ---

/// A region within an image, anchored to its parent image.
#[derive(Debug, Clone, PartialEq, Eq, PartialOrd, Ord, Hash)]
pub enum ImageRegion {
    /// Pixel-precise binary mask whose grid matches the parent image's.
    Mask {
        /// The run-length-encoded binary mask.
        mask: RleMask,
    },
    /// Axis-aligned proportional bounding box in `0.0..=1.0` coordinates.
    BBox {
        /// The proportional bounding rectangle.
        rect: ProportionalRect,
    },
}

impl ImageRegion {
    /// Construct an axis-aligned proportional bbox. See
    /// [`ProportionalRect::new`] for the arguments and the validation rules.
    pub fn bbox(x: u32, y: u32, width: u32, height: u32, right: u32, bottom: u32) -> (r: Result<
        Self,
        ProportionalRectError,
    >)
        ensures
            match rect_fault(x, y, width, height, right, bottom) {
                Some(error) => r == Err::<ImageRegion, ProportionalRectError>(error),
                None => r is Ok && r->Ok_0 is BBox && r->Ok_0->rect.bits() == (
                    unsigned_zero(x),
                    unsigned_zero(y),
                    width,
                    height,
                ),
            },
    {
        match ProportionalRect::new(x, y, width, height, right, bottom) {
            Ok(rect) => Ok(ImageRegion::BBox { rect }),
            Err(error) => Err(error),
        }
    }
}

/// Spatial geometry attached to a map-bearing depiction fact.
///
/// Either an image region (mask or bbox) or a polyline trace.
#[derive(Debug, Clone, PartialEq)]
pub enum SpatialGeometry {
    /// Image region: mask or bbox.
    Region {
        /// The image region (mask or bbox).
        region: ImageRegion,
    },
    /// Polyline trace, for roads, paths, or boundaries.
    Polyline {
        /// The polyline trace.
        polyline: Polyline,
    },
}

/// Which rectangles are accepted, by the bits of the numbers: an origin that is zero of
/// either sign or positive, a positive extent, all of them finite, and edges that do not
/// exceed one. Infinity and one are the bits of these numbers.
pub proof fn law_rectangle_accepted_exactly(
    x: u32,
    y: u32,
    width: u32,
    height: u32,
    right: u32,
    bottom: u32,
)
    ensures
        rect_fault(x, y, width, height, right, bottom) is None <==> {
            &&& x < 0x7f80_0000 || x == 0x8000_0000
            &&& y < 0x7f80_0000 || y == 0x8000_0000
            &&& 0 < width < 0x7f80_0000
            &&& 0 < height < 0x7f80_0000
            &&& !(0x3f80_0000 < right <= 0x7f80_0000)
            &&& !(0x3f80_0000 < bottom <= 0x7f80_0000)
        },
{
}

/// Which fault a rectangle is refused for: that a number is not finite before that the
/// origin is negative, that before an extent which is not positive, and that before the
/// edges.
pub proof fn law_rectangle_refused_for(
    x: u32,
    y: u32,
    width: u32,
    height: u32,
    right: u32,
    bottom: u32,
)
    ensures
        ({
            let fault = rect_fault(x, y, width, height, right, bottom);
            let finite = x % 0x8000_0000 < 0x7f80_0000 && y % 0x8000_0000 < 0x7f80_0000 && width
                % 0x8000_0000 < 0x7f80_0000 && height % 0x8000_0000 < 0x7f80_0000;
            let negative = x > 0x8000_0000 || y > 0x8000_0000;
            let flat = width == 0 || width >= 0x8000_0000 || height == 0 || height >= 0x8000_0000;
            &&& fault == Some(ProportionalRectError::NotFinite) <==> !finite
            &&& fault == Some((ProportionalRectError::NegativeOrigin { x, y })) <==> finite
                && negative
            &&& fault == Some((ProportionalRectError::NonPositiveExtent { width, height }))
                <==> finite && !negative && flat
            &&& fault == Some((ProportionalRectError::OutOfBounds { x, y, width, height }))
                <==> finite && !negative && !flat && (0x3f80_0000 < right <= 0x7f80_0000
                || 0x3f80_0000 < bottom <= 0x7f80_0000)
        }),
{
}

/// An accepted origin is stored as it is, save that a negative zero is stored as zero.
pub proof fn law_stored_origin(bits: u32)
    ensures
        bits != 0x8000_0000 ==> unsigned_zero(bits) == bits,
        bits == 0x8000_0000 ==> unsigned_zero(bits) == 0,
        singles_equal(bits, bits) ==> singles_equal(unsigned_zero(bits), bits),
{
}

/// Two faults agree where they are of one kind and name the same numbers, and never
/// where they are of different kinds.
pub proof fn law_faults_agree_by_kind_and_numbers(
    a: ProportionalRectError,
    b: ProportionalRectError,
)
    ensures
        a.agrees(b) <==> b.agrees(a),
        a.agrees(b) ==> {
            &&& a is NotFinite <==> b is NotFinite
            &&& a is NegativeOrigin <==> b is NegativeOrigin
            &&& a is NonPositiveExtent <==> b is NonPositiveExtent
            &&& a is OutOfBounds <==> b is OutOfBounds
        },
        a is NotFinite && b is NotFinite ==> a.agrees(b),
        (a matches ProportionalRectError::NegativeOrigin { x, y } ==> (b matches
            ProportionalRectError::NegativeOrigin { x: v, y: w } ==> (a.agrees(b)
            <==> singles_equal(x, v) && singles_equal(y, w)))),
        (a matches ProportionalRectError::NonPositiveExtent { width, height } ==> (b matches
            ProportionalRectError::NonPositiveExtent { width: v, height: w } ==> (a.agrees(b)
            <==> singles_equal(width, v) && singles_equal(height, w)))),
        (a matches ProportionalRectError::OutOfBounds { x, y, width, height } ==> (b matches
            ProportionalRectError::OutOfBounds { x: s, y: t, width: v, height: w } ==> (a.agrees(b)
            <==> singles_equal(x, s) && singles_equal(y, t) && singles_equal(width, v)
            && singles_equal(height, w)))),
{
}

} // verus!
