//! Evidence and citation types.
//!
//! Types for tracking the provenance of claims about entities.
use std::collections::BTreeMap;

use vstd::prelude::*;
use vstd::string::*;

use crate::bits::{doubles_equal, same_double};
use crate::external_ids::{WikidataEntityId, WikidataPropertyId};
use crate::facts::web::WebUrl;
use crate::text::{decimal_digits, decimal_text};

verus! {

/// A value with its supporting evidence.
///
/// An empty list of evidence is a claim that nothing supports yet.
#[derive(Debug, Clone, PartialEq, Eq)]
pub struct Cited<T, S> {
    /// What is claimed.
    pub value: T,
    /// What supports the claim.
    pub evidence: Vec<Evidence<S>>,
}

impl<T, S> Cited<T, S> {
    /// A value with its evidence.
    pub fn new(value: T, evidence: Vec<Evidence<S>>) -> (r: Self)
        ensures
            r.value == value,
            r.evidence == evidence,
    {
        Cited { value, evidence }
    }

    /// Create a value without evidence (evidence can be added later).
    pub fn uncited(value: T) -> (r: Self)
        ensures
            r.value == value,
            r.evidence@ == Seq::<Evidence<S>>::empty(),
    {
        Cited { value, evidence: Vec::new() }
    }

    /// Map the inner value while preserving evidence.
    pub fn map<U, F: FnOnce(T) -> U>(self, f: F) -> (r: Cited<U, S>)
        requires
            call_requires(f, (self.value,)),
        ensures
            call_ensures(f, (self.value,), r.value),
            r.evidence == self.evidence,
    {
        Cited { value: f(self.value), evidence: self.evidence }
    }
}

/// RLE-encoded binary mask (COCO compressed string format).
#[derive(Debug, Clone, PartialEq, Eq)]
pub struct RleMask {
    /// Compressed run lengths as COCO string (modified LEB128, +48 ASCII
    /// offset). Alternates background/foreground; first run is always
    /// background.
    pub counts: String,
}

/// Evidence supporting a claim about an entity.
///
/// The `Source` variant refers to an image, map, or document of this system;
/// the others refer to external systems with their own identifiers.
#[derive(Debug, Clone, PartialEq, Eq)]
pub enum Evidence<S> {
    /// Evidence from a source in our system (image, map, or document).
    Source {
        /// The source.
        source_id: S,
        /// What kind of source, and where in it.
        detail: SourceDetail,
    },
    /// Evidence from a web page.
    Web {
        /// The page.
        source_url: WebUrl,
        /// The passage that supports the claim.
        excerpt: Option<String>,
    },
    /// Evidence from `DBpedia`.
    Dbpedia {
        /// `DBpedia` version (e.g., "2022.12.01").
        version: String,
        /// The `DBpedia` resource URI.
        resource_uri: WebUrl,
        /// Properties and their values that support this claim.
        properties: BTreeMap<String, String>,
    },
    /// Evidence from Wikidata.
    Wikidata {
        /// The entity that bears the statement.
        entity_id: WikidataEntityId,
        /// The property of the statement.
        property_id: WikidataPropertyId,
        /// The property value as it appears in Wikidata.
        property_value: String,
        /// Entity revision ID for permalink construction.
        revision_id: u64,
    },
}

/// Detail for source evidence: what kind of source and per-type metadata.
#[derive(Debug, Clone, PartialEq, Eq)]
pub enum SourceDetail {
    /// Photographic image evidence.
    Image {
        /// Where in the image.
        region: Option<ImageRegion>,
    },
    /// Historical map evidence.
    HistoricalMap {
        /// Where on the map.
        region: Option<ImageRegion>,
    },
    /// Document evidence (book, article, report, etc.).
    Document {
        /// The passage that supports the claim.
        excerpt: Option<String>,
        /// The page it stands on.
        page_number: Option<i32>,
    },
}

/// Dimensions of a binary mask; neither is zero.
#[derive(Debug, Clone, Copy, PartialEq, Eq, Structural)]
pub struct MaskDimensions {
    height: u32,
    width: u32,
}

impl MaskDimensions {
    /// Rows and columns.
    pub closed spec fn extent(self) -> (u32, u32) {
        (self.height, self.width)
    }

    /// Neither number is zero.
    #[verifier::type_invariant]
    spec fn positive(self) -> bool {
        self.height > 0 && self.width > 0
    }

    /// Dimensions; `None` where one is zero.
    pub fn new(height: u32, width: u32) -> (r: Option<Self>)
        ensures
            r is Some <==> height > 0 && width > 0,
            r is Some ==> r->0.extent() == (height, width),
    {
        if height == 0 || width == 0 {
            return None;
        }
        Some(MaskDimensions { height, width })
    }

    /// How many rows.
    pub fn height(&self) -> (r: u32)
        ensures
            r == self.extent().0,
            r > 0,
    {
        proof {
            use_type_invariant(self);
        }
        self.height
    }

    /// How many columns.
    pub fn width(&self) -> (r: u32)
        ensures
            r == self.extent().1,
            r > 0,
    {
        proof {
            use_type_invariant(self);
        }
        self.width
    }
}

/// Region within an image (for images and maps).
#[derive(Debug, Clone, PartialEq, Eq)]
pub struct ImageRegion {
    /// Compressed RLE mask.
    pub mask: RleMask,
    /// Dimensions of the mask.
    pub size: MaskDimensions,
}

/// A point in pixel coordinates, each held as the bits of a double-precision
/// number. Points are compared as numbers are.
#[derive(Debug, Clone, Copy)]
pub struct PixelPoint {
    /// The bits of the horizontal coordinate.
    pub x: u64,
    /// The bits of the vertical coordinate.
    pub y: u64,
}

impl PixelPoint {
    /// Whether the coordinates of two points are equal numbers.
    pub open spec fn coincides(self, other: PixelPoint) -> bool {
        doubles_equal(self.x, other.x) && doubles_equal(self.y, other.y)
    }
}

impl PartialEq for PixelPoint {
    fn eq(&self, other: &Self) -> (r: bool) {
        same_double(self.x, other.x) && same_double(self.y, other.y)
    }
}

impl vstd::std_specs::cmp::PartialEqSpecImpl for PixelPoint {
    open spec fn obeys_eq_spec() -> bool {
        true
    }

    open spec fn eq_spec(&self, other: &Self) -> bool {
        self.coincides(*other)
    }
}

/// A polyline defined by a sequence of at least two points.
///
/// Used for linear spatial features like roads, paths, or boundaries
/// that are better represented as lines than masks. Polylines are compared point by
/// point.
#[derive(Debug)]
pub struct Polyline {
    points: Vec<PixelPoint>,
}

/// Errors from polyline construction.
#[derive(Debug, Clone, Copy, PartialEq, Eq, Structural)]
pub enum PolylineError {
    /// A polyline requires at least 2 points.
    TooFewPoints {
        /// How many there were.
        count: usize,
    },
}

impl PolylineError {
    /// What the error says.
    pub open spec fn says(self) -> Seq<char> {
        match self {
            PolylineError::TooFewPoints { count } => "polyline requires at least 2 points, got "@
                + decimal_digits(count as nat),
        }
    }

    /// What the error says.
    pub fn to_string(&self) -> (r: String)
        ensures
            r@ == self.says(),
            (*self matches PolylineError::TooFewPoints { count } ==> r@
                == "polyline requires at least 2 points, got "@ + decimal_digits(count as nat)),
    {
        match self {
            PolylineError::TooFewPoints { count } => {
                let mut out = "polyline requires at least 2 points, got ".to_owned();
                out.append(decimal_text(*count as u64).as_str());
                out
            },
        }
    }
}

impl View for Polyline {
    type V = Seq<PixelPoint>;

    closed spec fn view(&self) -> Seq<PixelPoint> {
        self.points@
    }
}

/// Whether two sequences of points coincide, point by point.
pub open spec fn lines_coincide(a: Seq<PixelPoint>, b: Seq<PixelPoint>) -> bool {
    &&& a.len() == b.len()
    &&& forall|i: int| 0 <= i < a.len() ==> (#[trigger] a[i]).coincides(b[i])
}

impl PartialEq for Polyline {
    fn eq(&self, other: &Self) -> (r: bool) {
        if self.points.len() != other.points.len() {
            return false;
        }
        let mut i: usize = 0;
        while i < self.points.len()
            invariant
                i <= self.points@.len(),
                self.points@.len() == other.points@.len(),
                forall|k: int| 0 <= k < i ==> (#[trigger] self@[k]).coincides(other@[k]),
            decreases self.points.len() - i,
        {
            if self.points[i] != other.points[i] {
                assert(!self@[i as int].coincides(other@[i as int]));
                return false;
            }
            i += 1;
        }
        true
    }
}

impl vstd::std_specs::cmp::PartialEqSpecImpl for Polyline {
    open spec fn obeys_eq_spec() -> bool {
        true
    }

    open spec fn eq_spec(&self, other: &Self) -> bool {
        lines_coincide(self@, other@)
    }
}

impl Clone for Polyline {
    fn clone(&self) -> (r: Self)
        ensures
            r@ == self@,
    {
        proof {
            use_type_invariant(self);
        }
        let points = self.points.clone();
        assert(points@ =~= self.points@);
        Polyline { points }
    }
}

impl Polyline {
    /// There are two points or more.
    #[verifier::type_invariant]
    spec fn drawn(self) -> bool {
        self.points@.len() >= 2
    }

    /// Create a new polyline from a sequence of points.
    ///
    /// Returns `Err(PolylineError::TooFewPoints)` if fewer than 2 points are
    /// provided.
    pub fn new(points: Vec<PixelPoint>) -> (r: Result<Self, PolylineError>)
        ensures
            points@.len() < 2 ==> r == Err::<Polyline, PolylineError>(
                PolylineError::TooFewPoints { count: points@.len() as usize },
            ),
            points@.len() >= 2 ==> r is Ok && r->Ok_0@ == points@,
    {
        if points.len() < 2 {
            return Err(PolylineError::TooFewPoints { count: points.len() });
        }
        Ok(Polyline { points })
    }

    /// The points making up this polyline; at least two.
    pub fn points(&self) -> (r: &[PixelPoint])
        ensures
            r@ == self@,
            r@.len() >= 2,
    {
        proof {
            use_type_invariant(self);
        }
        self.points.as_slice()
    }
}

/// Spatial geometry for annotations: either a mask or a polyline.
#[derive(Debug, Clone, PartialEq)]
pub enum SpatialGeometry {
    /// Region mask (from segmentation or manual annotation).
    Mask(ImageRegion),
    /// Polyline trace (for roads, paths, boundaries).
    Polyline(Polyline),
}

/// Points coincide where both coordinates do, and lines where all their points do, one
/// by one.
pub proof fn law_coincidence_is_by_coordinates(p: PixelPoint, q: PixelPoint)
    ensures
        p.coincides(q) <==> doubles_equal(p.x, q.x) && doubles_equal(p.y, q.y),
        p.coincides(q) <==> q.coincides(p),
        lines_coincide(seq![p], seq![q]) <==> p.coincides(q),
{
    if p.coincides(q) {
        assert(lines_coincide(seq![p], seq![q]));
    }
    if lines_coincide(seq![p], seq![q]) {
        assert(seq![p][0].coincides(seq![q][0]));
    }
}

/// A line with one more point coincides with another with one more where the lines and
/// the last points do, and lines of different lengths never do.
pub proof fn law_longer_lines_coincide(
    a: Seq<PixelPoint>,
    b: Seq<PixelPoint>,
    p: PixelPoint,
    q: PixelPoint,
)
    ensures
        lines_coincide(a.push(p), b.push(q)) <==> lines_coincide(a, b) && p.coincides(q),
        a.len() != b.len() ==> !lines_coincide(a, b),
{
    if lines_coincide(a.push(p), b.push(q)) {
        assert forall|i: int| 0 <= i < a.len() implies (#[trigger] a[i]).coincides(b[i]) by {
            assert(a.push(p)[i].coincides(b.push(q)[i]));
        }
        assert(a.push(p)[a.len() as int].coincides(b.push(q)[b.len() as int]));
    }
}

} // verus!
