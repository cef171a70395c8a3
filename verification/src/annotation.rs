//! Annotation types for connecting entities to sources.
//!
//! Annotations link entities to regions within images, maps, and documents.
use vstd::prelude::*;

use crate::evidence::{ImageRegion, SpatialGeometry};

verus! {

/// What kind of annotation this is, with per-variant geometry.
///
/// Each variant carries only the fields that make sense for that annotation
/// type.
#[derive(Debug, Clone, PartialEq)]
pub enum AnnotationKind {
    /// Spatial outline traced on a map (building footprint, property boundary,
    /// road/path, etc.)
    SpatialTrace {
        /// Geometry of the trace (mask or polyline). `None` if not yet traced.
        geometry: Option<SpatialGeometry>,
    },
    /// Entity exterior visible in photo/painting, used for photogrammetry.
    ExteriorView {
        /// Region where the entity exterior appears. `None` if not yet
        /// delineated.
        region: Option<ImageRegion>,
    },
    /// Entity interior visible in photo.
    InteriorView {
        /// Region where the entity interior appears. `None` if not yet
        /// delineated.
        region: Option<ImageRegion>,
    },
    /// Text region on map/photo containing information about an entity.
    TextualNote {
        /// Region containing the text. `None` if not yet delineated.
        region: Option<ImageRegion>,
        /// Text extracted from the region.
        extracted_text: Option<String>,
    },
}

/// An annotation connecting an entity to a region in a source.
#[derive(Debug, Clone)]
pub struct Annotation<SourceRef, EntityRef> {
    /// The source that shows the entity.
    pub source: SourceRef,
    /// The entity.
    pub entity: EntityRef,
    /// What the source shows of it.
    pub kind: AnnotationKind,
}

} // verus!
