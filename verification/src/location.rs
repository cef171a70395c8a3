//! Places as sources name them, before anything resolves them to coordinates.
use vstd::prelude::*;

verus! {

/// A place named by a source.
#[derive(Debug, Clone, PartialEq, Eq, PartialOrd, Ord, Hash)]
pub enum LocationReference {
    /// A place known by name.
    NamedPlace {
        /// The name.
        name: String,
    },
}

/// A location that nothing has resolved yet.
#[derive(Debug, Clone, PartialEq, Eq, PartialOrd, Ord, Hash)]
pub enum UnresolvedLocation<EntId> {
    /// A place named by a source.
    Reference(LocationReference),
    /// Somewhere near an entity.
    NearEntity {
        /// The entity.
        entity: EntId,
    },
}

} // verus!
