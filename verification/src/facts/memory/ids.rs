//! The ids an in-memory store mints.
use vstd::prelude::*;
use vstd::string::*;

use crate::algebra::ordered::{Standing, TotalOrder};
use crate::facts::submit::{Commit, StoredFact, SubmitError, SubmitResult};
use crate::text::{decimal_digits, decimal_text};

verus! {

/// An entity id of an in-memory store, minted from its counter.
#[derive(Debug, Clone, Copy, PartialEq, Eq, PartialOrd, Ord, Hash, Structural)]
pub struct MemoryEntityId(pub u64);

impl View for MemoryEntityId {
    type V = u64;

    open spec fn view(&self) -> u64 {
        self.0
    }
}

impl TotalOrder for MemoryEntityId {
    open spec fn precedes(a: u64, b: u64) -> bool {
        a < b
    }

    proof fn irreflexive(a: u64) {
    }

    proof fn transitive(a: u64, b: u64, c: u64) {
    }

    proof fn total(a: u64, b: u64) {
    }

    proof fn clone_keeps_view(a: MemoryEntityId, b: MemoryEntityId) {
    }

    fn compare(&self, other: &Self) -> (r: Standing) {
        if self.0 < other.0 {
            Standing::Before
        } else if self.0 == other.0 {
            Standing::Same
        } else {
            Standing::After
        }
    }
}

impl MemoryEntityId {
    /// The id as text.
    pub fn to_string(&self) -> (r: String)
        ensures
            r@ == "entity-"@ + decimal_digits(self@ as nat),
    {
        let mut out = "entity-".to_owned();
        out.append(decimal_text(self.0).as_str());
        out
    }
}

/// A lifetime-event id of an in-memory store, minted from its counter.
#[derive(Debug, Clone, Copy, PartialEq, Eq, PartialOrd, Ord, Hash, Structural)]
pub struct MemoryEventId(pub u64);

impl View for MemoryEventId {
    type V = u64;

    open spec fn view(&self) -> u64 {
        self.0
    }
}

impl TotalOrder for MemoryEventId {
    open spec fn precedes(a: u64, b: u64) -> bool {
        a < b
    }

    proof fn irreflexive(a: u64) {
    }

    proof fn transitive(a: u64, b: u64, c: u64) {
    }

    proof fn total(a: u64, b: u64) {
    }

    proof fn clone_keeps_view(a: MemoryEventId, b: MemoryEventId) {
    }

    fn compare(&self, other: &Self) -> (r: Standing) {
        if self.0 < other.0 {
            Standing::Before
        } else if self.0 == other.0 {
            Standing::Same
        } else {
            Standing::After
        }
    }
}

impl MemoryEventId {
    /// The id as text.
    pub fn to_string(&self) -> (r: String)
        ensures
            r@ == "event-"@ + decimal_digits(self@ as nat),
    {
        let mut out = "event-".to_owned();
        out.append(decimal_text(self.0).as_str());
        out
    }
}

/// An image id of an in-memory store, minted from its counter.
#[derive(Debug, Clone, Copy, PartialEq, Eq, PartialOrd, Ord, Hash, Structural)]
pub struct MemoryImageId(pub u64);

impl View for MemoryImageId {
    type V = u64;

    open spec fn view(&self) -> u64 {
        self.0
    }
}

impl TotalOrder for MemoryImageId {
    open spec fn precedes(a: u64, b: u64) -> bool {
        a < b
    }

    proof fn irreflexive(a: u64) {
    }

    proof fn transitive(a: u64, b: u64, c: u64) {
    }

    proof fn total(a: u64, b: u64) {
    }

    proof fn clone_keeps_view(a: MemoryImageId, b: MemoryImageId) {
    }

    fn compare(&self, other: &Self) -> (r: Standing) {
        if self.0 < other.0 {
            Standing::Before
        } else if self.0 == other.0 {
            Standing::Same
        } else {
            Standing::After
        }
    }
}

impl MemoryImageId {
    /// The id as text.
    pub fn to_string(&self) -> (r: String)
        ensures
            r@ == "image-"@ + decimal_digits(self@ as nat),
    {
        let mut out = "image-".to_owned();
        out.append(decimal_text(self.0).as_str());
        out
    }
}

/// A fact as the store keeps it.
pub type MemStoredFact = StoredFact<MemoryEntityId, MemoryEventId, MemoryImageId>;

/// A commit handed to the store.
pub type MemCommit = Commit<MemoryEntityId, MemoryEventId, MemoryImageId>;

/// What a commit is answered.
pub type MemSubmitResult = SubmitResult<MemoryEntityId, MemoryEventId, MemoryImageId>;

/// Why a commit is turned down.
pub type MemSubmitError = SubmitError<MemoryEntityId, MemoryEventId, MemoryImageId>;

} // verus!
