//! What reads of the fact store give back.
use vstd::prelude::*;
use vstd::string::*;

use crate::algebra::ordered::{OrderedSet, TotalOrder};
use crate::date::TimeRange;
use crate::facts::ids::FactId;
use crate::facts::listing::GeoPoint;
use crate::facts::reference::ExternalReference;
use crate::facts::web::{Language, WebUrl};
use crate::text::{is_white, law_trim_ignores_white_around, trim, trimmed};

verus! {

/// One row of a page: a fact and the subject it was found under.
#[derive(Debug, PartialEq, Eq)]
pub struct PageItem<F, S> {
    /// The id of the fact.
    pub fact_id: FactId,
    /// The fact.
    pub fact: F,
    /// The subject, or what stands for its class.
    pub representative: S,
}

/// One page of a walk over facts.
#[derive(Debug, PartialEq, Eq)]
pub struct FactPage<F, S> {
    /// The rows, ascending by fact id.
    pub items: Vec<PageItem<F, S>>,
    /// Where the next page starts; `None` where there is none.
    pub next_cursor: Option<FactId>,
}

/// The ids of the rows of a page.
pub open spec fn row_ids<F, S>(items: Seq<PageItem<F, S>>) -> Seq<u64> {
    items.map_values(|item: PageItem<F, S>| item.fact_id@)
}

/// A class of subjects that stand for one thing.
#[derive(Debug)]
pub struct EquivClass<S: TotalOrder> {
    /// The member that stands for the class.
    pub representative: S,
    /// All members.
    pub members: OrderedSet<S>,
}

/// The part of a graph around a subject.
#[derive(Debug, PartialEq, Eq)]
pub struct EdgeSubgraph<S, F> {
    /// The subjects.
    pub subjects: Vec<S>,
    /// The facts that are its edges.
    pub edge_facts: Vec<F>,
    /// Whether there is more.
    pub truncated: bool,
}

// --- Streams ---

/// A stretch of the map between two corners.
#[derive(Debug, Clone, Copy, PartialEq)]
pub struct Bbox {
    /// The corner in the south-west.
    pub south_west: GeoPoint,
    /// The corner in the north-east.
    pub north_east: GeoPoint,
}

/// Which facts about entities a walk goes over.
#[derive(Debug, Clone, Copy)]
pub enum EntityStream<'q> {
    /// All of them.
    All,
    /// Those located in a stretch of the map.
    InBbox {
        /// The stretch.
        bbox: &'q Bbox,
    },
    /// Those dated in a time range.
    InTimeRange {
        /// The range.
        range: &'q TimeRange,
    },
    /// Those located and dated there.
    InBboxAndTimeRange {
        /// The stretch.
        bbox: &'q Bbox,
        /// The range.
        range: &'q TimeRange,
    },
    /// Those that name an entity so.
    ByName {
        /// The name, in any form.
        name: &'q str,
        /// Its language.
        language: &'q Language,
    },
    /// Those that refer an entity to this.
    ByExternalReference {
        /// The reference.
        reference: &'q ExternalReference,
    },
}

/// Which facts about events a walk goes over.
#[derive(Debug, Clone, Copy)]
pub enum EventStream<'q> {
    /// All of them.
    All,
    /// Those dated in a time range.
    InTimeRange {
        /// The range.
        range: &'q TimeRange,
    },
}

/// Which facts about images a walk goes over.
#[derive(Debug, Clone, Copy)]
pub enum ImageStream<'q> {
    /// All of them.
    All,
    /// Those located in a stretch of the map.
    InBbox {
        /// The stretch.
        bbox: &'q Bbox,
    },
    /// Those dated in a time range.
    InTimeRange {
        /// The range.
        range: &'q TimeRange,
    },
    /// Those located and dated there.
    InBboxAndTimeRange {
        /// The stretch.
        bbox: &'q Bbox,
        /// The range.
        range: &'q TimeRange,
    },
    /// Those that say where an image came from.
    BySourceUrl {
        /// The address.
        url: &'q WebUrl,
    },
}

// --- Names ---

/// A text in lower case.
pub uninterp spec fn lowercase(text: Seq<char>) -> Seq<char>;

/// A text in lower case.
///
/// Calls `str::to_lowercase`. Taken as given: the outcome depends on the text
/// alone.
#[verifier::external_body]
fn to_lowercase(text: &str) -> (r: String)
    ensures
        r@ == lowercase(text@),
{
    text.to_lowercase()
}

/// The form in which names are compared: without white space around it, and in
/// lower case.
pub open spec fn normalized(name: Seq<char>) -> Seq<char> {
    lowercase(trimmed(name))
}

/// The form in which names are compared.
pub fn normalize_name(name: &str) -> (r: String)
    ensures
        r@ == normalized(name@),
{
    let kept = trim(name);
    to_lowercase(kept.as_str())
}

/// White space around a name changes nothing: names are taken for the same with and
/// without it.
pub proof fn law_name_ignores_white_around(name: Seq<char>, w: char)
    requires
        is_white(w),
    ensures
        normalized(seq![w] + name) == normalized(name),
        normalized(name.push(w)) == normalized(name),
{
    law_trim_ignores_white_around(name, w);
}

} // verus!
