//! Buildings, infrastructure and other places, and what happens to them.
use vstd::prelude::*;
use vstd::string::*;

use std::collections::BTreeSet;

use crate::date::UncertainDate;
use crate::evidence::{Cited, Evidence};
use crate::external_ids::TriggerEventId;
use crate::facts::web::LanguageTag;
use crate::location::UnresolvedLocation;
#[allow(unused_imports)]
use crate::text::{has_prefix, starts_with};

verus! {

/// A building, a piece of infrastructure, a natural feature, or an area.
///
/// `E` refers to entities, `S` to sources.
#[derive(Debug, Clone, PartialEq, Eq)]
pub struct Entity<E, S> {
    /// Its names.
    pub names: Vec<Cited<EntityName, S>>,
    /// What happened to it.
    pub transitions: Vec<EntityTransition<E, S>>,
}

/// The position of the first name whose language starts with `prefix`, among
/// those from position `from` on.
pub open spec fn first_in_language<S>(
    names: Seq<Cited<EntityName, S>>,
    prefix: Seq<char>,
    from: int,
) -> Option<int>
    decreases names.len() - from,
{
    if from < 0 || from >= names.len() {
        None
    } else if starts_with(names[from].value.language@, prefix) {
        Some(from)
    } else {
        first_in_language(names, prefix, from + 1)
    }
}

impl<E, S> Entity<E, S> {
    /// Pick the best display name: prefer names whose language tag starts with
    /// `lang_prefix`, fall back to first available.
    pub fn best_name(&self, lang_prefix: &str) -> (r: Option<&str>)
        ensures
            r is Some <==> self.names@.len() > 0,
            r is Some ==> r->0@ == match first_in_language(self.names@, lang_prefix@, 0) {
                Some(i) => self.names@[i].value.name@,
                None => self.names@[0].value.name@,
            },
    {
        let mut i: usize = 0;
        while i < self.names.len()
            invariant
                i <= self.names@.len(),
                first_in_language(self.names@, lang_prefix@, 0) == first_in_language(
                    self.names@,
                    lang_prefix@,
                    i as int,
                ),
            decreases self.names.len() - i,
        {
            if has_prefix(self.names[i].value.language.as_str(), lang_prefix) {
                return Some(self.names[i].value.name.as_str());
            }
            i += 1;
        }
        if self.names.len() > 0 {
            Some(self.names[0].value.name.as_str())
        } else {
            None
        }
    }
}

/// A name for an entity with temporal validity.
#[derive(Debug, Clone, PartialEq, Eq)]
pub struct EntityName {
    /// The name.
    pub name: String,
    /// What kind of name it is.
    pub name_type: NameType,
    /// Its language.
    pub language: LanguageTag,
    /// Since when the name was used.
    pub valid_from: Option<UncertainDate>,
    /// Until when the name was used.
    pub valid_to: Option<UncertainDate>,
}

/// What kind of name a name is.
#[derive(Debug, Clone, Copy, PartialEq, Eq, PartialOrd, Ord, Hash, Structural)]
pub enum NameType {
    /// The official name.
    Official,
    /// The name in common use.
    Common,
    /// A name that is no longer in use.
    Historical,
}

/// What a building or structure is used for.
///
/// An empty set of usages stands for closure or vacancy.
#[derive(Debug, Clone, PartialEq, Eq, PartialOrd, Ord, Hash)]
pub enum Usage {
    /// In use but purpose unknown.
    Unknown,
    /// Barns, silos, granaries.
    Agricultural,
    /// Shops, offices, warehouses.
    Commercial,
    /// Museums, theaters, galleries.
    Cultural,
    /// Schools, universities, libraries.
    Educational,
    /// Hospitals, clinics.
    Healthcare,
    /// Factories, plants, mills.
    Industrial,
    /// Utilities, water treatment, power.
    Infrastructure,
    /// Government buildings, courthouses.
    Institutional,
    /// Bases, fortifications.
    Military,
    /// Parks, stadiums, pools.
    Recreational,
    /// Churches, mosques, temples.
    Religious,
    /// Apartments, houses, dormitories.
    Residential,
    /// Stations, airports, ports.
    Transportation,
    /// Other use with freeform description.
    Other {
        /// The description.
        description: String,
    },
}

/// Cause of damage to a structure.
#[derive(Debug, Clone, PartialEq, Eq)]
pub enum DamageCause {
    /// An earthquake.
    Earthquake,
    /// A fire.
    Fire,
    /// A flood.
    Flood,
    /// Neglect.
    Neglect,
    /// A failure of the structure itself.
    StructuralFailure,
    /// Vandalism.
    Vandalism,
    /// War.
    War,
    /// Weather.
    Weather,
    /// Another cause.
    Other {
        /// The description.
        description: String,
    },
}

/// Method used to move a structure.
#[derive(Debug, Clone, Copy, PartialEq, Eq, Structural)]
pub enum MoveMethod {
    /// Taken apart and put together again at the new location.
    Disassembled,
    /// Moved intact.
    Whole,
}

/// A significant change in the life of an entity.
///
/// A date or location that is `None` is unknown.
#[derive(Debug, Clone, PartialEq, Eq)]
pub enum EntityTransition<E, S> {
    /// The entity was built.
    Constructed {
        /// When work began.
        started_at: Option<Cited<UncertainDate, S>>,
        /// When work ended.
        completed_at: Option<Cited<UncertainDate, S>>,
        /// Where it was built.
        location: Option<Cited<UnresolvedLocation<E>, S>>,
        /// What set it off.
        trigger_event: Option<TriggerEventId>,
    },
    /// The entity was changed.
    Modified {
        /// When work began.
        started_at: Option<Cited<UncertainDate, S>>,
        /// When work ended.
        completed_at: Option<Cited<UncertainDate, S>>,
        /// What was done.
        description: Option<String>,
        /// What set it off.
        trigger_event: Option<TriggerEventId>,
    },
    /// The entity was damaged.
    Damaged {
        /// When.
        occurred_at: Option<Cited<UncertainDate, S>>,
        /// By what.
        cause: Option<DamageCause>,
        /// How.
        description: Option<String>,
        /// What set it off.
        trigger_event: Option<TriggerEventId>,
    },
    /// The entity was repaired.
    Repaired {
        /// When work began.
        started_at: Option<Cited<UncertainDate, S>>,
        /// When work ended.
        completed_at: Option<Cited<UncertainDate, S>>,
        /// What was done.
        description: Option<String>,
        /// What set it off.
        trigger_event: Option<TriggerEventId>,
    },
    /// The entity was moved.
    Moved {
        /// When.
        occurred_at: Option<Cited<UncertainDate, S>>,
        /// Where to.
        location: Option<Cited<UnresolvedLocation<E>, S>>,
        /// Why.
        cause: Option<String>,
        /// How.
        method: Option<MoveMethod>,
        /// What set it off.
        trigger_event: Option<TriggerEventId>,
    },
    /// The entity was torn down.
    Demolished {
        /// When work began.
        started_at: Option<Cited<UncertainDate, S>>,
        /// When work ended.
        completed_at: Option<Cited<UncertainDate, S>>,
        /// Why.
        cause: Option<String>,
        /// What set it off.
        trigger_event: Option<TriggerEventId>,
    },
    /// The use of the entity changed.
    UsageModified {
        /// When.
        occurred_at: Option<Cited<UncertainDate, S>>,
        /// What it was used for from then on.
        new_usages: BTreeSet<Usage>,
        /// More about it.
        description: Option<String>,
        /// What set it off.
        trigger_event: Option<TriggerEventId>,
    },
    /// The entity was given a designation.
    Designated {
        /// When.
        occurred_at: Option<Cited<UncertainDate, S>>,
        /// Which.
        designation: String,
        /// More about it.
        description: Option<String>,
        /// What set it off.
        trigger_event: Option<TriggerEventId>,
    },
}

/// Start/end date pair for a transition.
pub type DateRange<'a, S> = (
    Option<&'a Cited<UncertainDate, S>>,
    Option<&'a Cited<UncertainDate, S>>,
);

impl<E, S> EntityTransition<E, S> {
    /// When the transition began, or happened.
    pub open spec fn start(self) -> Option<Cited<UncertainDate, S>> {
        match self {
            EntityTransition::Constructed { started_at, .. } => started_at,
            EntityTransition::Modified { started_at, .. } => started_at,
            EntityTransition::Repaired { started_at, .. } => started_at,
            EntityTransition::Demolished { started_at, .. } => started_at,
            EntityTransition::Damaged { occurred_at, .. } => occurred_at,
            EntityTransition::Moved { occurred_at, .. } => occurred_at,
            EntityTransition::UsageModified { occurred_at, .. } => occurred_at,
            EntityTransition::Designated { occurred_at, .. } => occurred_at,
        }
    }

    /// When a transition that takes time was over.
    pub open spec fn end(self) -> Option<Cited<UncertainDate, S>> {
        match self {
            EntityTransition::Constructed { completed_at, .. } => completed_at,
            EntityTransition::Modified { completed_at, .. } => completed_at,
            EntityTransition::Repaired { completed_at, .. } => completed_at,
            EntityTransition::Demolished { completed_at, .. } => completed_at,
            _ => None,
        }
    }

    /// The earliest cited date known for this transition, across all of its
    /// date fields: the start, or else the end. `None` only when no dates are
    /// set at all.
    pub fn earliest_known_date(&self) -> (r: Option<&Cited<UncertainDate, S>>)
        ensures
            r is None <==> self.start() is None && self.end() is None,
            self.start() is Some ==> r == Some(&self.start()->0),
            self.start() is None && self.end() is Some ==> r == Some(&self.end()->0),
    {
        let (start, end) = self.date_range();
        match start {
            Some(date) => Some(date),
            None => end,
        }
    }

    /// The start/end date pair for transitions with duration, or the date and
    /// `None` for point events.
    pub fn date_range(&self) -> (r: DateRange<'_, S>)
        ensures
            r.0 is Some <==> self.start() is Some,
            r.0 is Some ==> *r.0->0 == self.start()->0,
            r.1 is Some <==> self.end() is Some,
            r.1 is Some ==> *r.1->0 == self.end()->0,
    {
        match self {
            EntityTransition::Constructed { started_at, completed_at, .. } => (
                started_at.as_ref(),
                completed_at.as_ref(),
            ),
            EntityTransition::Modified { started_at, completed_at, .. } => (
                started_at.as_ref(),
                completed_at.as_ref(),
            ),
            EntityTransition::Repaired { started_at, completed_at, .. } => (
                started_at.as_ref(),
                completed_at.as_ref(),
            ),
            EntityTransition::Demolished { started_at, completed_at, .. } => (
                started_at.as_ref(),
                completed_at.as_ref(),
            ),
            EntityTransition::Damaged { occurred_at, .. } => (occurred_at.as_ref(), None),
            EntityTransition::Moved { occurred_at, .. } => (occurred_at.as_ref(), None),
            EntityTransition::UsageModified { occurred_at, .. } => (occurred_at.as_ref(), None),
            EntityTransition::Designated { occurred_at, .. } => (occurred_at.as_ref(), None),
        }
    }

    /// The name of this kind of transition.
    pub open spec fn name(self) -> Seq<char> {
        match self {
            EntityTransition::Constructed { .. } => "constructed"@,
            EntityTransition::Modified { .. } => "modified"@,
            EntityTransition::Damaged { .. } => "damaged"@,
            EntityTransition::Repaired { .. } => "repaired"@,
            EntityTransition::Moved { .. } => "moved"@,
            EntityTransition::Demolished { .. } => "demolished"@,
            EntityTransition::UsageModified { .. } => "usage_modified"@,
            EntityTransition::Designated { .. } => "designated"@,
        }
    }

    /// The name of this kind of transition.
    pub fn to_string(&self) -> (r: String)
        ensures
            r@ == self.name(),
            *self is Constructed ==> r@ == "constructed"@,
            *self is Modified ==> r@ == "modified"@,
            *self is Damaged ==> r@ == "damaged"@,
            *self is Repaired ==> r@ == "repaired"@,
            *self is Moved ==> r@ == "moved"@,
            *self is Demolished ==> r@ == "demolished"@,
            *self is UsageModified ==> r@ == "usage_modified"@,
            *self is Designated ==> r@ == "designated"@,
    {
        let name = match self {
            EntityTransition::Constructed { .. } => "constructed",
            EntityTransition::Modified { .. } => "modified",
            EntityTransition::Damaged { .. } => "damaged",
            EntityTransition::Repaired { .. } => "repaired",
            EntityTransition::Moved { .. } => "moved",
            EntityTransition::Demolished { .. } => "demolished",
            EntityTransition::UsageModified { .. } => "usage_modified",
            EntityTransition::Designated { .. } => "designated",
        };
        name.to_owned()
    }
}

/// Type of relationship between two entities.
#[derive(Debug, Clone, Copy, PartialEq, Eq, Hash, Structural)]
pub enum EntityRelationType {
    /// The entity replaces the target, as a new building does on an old site.
    Replaces,
    /// The entity contains the target.
    Contains,
    /// The entity was formed by merging the target into it.
    MergedFrom,
    /// The entity was split off from the target.
    SplitFrom,
}

/// A relationship between two entities.
#[derive(Debug, Clone)]
pub struct EntityRelation<E, S> {
    /// The entity.
    pub from_entity: E,
    /// The target.
    pub to_entity: E,
    /// How they relate.
    pub relation_type: EntityRelationType,
    /// What supports it.
    pub evidence: Vec<Evidence<S>>,
}

/// A name is chosen by its language: the first name whose language starts with the
/// prefix, and where there is none, the first of all.
pub proof fn law_first_in_language<S>(names: Seq<Cited<EntityName, S>>, prefix: Seq<char>, from: int)
    requires
        0 <= from <= names.len(),
    ensures
        match first_in_language(names, prefix, from) {
            Some(i) => {
                &&& from <= i < names.len()
                &&& starts_with(names[i].value.language@, prefix)
                &&& forall|k: int|
                    from <= k < i ==> !starts_with((#[trigger] names[k]).value.language@, prefix)
            },
            None => forall|k: int|
                from <= k < names.len() ==> !starts_with(
                    (#[trigger] names[k]).value.language@,
                    prefix,
                ),
        },
    decreases names.len() - from,
{
    if from < names.len() && !starts_with(names[from].value.language@, prefix) {
        law_first_in_language(names, prefix, from + 1);
    }
}

/// Which dates a transition has: one that takes time a start and an end, any other only
/// when it happened.
pub proof fn law_dates_of_a_transition<E, S>(transition: EntityTransition<E, S>)
    ensures
        match transition {
            EntityTransition::Constructed { started_at, completed_at, .. } => transition.start()
                == started_at && transition.end() == completed_at,
            EntityTransition::Modified { started_at, completed_at, .. } => transition.start()
                == started_at && transition.end() == completed_at,
            EntityTransition::Repaired { started_at, completed_at, .. } => transition.start()
                == started_at && transition.end() == completed_at,
            EntityTransition::Demolished { started_at, completed_at, .. } => transition.start()
                == started_at && transition.end() == completed_at,
            EntityTransition::Damaged { occurred_at, .. } => transition.start() == occurred_at
                && transition.end() is None,
            EntityTransition::Moved { occurred_at, .. } => transition.start() == occurred_at
                && transition.end() is None,
            EntityTransition::UsageModified { occurred_at, .. } => transition.start()
                == occurred_at && transition.end() is None,
            EntityTransition::Designated { occurred_at, .. } => transition.start() == occurred_at
                && transition.end() is None,
        },
{
}

} // verus!
