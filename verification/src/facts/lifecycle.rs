//! Lifetime-event kinds, durational roles, and the vocabulary of what happens
//! to a building.
use vstd::prelude::*;
use vstd::string::*;

verus! {

/// Which end of a durational event a date belongs to.
#[derive(Debug, Clone, Copy, PartialEq, Eq, PartialOrd, Ord, Hash, Structural)]
pub enum DurationalRole {
    /// The event began.
    Started,
    /// The event was over.
    Completed,
}

/// Kinds of events that take time.
#[derive(Debug, Clone, Copy, PartialEq, Eq, PartialOrd, Ord, Hash, Structural)]
pub enum DurationalKind {
    /// The structure was changed.
    Modified,
    /// The structure was damaged.
    Damaged,
    /// The structure was repaired.
    Repaired,
    /// The structure was moved.
    Moved,
}

/// Kinds of events that happen at one time.
#[derive(Debug, Clone, Copy, PartialEq, Eq, PartialOrd, Ord, Hash, Structural)]
pub enum PointKind {
    /// The use of the structure changed.
    UsageChanged,
    /// The structure was given a designation.
    Designated,
}

/// The kind of a lifetime event.
#[derive(Debug, Clone, Copy, PartialEq, Eq, PartialOrd, Ord, Hash, Structural)]
pub enum LifetimeEventKind {
    /// An event that takes time.
    Durational {
        /// Which.
        kind: DurationalKind,
    },
    /// An event that happens at one time.
    Point {
        /// Which.
        kind: PointKind,
    },
}

impl LifetimeEventKind {
    /// Every durational kind, in the order of [`DurationalKind`].
    pub fn durational_kinds() -> (r: Vec<Self>)
        ensures
            r@ == seq![
                LifetimeEventKind::Durational { kind: DurationalKind::Modified },
                LifetimeEventKind::Durational { kind: DurationalKind::Damaged },
                LifetimeEventKind::Durational { kind: DurationalKind::Repaired },
                LifetimeEventKind::Durational { kind: DurationalKind::Moved },
            ],
            forall|k: LifetimeEventKind| k is Durational ==> #[trigger] r@.contains(k),
    {
        let out = vec![
            LifetimeEventKind::Durational { kind: DurationalKind::Modified },
            LifetimeEventKind::Durational { kind: DurationalKind::Damaged },
            LifetimeEventKind::Durational { kind: DurationalKind::Repaired },
            LifetimeEventKind::Durational { kind: DurationalKind::Moved },
        ];
        assert forall|k: LifetimeEventKind| k is Durational implies #[trigger] out@.contains(
            k,
        ) by {
            match k {
                LifetimeEventKind::Durational { kind } => {
                    match kind {
                        DurationalKind::Modified => assert(out@[0] == k),
                        DurationalKind::Damaged => assert(out@[1] == k),
                        DurationalKind::Repaired => assert(out@[2] == k),
                        DurationalKind::Moved => assert(out@[3] == k),
                    }
                },
                LifetimeEventKind::Point { .. } => {},
            }
        }
        out
    }

    /// Every point kind, in the order of [`PointKind`].
    pub fn point_kinds() -> (r: Vec<Self>)
        ensures
            r@ == seq![
                LifetimeEventKind::Point { kind: PointKind::UsageChanged },
                LifetimeEventKind::Point { kind: PointKind::Designated },
            ],
            forall|k: LifetimeEventKind| k is Point ==> #[trigger] r@.contains(k),
    {
        let out = vec![
            LifetimeEventKind::Point { kind: PointKind::UsageChanged },
            LifetimeEventKind::Point { kind: PointKind::Designated },
        ];
        assert forall|k: LifetimeEventKind| k is Point implies #[trigger] out@.contains(k) by {
            match k {
                LifetimeEventKind::Point { kind } => {
                    match kind {
                        PointKind::UsageChanged => assert(out@[0] == k),
                        PointKind::Designated => assert(out@[1] == k),
                    }
                },
                LifetimeEventKind::Durational { .. } => {},
            }
        }
        out
    }

    /// The name of the kind.
    pub open spec fn name(self) -> Seq<char> {
        match self {
            LifetimeEventKind::Durational { kind } => match kind {
                DurationalKind::Modified => "modified"@,
                DurationalKind::Damaged => "damaged"@,
                DurationalKind::Repaired => "repaired"@,
                DurationalKind::Moved => "moved"@,
            },
            LifetimeEventKind::Point { kind } => match kind {
                PointKind::UsageChanged => "usage_changed"@,
                PointKind::Designated => "designated"@,
            },
        }
    }

    /// The name of the kind.
    pub fn to_string(&self) -> (r: String)
        ensures
            r@ == self.name(),
            (*self matches LifetimeEventKind::Durational { kind } ==> {
                &&& kind is Modified ==> r@ == "modified"@
                &&& kind is Damaged ==> r@ == "damaged"@
                &&& kind is Repaired ==> r@ == "repaired"@
                &&& kind is Moved ==> r@ == "moved"@
            }),
            (*self matches LifetimeEventKind::Point { kind } ==> {
                &&& kind is UsageChanged ==> r@ == "usage_changed"@
                &&& kind is Designated ==> r@ == "designated"@
            }),
    {
        let name = match self {
            LifetimeEventKind::Durational { kind } => match kind {
                DurationalKind::Modified => "modified",
                DurationalKind::Damaged => "damaged",
                DurationalKind::Repaired => "repaired",
                DurationalKind::Moved => "moved",
            },
            LifetimeEventKind::Point { kind } => match kind {
                PointKind::UsageChanged => "usage_changed",
                PointKind::Designated => "designated",
            },
        };
        name.to_owned()
    }
}

/// Cause of damage to a structure.
#[derive(Debug, Clone, PartialEq, Eq, PartialOrd, Ord, Hash)]
pub enum DamageCause {
    Earthquake,
    Fire,
    Flood,
    Neglect,
    StructuralFailure,
    Vandalism,
    War,
    Weather,
    Other {
        /// What caused the damage.
        description: String,
    },
}

/// Method used to move a structure.
#[derive(Debug, Clone, Copy, PartialEq, Eq, PartialOrd, Ord, Hash, Structural)]
pub enum MoveMethod {
    /// Taken apart and put together again at the new location.
    Disassembled,
    /// Moved in one piece.
    Whole,
}

/// Usage category for a building or structure.
///
/// An empty set of usages is closure or vacancy; `Usage::Unknown` is "in use
/// but we don't know what for".
#[derive(Debug, Clone, PartialEq, Eq, PartialOrd, Ord, Hash)]
pub enum Usage {
    Unknown,
    Agricultural,
    Commercial,
    Cultural,
    Educational,
    Healthcare,
    Industrial,
    Infrastructure,
    Institutional,
    Military,
    Recreational,
    Religious,
    Residential,
    Transportation,
    Other {
        /// What the structure is used for.
        description: String,
    },
}

/// Different kinds of events have different names.
pub proof fn law_kinds_have_names_of_their_own(a: LifetimeEventKind, b: LifetimeEventKind)
    requires
        a.name() == b.name(),
    ensures
        a == b,
{
    reveal_strlit("modified");
    reveal_strlit("damaged");
    reveal_strlit("repaired");
    reveal_strlit("moved");
    reveal_strlit("usage_changed");
    reveal_strlit("designated");
    assert("modified"@.len() == 8 && "damaged"@.len() == 7 && "repaired"@.len() == 8);
    assert("moved"@.len() == 5 && "usage_changed"@.len() == 13 && "designated"@.len() == 10);
    assert("modified"@[0] == 'm' && "repaired"@[0] == 'r');
}

} // verus!
