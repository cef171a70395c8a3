//! Event cluster: what happens within the lifetime of an entity, and the gaps
//! between events.
use std::collections::BTreeSet;

use vstd::prelude::*;
use vstd::string::*;

use crate::algebra::ordered::TotalOrder;
use crate::date::UncertainDate;
use crate::facts::identity::{agree, itself, maps, undoes};
use crate::facts::lifecycle::{DamageCause, DurationalRole, MoveMethod, Usage};
use crate::location::LocationReference;
use crate::text::{decimal_digits, decimal_text};

verus! {

// --- Days ---

/// A number of days.
#[derive(Debug, Clone, Copy, PartialEq, Eq, PartialOrd, Ord, Hash, Structural)]
pub struct Days(u64);

impl Days {
    /// No days.
    pub fn zero() -> (r: Self)
        ensures
            r.count() == 0,
    {
        Days(0)
    }

    /// The longest span: a quarter of the greatest number, so that a few spans
    /// can be added without reaching it.
    pub fn longest() -> (r: Self)
        ensures
            r.count() == u64::MAX / 4,
            3 * r.count() <= u64::MAX,
    {
        Days(u64::MAX / 4)
    }

    /// How many days.
    pub closed spec fn count(self) -> u64 {
        self.0
    }

    /// That many days.
    pub fn new(days: u64) -> (r: Self)
        ensures
            r.count() == days,
    {
        Days(days)
    }

    /// How many days.
    pub fn as_u64(self) -> (r: u64)
        ensures
            r == self.count(),
    {
        self.0
    }

    /// The sum, or the greatest number where the sum exceeds it.
    pub fn saturating_add(self, other: Self) -> (r: Self)
        ensures
            r.count() == if self.count() + other.count() <= u64::MAX {
                self.count() + other.count()
            } else {
                u64::MAX as int
            },
    {
        if self.0 <= u64::MAX - other.0 {
            Days(self.0 + other.0)
        } else {
            Days(u64::MAX)
        }
    }

    /// The difference, or zero where it would be negative.
    pub fn saturating_sub(self, other: Self) -> (r: Self)
        ensures
            r.count() == if self.count() >= other.count() {
                self.count() - other.count()
            } else {
                0
            },
    {
        if self.0 >= other.0 {
            Days(self.0 - other.0)
        } else {
            Days(0)
        }
    }
}

/// The sum, which stops at the greatest number.
impl std::ops::Add for Days {
    type Output = Days;

    fn add(self, other: Days) -> (r: Days)
        ensures
            r.count() == if self.count() + other.count() <= u64::MAX {
                self.count() + other.count()
            } else {
                u64::MAX as int
            },
    {
        self.saturating_add(other)
    }
}

impl vstd::std_specs::ops::AddSpecImpl for Days {
    open spec fn obeys_add_spec() -> bool {
        true
    }

    open spec fn add_req(self, other: Days) -> bool {
        true
    }

    closed spec fn add_spec(self, other: Days) -> Days {
        if self.0 + other.0 <= u64::MAX {
            Days((self.0 + other.0) as u64)
        } else {
            Days(u64::MAX)
        }
    }
}

/// The difference, which stops at zero.
impl std::ops::Sub for Days {
    type Output = Days;

    fn sub(self, other: Days) -> (r: Days)
        ensures
            r.count() == if self.count() >= other.count() {
                self.count() - other.count()
            } else {
                0
            },
    {
        self.saturating_sub(other)
    }
}

impl vstd::std_specs::ops::SubSpecImpl for Days {
    open spec fn obeys_sub_spec() -> bool {
        true
    }

    open spec fn sub_req(self, other: Days) -> bool {
        true
    }

    closed spec fn sub_spec(self, other: Days) -> Days {
        if self.0 >= other.0 {
            Days((self.0 - other.0) as u64)
        } else {
            Days(0)
        }
    }
}

// --- OrderableEvent ---

/// What can come before or after something else.
#[derive(Debug, Clone, PartialEq, Eq)]
pub enum OrderableEvent<EntId: TotalOrder, EvtId: TotalOrder> {
    /// A lifetime event.
    Event {
        /// The event.
        event: EvtId,
    },
    /// The end of construction.
    ConstructionCompletion {
        /// The entity.
        entity: EntId,
    },
    /// The start of demolition.
    DemolitionStart {
        /// The entity.
        entity: EntId,
    },
}

impl<EntId: TotalOrder, EvtId: TotalOrder> OrderableEvent<EntId, EvtId> {
    /// The entities mentioned, in order.
    pub open spec fn entities(self) -> Seq<EntId> {
        match self {
            OrderableEvent::Event { .. } => Seq::empty(),
            OrderableEvent::ConstructionCompletion { entity } => seq![entity],
            OrderableEvent::DemolitionStart { entity } => seq![entity],
        }
    }

    /// The events mentioned, in order.
    pub open spec fn events(self) -> Seq<EvtId> {
        match self {
            OrderableEvent::Event { event } => seq![event],
            OrderableEvent::ConstructionCompletion { .. } => Seq::empty(),
            OrderableEvent::DemolitionStart { .. } => Seq::empty(),
        }
    }

    /// Hand over every id mentioned, in order.
    pub fn for_each_id(
        &self,
        entities: &mut Vec<EntId>,
        events: &mut Vec<EvtId>,
    ) where EntId: Copy, EvtId: Copy
        ensures
            final(entities)@ == old(entities)@ + self.entities(),
            final(events)@ == old(events)@ + self.events(),
    {
        match self {
            OrderableEvent::Event { event } => events.push(*event),
            OrderableEvent::ConstructionCompletion { entity } => entities.push(*entity),
            OrderableEvent::DemolitionStart { entity } => entities.push(*entity),
        }
        assert(entities@ =~= old(entities)@ + self.entities());
        assert(events@ =~= old(events)@ + self.events());
    }

    /// Whether `out` says the same of the images of the ids.
    pub open spec fn maps_by<
        E2: TotalOrder,
        V2: TotalOrder,
    >(
        self,
        out: OrderableEvent<E2, V2>,
        e: spec_fn(EntId, E2) -> bool,
        v: spec_fn(EvtId, V2) -> bool,
    ) -> bool {
        match (self, out) {
            (OrderableEvent::Event { event }, OrderableEvent::Event { event: event2 }) => {
                &&& v(event, event2)
            },
            (
                OrderableEvent::ConstructionCompletion { entity },
                OrderableEvent::ConstructionCompletion { entity: entity2 },
            ) => {
                &&& e(entity, entity2)
            },
            (
                OrderableEvent::DemolitionStart { entity },
                OrderableEvent::DemolitionStart { entity: entity2 },
            ) => {
                &&& e(entity, entity2)
            },
            _ => false,
        }
    }

    /// Whether the id can be mapped.
    pub open spec fn can_map<
        E2: TotalOrder,
        V2: TotalOrder,
        Fault,
        FE: Fn(&EntId) -> Result<E2, Fault>,
        FV: Fn(&EvtId) -> Result<V2, Fault>,
    >(self, fe: FE, fv: FV) -> bool {
        match self {
            OrderableEvent::Event { event } => maps(fv, event),
            OrderableEvent::ConstructionCompletion { entity } => maps(fe, entity),
            OrderableEvent::DemolitionStart { entity } => maps(fe, entity),
        }
    }

    /// Whether mapping the ids fails with `error`.
    pub open spec fn fails_by<
        E2: TotalOrder,
        V2: TotalOrder,
        Fault,
        FE: Fn(&EntId) -> Result<E2, Fault>,
        FV: Fn(&EvtId) -> Result<V2, Fault>,
    >(self, fe: FE, fv: FV, error: Fault) -> bool {
        match self {
            OrderableEvent::Event { event } => call_ensures(fv, (&event,), Err::<V2, Fault>(error)),
            OrderableEvent::ConstructionCompletion { entity } => call_ensures(
                fe,
                (&entity,),
                Err::<E2, Fault>(error),
            ),
            OrderableEvent::DemolitionStart { entity } => call_ensures(
                fe,
                (&entity,),
                Err::<E2, Fault>(error),
            ),
        }
    }

    /// Replace every id by its image; the first failure is the error.
    pub fn try_map_ids<
        E2: TotalOrder,
        V2: TotalOrder,
        Fault,
        FE: Fn(&EntId) -> Result<E2, Fault>,
        FV: Fn(&EvtId) -> Result<V2, Fault>,
    >(self, fe: &FE, fv: &FV) -> (r: Result<OrderableEvent<E2, V2>, Fault>)
        requires
            forall|x: EntId| call_requires(*fe, (&x,)),
            forall|x: EvtId| call_requires(*fv, (&x,)),
        ensures
            r is Ok ==> self.maps_by(
                r->Ok_0,
                |x: EntId, y: E2| call_ensures(*fe, (&x,), Ok::<E2, Fault>(y)),
                |x: EvtId, y: V2| call_ensures(*fv, (&x,), Ok::<V2, Fault>(y)),
            ),
            r is Err ==> self.fails_by(*fe, *fv, r->Err_0),
    {
        match self {
            OrderableEvent::Event { event } => {
                let event = match fv(&event) {
                    Ok(image) => image,
                    Err(error) => return Err(error),
                };
                Ok(OrderableEvent::Event { event })
            },
            OrderableEvent::ConstructionCompletion { entity } => {
                let entity = match fe(&entity) {
                    Ok(image) => image,
                    Err(error) => return Err(error),
                };
                Ok(OrderableEvent::ConstructionCompletion { entity })
            },
            OrderableEvent::DemolitionStart { entity } => {
                let entity = match fe(&entity) {
                    Ok(image) => image,
                    Err(error) => return Err(error),
                };
                Ok(OrderableEvent::DemolitionStart { entity })
            },
        }
    }
}

// --- GapBounds ---

/// How far apart two events are.
#[derive(Debug, Clone, PartialEq, Eq)]
pub struct GapBounds<EntId: TotalOrder, EvtId: TotalOrder> {
    /// What comes first.
    pub from: OrderableEvent<EntId, EvtId>,
    /// What comes then.
    pub to: OrderableEvent<EntId, EvtId>,
    /// The least number of days between them.
    pub min_days: Option<Days>,
    /// The greatest number of days between them.
    pub max_days: Option<Days>,
}

impl<EntId: TotalOrder, EvtId: TotalOrder> GapBounds<EntId, EvtId> {
    /// The entities mentioned, in order.
    pub open spec fn entities(self) -> Seq<EntId> {
        self.from.entities() + self.to.entities()
    }

    /// The events mentioned, in order.
    pub open spec fn events(self) -> Seq<EvtId> {
        self.from.events() + self.to.events()
    }

    /// Hand over every id mentioned, in order.
    pub fn for_each_id(
        &self,
        entities: &mut Vec<EntId>,
        events: &mut Vec<EvtId>,
    ) where EntId: Copy, EvtId: Copy
        ensures
            final(entities)@ == old(entities)@ + self.entities(),
            final(events)@ == old(events)@ + self.events(),
    {
        self.from.for_each_id(entities, events);
        self.to.for_each_id(entities, events);
        assert(entities@ =~= old(entities)@ + self.entities());
        assert(events@ =~= old(events)@ + self.events());
    }

    /// Whether `out` says the same of the images of the ids.
    pub open spec fn maps_by<
        E2: TotalOrder,
        V2: TotalOrder,
    >(
        self,
        out: GapBounds<E2, V2>,
        e: spec_fn(EntId, E2) -> bool,
        v: spec_fn(EvtId, V2) -> bool,
    ) -> bool {
        &&& self.from.maps_by(out.from, e, v)
        &&& self.to.maps_by(out.to, e, v)
        &&& self.min_days == out.min_days
        &&& self.max_days == out.max_days
    }

    /// Whether mapping the ids fails with `error`.
    pub open spec fn fails_by<
        E2: TotalOrder,
        V2: TotalOrder,
        Fault,
        FE: Fn(&EntId) -> Result<E2, Fault>,
        FV: Fn(&EvtId) -> Result<V2, Fault>,
    >(self, fe: FE, fv: FV, error: Fault) -> bool {
        ||| self.from.fails_by(fe, fv, error)
        ||| self.from.can_map(fe, fv) && self.to.fails_by(fe, fv, error)
    }

    /// Replace every id by its image; the first failure is the error.
    pub fn try_map_ids<
        E2: TotalOrder,
        V2: TotalOrder,
        Fault,
        FE: Fn(&EntId) -> Result<E2, Fault>,
        FV: Fn(&EvtId) -> Result<V2, Fault>,
    >(self, fe: &FE, fv: &FV) -> (r: Result<GapBounds<E2, V2>, Fault>)
        requires
            forall|x: EntId| call_requires(*fe, (&x,)),
            forall|x: EvtId| call_requires(*fv, (&x,)),
        ensures
            r is Ok ==> self.maps_by(
                r->Ok_0,
                |x: EntId, y: E2| call_ensures(*fe, (&x,), Ok::<E2, Fault>(y)),
                |x: EvtId, y: V2| call_ensures(*fv, (&x,), Ok::<V2, Fault>(y)),
            ),
            r is Err ==> self.fails_by(*fe, *fv, r->Err_0),
    {
        let from = match self.from.try_map_ids(fe, fv) {
            Ok(image) => image,
            Err(error) => return Err(error),
        };
        let to = match self.to.try_map_ids(fe, fv) {
            Ok(image) => image,
            Err(error) => return Err(error),
        };
        Ok(GapBounds { from, to, min_days: self.min_days, max_days: self.max_days })
    }
}

/// Errors from [`GapBounds::new`].
#[derive(Debug, Clone, Copy, PartialEq, Eq, Structural)]
pub enum GapBoundsError {
    /// Neither end of the gap is bounded.
    Unconstrained,
    /// The least gap is greater than the greatest.
    MinExceedsMax { min_days: u64, max_days: u64 },
}

/// What is wrong with the two bounds of a gap.
pub open spec fn gap_fault(min_days: Option<Days>, max_days: Option<Days>) -> Option<
    GapBoundsError,
> {
    match (min_days, max_days) {
        (None, None) => Some(GapBoundsError::Unconstrained),
        (Some(lo), Some(hi)) => if lo.count() > hi.count() {
            Some(GapBoundsError::MinExceedsMax { min_days: lo.count(), max_days: hi.count() })
        } else {
            None
        },
        _ => None,
    }
}

impl<EntId: TotalOrder, EvtId: TotalOrder> GapBounds<EntId, EvtId> {
    /// A gap between two events, bounded on one side at least.
    pub fn new(
        from: OrderableEvent<EntId, EvtId>,
        to: OrderableEvent<EntId, EvtId>,
        min_days: Option<Days>,
        max_days: Option<Days>,
    ) -> (r: Result<Self, GapBoundsError>)
        ensures
            match gap_fault(min_days, max_days) {
                Some(error) => r == Err::<GapBounds<EntId, EvtId>, GapBoundsError>(error),
                None => r == Ok::<GapBounds<EntId, EvtId>, GapBoundsError>(
                    GapBounds { from, to, min_days, max_days },
                ),
            },
    {
        match (min_days, max_days) {
            (None, None) => return Err(GapBoundsError::Unconstrained),
            (Some(lo), Some(hi)) => {
                if lo.as_u64() > hi.as_u64() {
                    return Err(
                        GapBoundsError::MinExceedsMax {
                            min_days: lo.as_u64(),
                            max_days: hi.as_u64(),
                        },
                    );
                }
            },
            _ => {},
        }
        Ok(GapBounds { from, to, min_days, max_days })
    }
}

impl GapBoundsError {
    /// What the error says.
    pub open spec fn says(self) -> Seq<char> {
        match self {
            GapBoundsError::Unconstrained => {
                "event gap must constrain at least one of min_days / max_days"@
            },
            GapBoundsError::MinExceedsMax { min_days, max_days } => "min_days ("@ + decimal_digits(
                min_days as nat,
            ) + ") must not exceed max_days ("@ + decimal_digits(max_days as nat) + ")"@,
        }
    }

    /// What the error says.
    pub fn to_string(&self) -> (r: String)
        ensures
            r@ == self.says(),
            *self is Unconstrained ==> r@
                == "event gap must constrain at least one of min_days / max_days"@,
            (*self matches GapBoundsError::MinExceedsMax { min_days, max_days } ==> r@
                == "min_days ("@ + decimal_digits(min_days as nat)
                + ") must not exceed max_days ("@ + decimal_digits(max_days as nat) + ")"@),
    {
        match self {
            GapBoundsError::Unconstrained => {
                "event gap must constrain at least one of min_days / max_days".to_owned()
            },
            GapBoundsError::MinExceedsMax { min_days, max_days } => {
                let mut out = "min_days (".to_owned();
                out.append(decimal_text(*min_days).as_str());
                out.append(") must not exceed max_days (");
                out.append(decimal_text(*max_days).as_str());
                out.append(")");
                out
            },
        }
    }
}

// --- Facts ---

/// A fact about a lifetime event.
#[derive(Debug, Clone, PartialEq, Eq)]
pub enum Fact<EntId: TotalOrder, EvtId: TotalOrder> {
    /// When one end of a durational event was.
    DurationalDate {
        /// The event.
        event: EvtId,
        /// Which end.
        role: DurationalRole,
        /// When.
        bound: UncertainDate,
    },
    /// When a point event was.
    PointDate {
        /// The event.
        event: EvtId,
        /// When.
        bound: UncertainDate,
    },
    /// Where the structure was moved to.
    MovedToLocation {
        /// The event.
        event: EvtId,
        /// Where.
        location: LocationReference,
    },
    /// What caused the damage.
    DamageCause {
        /// The event.
        event: EvtId,
        /// The cause.
        cause: DamageCause,
    },
    /// How the structure was moved.
    MoveMethod {
        /// The event.
        event: EvtId,
        /// The method.
        method: MoveMethod,
    },
    /// What the structure was used for from then on.
    UsageChange {
        /// The event.
        event: EvtId,
        /// The usages; none is vacancy.
        new_usages: BTreeSet<Usage>,
    },
    /// What the structure was designated as.
    Designation {
        /// The event.
        event: EvtId,
        /// The designation.
        designation: String,
    },
    /// What happened, in words.
    Description {
        /// The event.
        event: EvtId,
        /// The words.
        text: String,
    },
    /// How far apart two events were.
    Gap {
        /// The gap.
        gap: GapBounds<EntId, EvtId>,
    },
}

impl<EntId: TotalOrder, EvtId: TotalOrder> Fact<EntId, EvtId> {
    /// The entities mentioned, in order.
    pub open spec fn entities(self) -> Seq<EntId> {
        match self {
            Fact::DurationalDate { .. } => Seq::empty(),
            Fact::PointDate { .. } => Seq::empty(),
            Fact::MovedToLocation { .. } => Seq::empty(),
            Fact::DamageCause { .. } => Seq::empty(),
            Fact::MoveMethod { .. } => Seq::empty(),
            Fact::UsageChange { .. } => Seq::empty(),
            Fact::Designation { .. } => Seq::empty(),
            Fact::Description { .. } => Seq::empty(),
            Fact::Gap { gap } => gap.entities(),
        }
    }

    /// The events mentioned, in order.
    pub open spec fn events(self) -> Seq<EvtId> {
        match self {
            Fact::DurationalDate { event, .. } => seq![event],
            Fact::PointDate { event, .. } => seq![event],
            Fact::MovedToLocation { event, .. } => seq![event],
            Fact::DamageCause { event, .. } => seq![event],
            Fact::MoveMethod { event, .. } => seq![event],
            Fact::UsageChange { event, .. } => seq![event],
            Fact::Designation { event, .. } => seq![event],
            Fact::Description { event, .. } => seq![event],
            Fact::Gap { gap } => gap.events(),
        }
    }

    /// Hand over every id mentioned, in order.
    pub fn for_each_id(
        &self,
        entities: &mut Vec<EntId>,
        events: &mut Vec<EvtId>,
    ) where EntId: Copy, EvtId: Copy
        ensures
            final(entities)@ == old(entities)@ + self.entities(),
            final(events)@ == old(events)@ + self.events(),
    {
        match self {
            Fact::DurationalDate { event, .. } => events.push(*event),
            Fact::PointDate { event, .. } => events.push(*event),
            Fact::MovedToLocation { event, .. } => events.push(*event),
            Fact::DamageCause { event, .. } => events.push(*event),
            Fact::MoveMethod { event, .. } => events.push(*event),
            Fact::UsageChange { event, .. } => events.push(*event),
            Fact::Designation { event, .. } => events.push(*event),
            Fact::Description { event, .. } => events.push(*event),
            Fact::Gap { gap } => gap.for_each_id(entities, events),
        }
        assert(entities@ =~= old(entities)@ + self.entities());
        assert(events@ =~= old(events)@ + self.events());
    }

    /// Whether `out` says the same of the images of the ids.
    pub open spec fn maps_by<
        E2: TotalOrder,
        V2: TotalOrder,
    >(
        self,
        out: Fact<E2, V2>,
        e: spec_fn(EntId, E2) -> bool,
        v: spec_fn(EvtId, V2) -> bool,
    ) -> bool {
        match (self, out) {
            (
                Fact::DurationalDate { event, role, bound },
                Fact::DurationalDate { event: event2, role: role2, bound: bound2 },
            ) => {
                &&& v(event, event2)
                &&& role == role2
                &&& bound == bound2
            },
            (
                Fact::PointDate { event, bound },
                Fact::PointDate { event: event2, bound: bound2 },
            ) => {
                &&& v(event, event2)
                &&& bound == bound2
            },
            (
                Fact::MovedToLocation { event, location },
                Fact::MovedToLocation { event: event2, location: location2 },
            ) => {
                &&& v(event, event2)
                &&& location == location2
            },
            (
                Fact::DamageCause { event, cause },
                Fact::DamageCause { event: event2, cause: cause2 },
            ) => {
                &&& v(event, event2)
                &&& cause == cause2
            },
            (
                Fact::MoveMethod { event, method },
                Fact::MoveMethod { event: event2, method: method2 },
            ) => {
                &&& v(event, event2)
                &&& method == method2
            },
            (
                Fact::UsageChange { event, new_usages },
                Fact::UsageChange { event: event2, new_usages: new_usages2 },
            ) => {
                &&& v(event, event2)
                &&& new_usages == new_usages2
            },
            (
                Fact::Designation { event, designation },
                Fact::Designation { event: event2, designation: designation2 },
            ) => {
                &&& v(event, event2)
                &&& designation == designation2
            },
            (
                Fact::Description { event, text },
                Fact::Description { event: event2, text: text2 },
            ) => {
                &&& v(event, event2)
                &&& text == text2
            },
            (Fact::Gap { gap }, Fact::Gap { gap: gap2 }) => {
                &&& gap.maps_by(gap2, e, v)
            },
            _ => false,
        }
    }

    /// Whether mapping the ids fails with `error`.
    pub open spec fn fails_by<
        E2: TotalOrder,
        V2: TotalOrder,
        Fault,
        FE: Fn(&EntId) -> Result<E2, Fault>,
        FV: Fn(&EvtId) -> Result<V2, Fault>,
    >(self, fe: FE, fv: FV, error: Fault) -> bool {
        match self {
            Fact::DurationalDate { event, .. } => call_ensures(
                fv,
                (&event,),
                Err::<V2, Fault>(error),
            ),
            Fact::PointDate { event, .. } => call_ensures(fv, (&event,), Err::<V2, Fault>(error)),
            Fact::MovedToLocation { event, .. } => call_ensures(
                fv,
                (&event,),
                Err::<V2, Fault>(error),
            ),
            Fact::DamageCause { event, .. } => call_ensures(fv, (&event,), Err::<V2, Fault>(error)),
            Fact::MoveMethod { event, .. } => call_ensures(fv, (&event,), Err::<V2, Fault>(error)),
            Fact::UsageChange { event, .. } => call_ensures(fv, (&event,), Err::<V2, Fault>(error)),
            Fact::Designation { event, .. } => call_ensures(fv, (&event,), Err::<V2, Fault>(error)),
            Fact::Description { event, .. } => call_ensures(fv, (&event,), Err::<V2, Fault>(error)),
            Fact::Gap { gap } => gap.fails_by(fe, fv, error),
        }
    }

    /// Replace every id by its image; the first failure is the error.
    pub fn try_map_ids<
        E2: TotalOrder,
        V2: TotalOrder,
        Fault,
        FE: Fn(&EntId) -> Result<E2, Fault>,
        FV: Fn(&EvtId) -> Result<V2, Fault>,
    >(self, fe: &FE, fv: &FV) -> (r: Result<Fact<E2, V2>, Fault>)
        requires
            forall|x: EntId| call_requires(*fe, (&x,)),
            forall|x: EvtId| call_requires(*fv, (&x,)),
        ensures
            r is Ok ==> self.maps_by(
                r->Ok_0,
                |x: EntId, y: E2| call_ensures(*fe, (&x,), Ok::<E2, Fault>(y)),
                |x: EvtId, y: V2| call_ensures(*fv, (&x,), Ok::<V2, Fault>(y)),
            ),
            r is Err ==> self.fails_by(*fe, *fv, r->Err_0),
    {
        match self {
            Fact::DurationalDate { event, role, bound } => {
                let event = match fv(&event) {
                    Ok(image) => image,
                    Err(error) => return Err(error),
                };
                Ok(Fact::DurationalDate { event, role, bound })
            },
            Fact::PointDate { event, bound } => {
                let event = match fv(&event) {
                    Ok(image) => image,
                    Err(error) => return Err(error),
                };
                Ok(Fact::PointDate { event, bound })
            },
            Fact::MovedToLocation { event, location } => {
                let event = match fv(&event) {
                    Ok(image) => image,
                    Err(error) => return Err(error),
                };
                Ok(Fact::MovedToLocation { event, location })
            },
            Fact::DamageCause { event, cause } => {
                let event = match fv(&event) {
                    Ok(image) => image,
                    Err(error) => return Err(error),
                };
                Ok(Fact::DamageCause { event, cause })
            },
            Fact::MoveMethod { event, method } => {
                let event = match fv(&event) {
                    Ok(image) => image,
                    Err(error) => return Err(error),
                };
                Ok(Fact::MoveMethod { event, method })
            },
            Fact::UsageChange { event, new_usages } => {
                let event = match fv(&event) {
                    Ok(image) => image,
                    Err(error) => return Err(error),
                };
                Ok(Fact::UsageChange { event, new_usages })
            },
            Fact::Designation { event, designation } => {
                let event = match fv(&event) {
                    Ok(image) => image,
                    Err(error) => return Err(error),
                };
                Ok(Fact::Designation { event, designation })
            },
            Fact::Description { event, text } => {
                let event = match fv(&event) {
                    Ok(image) => image,
                    Err(error) => return Err(error),
                };
                Ok(Fact::Description { event, text })
            },
            Fact::Gap { gap } => {
                let gap = match gap.try_map_ids(fe, fv) {
                    Ok(image) => image,
                    Err(error) => return Err(error),
                };
                Ok(Fact::Gap { gap })
            },
        }
    }
}

impl<EntId: TotalOrder, EvtId: TotalOrder> OrderableEvent<EntId, EvtId> {
    /// Mapping the ids keeps the kind of a fact and all it says: each kind comes to the
    /// same kind, every id to its image in the same place, and the rest stays.
    pub proof fn law_mapping_keeps_what_is_said<E2: TotalOrder, V2: TotalOrder>(
        self,
        out: OrderableEvent<E2, V2>,
        e: spec_fn(EntId, E2) -> bool,
        v: spec_fn(EvtId, V2) -> bool,
    )
        requires
            self.maps_by(out, e, v),
        ensures
            (self matches OrderableEvent::Event { event } ==> {
                &&& out matches OrderableEvent::Event { event: event2 }
                &&& v(event, event2)
            }),
            (self matches OrderableEvent::ConstructionCompletion { entity } ==> {
                &&& out matches OrderableEvent::ConstructionCompletion { entity: entity2 }
                &&& e(entity, entity2)
            }),
            (self matches OrderableEvent::DemolitionStart { entity } ==> {
                &&& out matches OrderableEvent::DemolitionStart { entity: entity2 }
                &&& e(entity, entity2)
            }),
            out is Event ==> self is Event,
            out is ConstructionCompletion ==> self is ConstructionCompletion,
            out is DemolitionStart ==> self is DemolitionStart,
    {
    }

    /// Mapping every id to itself changes nothing.
    pub proof fn law_mapping_to_itself(self, out: OrderableEvent<EntId, EvtId>)
        requires
            self.maps_by(out, itself::<EntId>(), itself::<EvtId>()),
        ensures
            out == self,
    {
    }

    /// Mapping the ids there and back gives the fact again, where the way back undoes the
    /// way there.
    pub proof fn law_mapping_there_and_back<E2: TotalOrder, V2: TotalOrder>(
        self,
        out: OrderableEvent<E2, V2>,
        back: OrderableEvent<EntId, EvtId>,
        e: spec_fn(EntId, E2) -> bool,
        e_back: spec_fn(E2, EntId) -> bool,
        v: spec_fn(EvtId, V2) -> bool,
        v_back: spec_fn(V2, EvtId) -> bool,
    )
        requires
            self.maps_by(out, e, v),
            out.maps_by(back, e_back, v_back),
            undoes(e, e_back),
            undoes(v, v_back),
        ensures
            back == self,
    {
    }

    /// Mapping the ids fails only with the error of an id that is mentioned.
    pub proof fn law_failure_is_of_a_mentioned_id<
        E2: TotalOrder,
        V2: TotalOrder,
        Fault,
        FE: Fn(&EntId) -> Result<E2, Fault>,
        FV: Fn(&EvtId) -> Result<V2, Fault>,
    >(
        self,
        fe: FE,
        fv: FV,
        error: Fault,
    )
        requires
            self.fails_by(fe, fv, error),
        ensures
            (exists|k: int|
                0 <= k < self.entities().len() && #[trigger] call_ensures(
                    fe,
                    (&self.entities()[k],),
                    Err::<E2, Fault>(error),
                ))
                || (exists|k: int|
                0 <= k < self.events().len() && #[trigger] call_ensures(
                    fv,
                    (&self.events()[k],),
                    Err::<V2, Fault>(error),
                )),
    {
        match self {
            OrderableEvent::Event { event } => {
                assert(self.events()[0] == event);
                assert(call_ensures(fv, (&event,), Err::<V2, Fault>(error)) ==> call_ensures(
                    fv,
                    (&self.events()[0],),
                    Err::<V2, Fault>(error),
                ));
            },
            OrderableEvent::ConstructionCompletion { entity } => {
                assert(self.entities()[0] == entity);
                assert(call_ensures(fe, (&entity,), Err::<E2, Fault>(error)) ==> call_ensures(
                    fe,
                    (&self.entities()[0],),
                    Err::<E2, Fault>(error),
                ));
            },
            OrderableEvent::DemolitionStart { entity } => {
                assert(self.entities()[0] == entity);
                assert(call_ensures(fe, (&entity,), Err::<E2, Fault>(error)) ==> call_ensures(
                    fe,
                    (&self.entities()[0],),
                    Err::<E2, Fault>(error),
                ));
            },
        }
    }

    /// Which ids a fact mentions, by its kind and in their order.
    pub proof fn law_mentions_by_kind(self)
        ensures
            (self matches OrderableEvent::Event { event } ==> {
                &&& self.entities().len() == 0
                &&& self.events() == seq![event]
            }),
            (self matches OrderableEvent::ConstructionCompletion { entity } ==> {
                &&& self.entities() == seq![entity]
                &&& self.events().len() == 0
            }),
            (self matches OrderableEvent::DemolitionStart { entity } ==> {
                &&& self.entities() == seq![entity]
                &&& self.events().len() == 0
            }),
    {
    }

    /// Only the ids that a fact mentions matter to it, and it mentions every id that
    /// does: two ways to map them that agree on those give the same.
    pub proof fn law_only_mentioned_ids_matter<E2: TotalOrder, V2: TotalOrder>(
        self,
        out: OrderableEvent<E2, V2>,
        e: spec_fn(EntId, E2) -> bool,
        other_e: spec_fn(EntId, E2) -> bool,
        v: spec_fn(EvtId, V2) -> bool,
        other_v: spec_fn(EvtId, V2) -> bool,
    )
        requires
            agree(self.entities(), e, other_e),
            agree(self.events(), v, other_v),
        ensures
            self.maps_by(out, e, v) <==> self.maps_by(out, other_e, other_v),
    {
        match self {
            OrderableEvent::Event { event } => {
                assert(self.events()[0] == event);
            },
            OrderableEvent::ConstructionCompletion { entity } => {
                assert(self.entities()[0] == entity);
            },
            OrderableEvent::DemolitionStart { entity } => {
                assert(self.entities()[0] == entity);
            },
        }
    }
}

impl<EntId: TotalOrder, EvtId: TotalOrder> Fact<EntId, EvtId> {
    /// Mapping the ids keeps the kind of a fact and all it says: each kind comes to the
    /// same kind, every id to its image in the same place, and the rest stays.
    pub proof fn law_mapping_keeps_what_is_said<E2: TotalOrder, V2: TotalOrder>(
        self,
        out: Fact<E2, V2>,
        e: spec_fn(EntId, E2) -> bool,
        v: spec_fn(EvtId, V2) -> bool,
    )
        requires
            self.maps_by(out, e, v),
        ensures
            (self matches Fact::DurationalDate { event, role, bound } ==> {
                &&& out matches Fact::DurationalDate { event: event2, role: role2, bound: bound2 }
                &&& v(event, event2)
                &&& role == role2
                &&& bound == bound2
            }),
            (self matches Fact::PointDate { event, bound } ==> {
                &&& out matches Fact::PointDate { event: event2, bound: bound2 }
                &&& v(event, event2)
                &&& bound == bound2
            }),
            (self matches Fact::MovedToLocation { event, location } ==> {
                &&& out matches Fact::MovedToLocation { event: event2, location: location2 }
                &&& v(event, event2)
                &&& location == location2
            }),
            (self matches Fact::DamageCause { event, cause } ==> {
                &&& out matches Fact::DamageCause { event: event2, cause: cause2 }
                &&& v(event, event2)
                &&& cause == cause2
            }),
            (self matches Fact::MoveMethod { event, method } ==> {
                &&& out matches Fact::MoveMethod { event: event2, method: method2 }
                &&& v(event, event2)
                &&& method == method2
            }),
            (self matches Fact::UsageChange { event, new_usages } ==> {
                &&& out matches Fact::UsageChange { event: event2, new_usages: new_usages2 }
                &&& v(event, event2)
                &&& new_usages == new_usages2
            }),
            (self matches Fact::Designation { event, designation } ==> {
                &&& out matches Fact::Designation { event: event2, designation: designation2 }
                &&& v(event, event2)
                &&& designation == designation2
            }),
            (self matches Fact::Description { event, text } ==> {
                &&& out matches Fact::Description { event: event2, text: text2 }
                &&& v(event, event2)
                &&& text == text2
            }),
            (self matches Fact::Gap { gap } ==> {
                &&& out matches Fact::Gap { gap: gap2 }
                &&& gap.maps_by(gap2, e, v)
            }),
            out is DurationalDate ==> self is DurationalDate,
            out is PointDate ==> self is PointDate,
            out is MovedToLocation ==> self is MovedToLocation,
            out is DamageCause ==> self is DamageCause,
            out is MoveMethod ==> self is MoveMethod,
            out is UsageChange ==> self is UsageChange,
            out is Designation ==> self is Designation,
            out is Description ==> self is Description,
            out is Gap ==> self is Gap,
    {
    }

    /// Mapping every id to itself changes nothing.
    pub proof fn law_mapping_to_itself(self, out: Fact<EntId, EvtId>)
        requires
            self.maps_by(out, itself::<EntId>(), itself::<EvtId>()),
        ensures
            out == self,
    {
        match (self, out) {
            (
                Fact::Gap { gap },
                Fact::Gap { gap: gap2 },
            ) => {
                gap.law_mapping_to_itself(gap2);
            },
            _ => {},
        }
    }

    /// Mapping the ids there and back gives the fact again, where the way back undoes the
    /// way there.
    pub proof fn law_mapping_there_and_back<E2: TotalOrder, V2: TotalOrder>(
        self,
        out: Fact<E2, V2>,
        back: Fact<EntId, EvtId>,
        e: spec_fn(EntId, E2) -> bool,
        e_back: spec_fn(E2, EntId) -> bool,
        v: spec_fn(EvtId, V2) -> bool,
        v_back: spec_fn(V2, EvtId) -> bool,
    )
        requires
            self.maps_by(out, e, v),
            out.maps_by(back, e_back, v_back),
            undoes(e, e_back),
            undoes(v, v_back),
        ensures
            back == self,
    {
        match (self, out, back) {
            (
                Fact::Gap { gap },
                Fact::Gap { gap: gap2 },
                Fact::Gap { gap: gap3 },
            ) => {
                gap.law_mapping_there_and_back(gap2, gap3, e, e_back, v, v_back);
            },
            _ => {},
        }
    }

    /// Mapping the ids fails only with the error of an id that is mentioned.
    pub proof fn law_failure_is_of_a_mentioned_id<
        E2: TotalOrder,
        V2: TotalOrder,
        Fault,
        FE: Fn(&EntId) -> Result<E2, Fault>,
        FV: Fn(&EvtId) -> Result<V2, Fault>,
    >(
        self,
        fe: FE,
        fv: FV,
        error: Fault,
    )
        requires
            self.fails_by(fe, fv, error),
        ensures
            (exists|k: int|
                0 <= k < self.entities().len() && #[trigger] call_ensures(
                    fe,
                    (&self.entities()[k],),
                    Err::<E2, Fault>(error),
                ))
                || (exists|k: int|
                0 <= k < self.events().len() && #[trigger] call_ensures(
                    fv,
                    (&self.events()[k],),
                    Err::<V2, Fault>(error),
                )),
    {
        match self {
            Fact::DurationalDate { event, .. } => {
                assert(self.events()[0] == event);
                assert(call_ensures(fv, (&event,), Err::<V2, Fault>(error)) ==> call_ensures(
                    fv,
                    (&self.events()[0],),
                    Err::<V2, Fault>(error),
                ));
            },
            Fact::PointDate { event, .. } => {
                assert(self.events()[0] == event);
                assert(call_ensures(fv, (&event,), Err::<V2, Fault>(error)) ==> call_ensures(
                    fv,
                    (&self.events()[0],),
                    Err::<V2, Fault>(error),
                ));
            },
            Fact::MovedToLocation { event, .. } => {
                assert(self.events()[0] == event);
                assert(call_ensures(fv, (&event,), Err::<V2, Fault>(error)) ==> call_ensures(
                    fv,
                    (&self.events()[0],),
                    Err::<V2, Fault>(error),
                ));
            },
            Fact::DamageCause { event, .. } => {
                assert(self.events()[0] == event);
                assert(call_ensures(fv, (&event,), Err::<V2, Fault>(error)) ==> call_ensures(
                    fv,
                    (&self.events()[0],),
                    Err::<V2, Fault>(error),
                ));
            },
            Fact::MoveMethod { event, .. } => {
                assert(self.events()[0] == event);
                assert(call_ensures(fv, (&event,), Err::<V2, Fault>(error)) ==> call_ensures(
                    fv,
                    (&self.events()[0],),
                    Err::<V2, Fault>(error),
                ));
            },
            Fact::UsageChange { event, .. } => {
                assert(self.events()[0] == event);
                assert(call_ensures(fv, (&event,), Err::<V2, Fault>(error)) ==> call_ensures(
                    fv,
                    (&self.events()[0],),
                    Err::<V2, Fault>(error),
                ));
            },
            Fact::Designation { event, .. } => {
                assert(self.events()[0] == event);
                assert(call_ensures(fv, (&event,), Err::<V2, Fault>(error)) ==> call_ensures(
                    fv,
                    (&self.events()[0],),
                    Err::<V2, Fault>(error),
                ));
            },
            Fact::Description { event, .. } => {
                assert(self.events()[0] == event);
                assert(call_ensures(fv, (&event,), Err::<V2, Fault>(error)) ==> call_ensures(
                    fv,
                    (&self.events()[0],),
                    Err::<V2, Fault>(error),
                ));
            },
            Fact::Gap { gap } => {
                assert(self.entities() =~= gap.entities());
                assert(self.events() =~= gap.events());
                gap.law_failure_is_of_a_mentioned_id(fe, fv, error);
            },
        }
    }

    /// Which ids a fact mentions, by its kind and in their order.
    pub proof fn law_mentions_by_kind(self)
        ensures
            (self matches Fact::DurationalDate { event, .. } ==> {
                &&& self.entities().len() == 0
                &&& self.events() == seq![event]
            }),
            (self matches Fact::PointDate { event, .. } ==> {
                &&& self.entities().len() == 0
                &&& self.events() == seq![event]
            }),
            (self matches Fact::MovedToLocation { event, .. } ==> {
                &&& self.entities().len() == 0
                &&& self.events() == seq![event]
            }),
            (self matches Fact::DamageCause { event, .. } ==> {
                &&& self.entities().len() == 0
                &&& self.events() == seq![event]
            }),
            (self matches Fact::MoveMethod { event, .. } ==> {
                &&& self.entities().len() == 0
                &&& self.events() == seq![event]
            }),
            (self matches Fact::UsageChange { event, .. } ==> {
                &&& self.entities().len() == 0
                &&& self.events() == seq![event]
            }),
            (self matches Fact::Designation { event, .. } ==> {
                &&& self.entities().len() == 0
                &&& self.events() == seq![event]
            }),
            (self matches Fact::Description { event, .. } ==> {
                &&& self.entities().len() == 0
                &&& self.events() == seq![event]
            }),
            (self matches Fact::Gap { gap } ==> {
                &&& self.entities() == gap.from.entities() + gap.to.entities()
                &&& self.events() == gap.from.events() + gap.to.events()
            }),
    {
    }

    /// Only the ids that a fact mentions matter to it, and it mentions every id that
    /// does: two ways to map them that agree on those give the same.
    pub proof fn law_only_mentioned_ids_matter<E2: TotalOrder, V2: TotalOrder>(
        self,
        out: Fact<E2, V2>,
        e: spec_fn(EntId, E2) -> bool,
        other_e: spec_fn(EntId, E2) -> bool,
        v: spec_fn(EvtId, V2) -> bool,
        other_v: spec_fn(EvtId, V2) -> bool,
    )
        requires
            agree(self.entities(), e, other_e),
            agree(self.events(), v, other_v),
        ensures
            self.maps_by(out, e, v) <==> self.maps_by(out, other_e, other_v),
    {
        match self {
            Fact::DurationalDate { event, .. } => {
                assert(self.events()[0] == event);
            },
            Fact::PointDate { event, .. } => {
                assert(self.events()[0] == event);
            },
            Fact::MovedToLocation { event, .. } => {
                assert(self.events()[0] == event);
            },
            Fact::DamageCause { event, .. } => {
                assert(self.events()[0] == event);
            },
            Fact::MoveMethod { event, .. } => {
                assert(self.events()[0] == event);
            },
            Fact::UsageChange { event, .. } => {
                assert(self.events()[0] == event);
            },
            Fact::Designation { event, .. } => {
                assert(self.events()[0] == event);
            },
            Fact::Description { event, .. } => {
                assert(self.events()[0] == event);
            },
            Fact::Gap { gap } => {
                match out {
                    Fact::Gap { gap: gap2 } => {
                        gap.law_only_mentioned_ids_matter(gap2, e, other_e, v, other_v);
                    },
                    _ => {},
                }
            },
        }
    }
}

impl<EntId: TotalOrder, EvtId: TotalOrder> GapBounds<EntId, EvtId> {
    /// Mapping the ids keeps which event comes first and how far apart the two are.
    pub proof fn law_mapping_keeps_what_is_said<E2: TotalOrder, V2: TotalOrder>(
        self,
        out: GapBounds<E2, V2>,
        e: spec_fn(EntId, E2) -> bool,
        v: spec_fn(EvtId, V2) -> bool,
    )
        requires
            self.maps_by(out, e, v),
        ensures
            self.from.maps_by(out.from, e, v),
            self.to.maps_by(out.to, e, v),
            out.min_days == self.min_days,
            out.max_days == self.max_days,
    {
    }

    /// Mapping every id to itself changes nothing.
    pub proof fn law_mapping_to_itself(self, out: GapBounds<EntId, EvtId>)
        requires
            self.maps_by(out, itself::<EntId>(), itself::<EvtId>()),
        ensures
            out == self,
    {
        self.from.law_mapping_to_itself(out.from);
        self.to.law_mapping_to_itself(out.to);
    }

    /// Mapping the ids there and back gives the gap again, where the way back undoes the
    /// way there.
    pub proof fn law_mapping_there_and_back<E2: TotalOrder, V2: TotalOrder>(
        self,
        out: GapBounds<E2, V2>,
        back: GapBounds<EntId, EvtId>,
        e: spec_fn(EntId, E2) -> bool,
        e_back: spec_fn(E2, EntId) -> bool,
        v: spec_fn(EvtId, V2) -> bool,
        v_back: spec_fn(V2, EvtId) -> bool,
    )
        requires
            self.maps_by(out, e, v),
            out.maps_by(back, e_back, v_back),
            undoes(e, e_back),
            undoes(v, v_back),
        ensures
            back == self,
    {
        self.from.law_mapping_there_and_back(out.from, back.from, e, e_back, v, v_back);
        self.to.law_mapping_there_and_back(out.to, back.to, e, e_back, v, v_back);
    }

    /// Mapping the ids fails only with the error of an id that is mentioned.
    pub proof fn law_failure_is_of_a_mentioned_id<
        E2: TotalOrder,
        V2: TotalOrder,
        Fault,
        FE: Fn(&EntId) -> Result<E2, Fault>,
        FV: Fn(&EvtId) -> Result<V2, Fault>,
    >(
        self,
        fe: FE,
        fv: FV,
        error: Fault,
    )
        requires
            self.fails_by(fe, fv, error),
        ensures
            (exists|k: int|
                0 <= k < self.entities().len() && #[trigger] call_ensures(
                    fe,
                    (&self.entities()[k],),
                    Err::<E2, Fault>(error),
                ))
                || (exists|k: int|
                0 <= k < self.events().len() && #[trigger] call_ensures(
                    fv,
                    (&self.events()[k],),
                    Err::<V2, Fault>(error),
                )),
    {
        assert forall|k: int|
            0 <= k < self.from.entities().len() && #[trigger] call_ensures(
                fe,
                (&self.from.entities()[k],),
                Err::<E2, Fault>(error),
            ) implies call_ensures(fe, (&self.entities()[k],), Err::<E2, Fault>(error)) by {
            assert(self.entities()[k] == self.from.entities()[k]);
        }
        assert forall|k: int|
            0 <= k < self.from.events().len() && #[trigger] call_ensures(
                fv,
                (&self.from.events()[k],),
                Err::<V2, Fault>(error),
            ) implies call_ensures(fv, (&self.events()[k],), Err::<V2, Fault>(error)) by {
            assert(self.events()[k] == self.from.events()[k]);
        }
        let n = self.from.entities().len();
        let m = self.from.events().len();
        assert forall|k: int|
            0 <= k < self.to.entities().len() && #[trigger] call_ensures(
                fe,
                (&self.to.entities()[k],),
                Err::<E2, Fault>(error),
            ) implies call_ensures(fe, (&self.entities()[n + k],), Err::<E2, Fault>(error)) by {
            assert(self.entities()[n + k] == self.to.entities()[k]);
        }
        assert forall|k: int|
            0 <= k < self.to.events().len() && #[trigger] call_ensures(
                fv,
                (&self.to.events()[k],),
                Err::<V2, Fault>(error),
            ) implies call_ensures(fv, (&self.events()[m + k],), Err::<V2, Fault>(error)) by {
            assert(self.events()[m + k] == self.to.events()[k]);
        }
        if self.from.fails_by(fe, fv, error) {
            self.from.law_failure_is_of_a_mentioned_id(fe, fv, error);
        } else {
            self.to.law_failure_is_of_a_mentioned_id(fe, fv, error);
        }
    }

    /// Only the ids that a gap mentions matter to it, and it mentions every id that
    /// does.
    pub proof fn law_only_mentioned_ids_matter<E2: TotalOrder, V2: TotalOrder>(
        self,
        out: GapBounds<E2, V2>,
        e: spec_fn(EntId, E2) -> bool,
        other_e: spec_fn(EntId, E2) -> bool,
        v: spec_fn(EvtId, V2) -> bool,
        other_v: spec_fn(EvtId, V2) -> bool,
    )
        requires
            agree(self.entities(), e, other_e),
            agree(self.events(), v, other_v),
        ensures
            self.maps_by(out, e, v) <==> self.maps_by(out, other_e, other_v),
    {
        let n = self.from.entities().len();
        let m = self.from.events().len();
        assert forall|k: int| 0 <= k < n implies (#[trigger] self.from.entities()[k])
            == self.entities()[k] by {}
        assert forall|k: int| 0 <= k < self.to.entities().len() implies (
        #[trigger] self.to.entities()[k]) == self.entities()[n + k] by {}
        assert forall|k: int| 0 <= k < m implies (#[trigger] self.from.events()[k])
            == self.events()[k] by {}
        assert forall|k: int| 0 <= k < self.to.events().len() implies (
        #[trigger] self.to.events()[k]) == self.events()[m + k] by {}
        self.from.law_only_mentioned_ids_matter(out.from, e, other_e, v, other_v);
        self.to.law_only_mentioned_ids_matter(out.to, e, other_e, v, other_v);
    }
}

/// A gap is accepted exactly where it says something and some number of days fits it;
/// one that says nothing, and one whose least number exceeds its greatest, is refused as
/// that.
pub proof fn law_gap_accepted_where_some_days_fit(min_days: Option<Days>, max_days: Option<Days>)
    ensures
        gap_fault(min_days, max_days) is None <==> (min_days is Some || max_days is Some) && exists|
            n: u64,
        | #[trigger] fits_gap(n, min_days, max_days),
        min_days is None && max_days is None <==> gap_fault(min_days, max_days) == Some(
            GapBoundsError::Unconstrained,
        ),
        (gap_fault(min_days, max_days) matches Some(GapBoundsError::MinExceedsMax {
            min_days: lo,
            max_days: hi,
        }) ==> min_days is Some && max_days is Some && lo == min_days->0.count() && hi
            == max_days->0.count() && hi < lo),
{
    match (min_days, max_days) {
        (Some(lo), _) => {
            assert(fits_gap(lo.count(), min_days, max_days) || gap_fault(
                min_days,
                max_days,
            ) is Some);
        },
        (None, Some(hi)) => {
            assert(fits_gap(hi.count(), min_days, max_days));
        },
        (None, None) => {},
    }
}

/// Whether a number of days is no less than the least and no more than the greatest.
pub open spec fn fits_gap(n: u64, min_days: Option<Days>, max_days: Option<Days>) -> bool {
    &&& min_days matches Some(lo) ==> lo.count() <= n
    &&& max_days matches Some(hi) ==> n <= hi.count()
}

} // verus!
