//! Checks for logical inconsistencies in entity data. Inconsistencies are
//! reported but don't prevent data from being accepted.
use vstd::prelude::*;
use vstd::string::*;

use crate::calendar::CalendarDate;
use crate::date::{TimeRange, UncertainDate};
use crate::entity::{Entity, EntityName, EntityTransition};
use crate::evidence::Cited;
#[allow(unused_imports)]
use crate::moment::{
    decompose, decomposed, edges_from, facts_of, first_day_of, last_day_of,
    law_first_and_last_day_bound_the_date, law_open_date_reaches_back, law_open_date_reaches_on,
    lemma_edges, moments_of, must_precede, pairs_of, structural_edges, Moment, MomentFacts,
};

verus! {

/// What a warning says.
pub enum Warning {
    /// A transition's completion date is before its start date.
    CompletionBeforeStart {
        /// The first day it may have begun.
        started_earliest: CalendarDate,
        /// The last day it may have been over.
        completed_latest: CalendarDate,
    },
    /// The dates of two transitions contradict the order of a life.
    EventsOutOfOrder {
        /// The earlier of the two days.
        earlier_date: CalendarDate,
        /// The later of the two days.
        later_date: CalendarDate,
    },
    /// An event occurs after the entity was demolished.
    EventAfterDemolished {
        /// The first day of the event.
        event_date: CalendarDate,
        /// The last day of the demolition.
        demolished_date: CalendarDate,
    },
    /// Several constructions.
    MultipleConstructions {
        /// How many.
        count: int,
    },
    /// A name's validity range is inverted.
    NameValidityInverted {
        /// The name.
        name: Seq<char>,
        /// Since when it was used.
        valid_from: Seq<TimeRange>,
        /// Until when it was used.
        valid_to: Seq<TimeRange>,
    },
}

/// A consistency warning carrying structured data.
#[derive(Debug, Clone, PartialEq, Eq)]
pub enum ConsistencyWarning {
    /// A transition's completion date is before its start date.
    CompletionBeforeStart {
        /// The first day it may have begun.
        started_earliest: CalendarDate,
        /// The last day it may have been over.
        completed_latest: CalendarDate,
    },
    /// The dates of two transitions contradict the order of a life.
    EventsOutOfOrder {
        /// The earlier of the two days.
        earlier_date: CalendarDate,
        /// The later of the two days.
        later_date: CalendarDate,
    },
    /// A non-demolition event occurs after the entity was demolished.
    EventAfterDemolished {
        /// The first day of the event.
        event_date: CalendarDate,
        /// The last day of the demolition.
        demolished_date: CalendarDate,
    },
    /// Multiple construction events exist (may indicate a merge of two entities,
    /// or a reconstruction).
    MultipleConstructions {
        /// How many.
        count: usize,
    },
    /// A name's validity range is inverted.
    NameValidityInverted {
        /// The name.
        name: String,
        /// Since when it was used.
        valid_from: UncertainDate,
        /// Until when it was used.
        valid_to: UncertainDate,
    },
}

impl View for ConsistencyWarning {
    type V = Warning;

    open spec fn view(&self) -> Warning {
        match self {
            ConsistencyWarning::CompletionBeforeStart { started_earliest, completed_latest } =>
                Warning::CompletionBeforeStart {
                started_earliest: *started_earliest,
                completed_latest: *completed_latest,
            },
            ConsistencyWarning::EventsOutOfOrder { earlier_date, later_date } =>
                Warning::EventsOutOfOrder { earlier_date: *earlier_date, later_date: *later_date },
            ConsistencyWarning::EventAfterDemolished { event_date, demolished_date } =>
                Warning::EventAfterDemolished {
                event_date: *event_date,
                demolished_date: *demolished_date,
            },
            ConsistencyWarning::MultipleConstructions { count } => Warning::MultipleConstructions {
                count: *count as int,
            },
            ConsistencyWarning::NameValidityInverted { name, valid_from, valid_to } =>
                Warning::NameValidityInverted {
                name: name@,
                valid_from: valid_from@,
                valid_to: valid_to@,
            },
        }
    }
}

/// What the warnings say.
pub open spec fn said(warnings: Seq<ConsistencyWarning>) -> Seq<Warning> {
    Seq::new(warnings.len(), |i: int| warnings[i]@)
}

// --- Temporal violations ---

/// Whether the dates say that `to` comes strictly before `from`.
pub open spec fn contradicted(from: MomentFacts, to: MomentFacts) -> bool {
    &&& from.earliest is Some
    &&& to.latest is Some
    &&& to.latest->0.day_number() < from.earliest->0.day_number()
}

/// The warning on an edge that the dates contradict, by the kind of edge.
pub open spec fn classified(from: MomentFacts, to: MomentFacts) -> Warning {
    if from.transition_index == to.transition_index && from.role.ends_with_role() == Some(to.role) {
        Warning::CompletionBeforeStart {
            started_earliest: from.earliest->0,
            completed_latest: to.latest->0,
        }
    } else if !from.role.demolishes() && to.role.demolishes() {
        Warning::EventAfterDemolished {
            event_date: from.earliest->0,
            demolished_date: to.latest->0,
        }
    } else {
        Warning::EventsOutOfOrder { earlier_date: to.latest->0, later_date: from.earliest->0 }
    }
}

/// The warnings on the first `n` edges.
pub open spec fn violations(
    moments: Seq<MomentFacts>,
    edges: Seq<(int, int)>,
    n: nat,
) -> Seq<Warning>
    decreases n,
{
    if n == 0 {
        Seq::empty()
    } else {
        let rest = violations(moments, edges, (n - 1) as nat);
        let from = moments[edges[n - 1].0];
        let to = moments[edges[n - 1].1];
        if contradicted(from, to) {
            rest.push(classified(from, to))
        } else {
            rest
        }
    }
}

/// Detect temporal violations by checking each structural edge against date
/// evidence. An edge is violated when the dates say that its end comes strictly
/// before its beginning, contradicting the order of a life.
///
/// From the start of a transition to its own end the violation is a
/// [`ConsistencyWarning::CompletionBeforeStart`], from anything else to a
/// demolition a [`ConsistencyWarning::EventAfterDemolished`], and in all other
/// cases a [`ConsistencyWarning::EventsOutOfOrder`].
pub fn find_violations(moments: &Vec<Moment>) -> (r: Vec<ConsistencyWarning>)
    ensures
        said(r@) == violations(
            facts_of(moments@),
            edges_from(facts_of(moments@), moments@.len()),
            edges_from(facts_of(moments@), moments@.len()).len(),
        ),
{
    let ghost facts = facts_of(moments@);
    let ghost edges = edges_from(facts, moments@.len());
    let pairs = structural_edges(moments);
    let mut warnings: Vec<ConsistencyWarning> = Vec::new();
    let mut k: usize = 0;
    assert(said(warnings@) =~= violations(facts, edges, 0));
    while k < pairs.len()
        invariant
            k <= pairs@.len(),
            facts == facts_of(moments@),
            edges == pairs_of(pairs@),
            forall|k: int| 0 <= k < pairs@.len() ==> (#[trigger] pairs@[k]).0 < moments@.len()
                && pairs@[k].1 < moments@.len(),
            said(warnings@) == violations(facts, edges, k as nat),
        decreases pairs.len() - k,
    {
        let from = &moments[pairs[k].0];
        let to = &moments[pairs[k].1];
        assert(edges[k as int] == (pairs@[k as int].0 as int, pairs@[k as int].1 as int));
        assert(facts[edges[k as int].0] == from@);
        assert(facts[edges[k as int].1] == to@);
        let ghost before = said(warnings@);
        match (from.earliest(), to.latest()) {
            (Some(from_early), Some(to_late)) => {
                if to_late.is_before(&from_early) {
                    let own_end = if from.transition_index() == to.transition_index() {
                        match from.role().durational_end() {
                            Some(role) => role == to.role(),
                            None => false,
                        }
                    } else {
                        false
                    };
                    if own_end {
                        warnings.push(
                            ConsistencyWarning::CompletionBeforeStart {
                                started_earliest: from_early,
                                completed_latest: to_late,
                            },
                        );
                    } else if !from.role().is_demolition() && to.role().is_demolition() {
                        warnings.push(
                            ConsistencyWarning::EventAfterDemolished {
                                event_date: from_early,
                                demolished_date: to_late,
                            },
                        );
                    } else {
                        warnings.push(
                            ConsistencyWarning::EventsOutOfOrder {
                                earlier_date: to_late,
                                later_date: from_early,
                            },
                        );
                    }
                    assert(said(warnings@) =~= before.push(classified(from@, to@)));
                }
            },
            _ => {},
        }
        k += 1;
    }
    warnings
}

// --- The rest ---

/// How many of the first `n` transitions are constructions.
pub open spec fn constructions<E, S>(transitions: Seq<EntityTransition<E, S>>, n: nat) -> nat
    decreases n,
{
    if n == 0 {
        0
    } else {
        constructions(transitions, (n - 1) as nat) + if transitions[n - 1] is Constructed {
            1nat
        } else {
            0nat
        }
    }
}

/// Whether a validity range is inverted: the earliest day it may begin comes
/// after the latest day it may end. Where one of the two is open, it is not.
pub open spec fn inverted(from: UncertainDate, to: UncertainDate) -> bool {
    match (first_day_of(from), last_day_of(to)) {
        (Some(from), Some(to)) => to.day_number() < from.day_number(),
        _ => false,
    }
}

/// The warnings on the first `n` names.
pub open spec fn name_warnings<S>(names: Seq<Cited<EntityName, S>>, n: nat) -> Seq<Warning>
    decreases n,
{
    if n == 0 {
        Seq::empty()
    } else {
        let rest = name_warnings(names, (n - 1) as nat);
        let name = names[n - 1].value;
        match (name.valid_from, name.valid_to) {
            (Some(from), Some(to)) => if inverted(from, to) {
                rest.push(
                    Warning::NameValidityInverted {
                        name: name.name@,
                        valid_from: from@,
                        valid_to: to@,
                    },
                )
            } else {
                rest
            },
            _ => rest,
        }
    }
}

/// The warnings that the transitions of an entity earn together.
pub open spec fn temporal_warnings<E, S>(transitions: Seq<EntityTransition<E, S>>) -> Seq<Warning> {
    let moments = decomposed(transitions, transitions.len());
    let edges = edges_from(moments, moments.len());
    violations(moments, edges, edges.len())
}

/// The warning on several constructions.
pub open spec fn construction_warnings<E, S>(
    transitions: Seq<EntityTransition<E, S>>,
) -> Seq<Warning> {
    let count = constructions(transitions, transitions.len());
    if count > 1 {
        seq![Warning::MultipleConstructions { count: count as int }]
    } else {
        Seq::empty()
    }
}

/// Whether a validity range is inverted.
fn is_inverted(from: &UncertainDate, to: &UncertainDate) -> (r: bool)
    ensures
        r == inverted(*from, *to),
{
    proof {
        use_type_invariant(from);
        use_type_invariant(to);
        crate::date::uncertain::lemma_ends_valid(*from);
        crate::date::uncertain::lemma_ends_valid(*to);
    }
    match (from.earliest(), to.latest()) {
        (Some(from), Some(to)) => to.is_before(&from),
        _ => false,
    }
}

impl<E, S> Entity<E, S> {
    /// Check this entity for consistency issues: first the temporal violations,
    /// then several constructions, then names with an inverted validity range.
    pub fn check_consistency(&self) -> (r: Vec<ConsistencyWarning>)
        ensures
            said(r@) == temporal_warnings(self.transitions@) + construction_warnings(
                self.transitions@,
            ) + name_warnings(self.names@, self.names@.len()),
    {
        let mut warnings = find_violations(&decompose(&self.transitions));
        let ghost first = temporal_warnings(self.transitions@);
        assert(said(warnings@) == first);
        let mut count: usize = 0;
        let mut i: usize = 0;
        while i < self.transitions.len()
            invariant
                i <= self.transitions@.len(),
                count <= i,
                count == constructions(self.transitions@, i as nat),
            decreases self.transitions.len() - i,
        {
            match &self.transitions[i] {
                EntityTransition::Constructed { .. } => {
                    count += 1;
                },
                _ => {},
            }
            i += 1;
        }
        if count > 1 {
            warnings.push(ConsistencyWarning::MultipleConstructions { count });
        }
        let ghost second = first + construction_warnings(self.transitions@);
        assert(said(warnings@) =~= second);
        let mut j: usize = 0;
        assert(said(warnings@) =~= second + name_warnings(self.names@, 0));
        while j < self.names.len()
            invariant
                j <= self.names@.len(),
                said(warnings@) == second + name_warnings(self.names@, j as nat),
            decreases self.names.len() - j,
        {
            let name = &self.names[j].value;
            let ghost before = said(warnings@);
            match (&name.valid_from, &name.valid_to) {
                (Some(from), Some(to)) => {
                    if is_inverted(from, to) {
                        warnings.push(
                            ConsistencyWarning::NameValidityInverted {
                                name: name.name.clone(),
                                valid_from: from.clone(),
                                valid_to: to.clone(),
                            },
                        );
                        assert(said(warnings@) =~= before.push(warnings@.last()@));
                    }
                },
                _ => {},
            }
            assert(said(warnings@) =~= second + name_warnings(self.names@, (j + 1) as nat));
            j += 1;
        }
        warnings
    }
}

/// No edge is warned of exactly where none of them is contradicted.
proof fn lemma_no_violations(moments: Seq<MomentFacts>, edges: Seq<(int, int)>, n: nat)
    requires
        n <= edges.len(),
    ensures
        violations(moments, edges, n).len() == 0 <==> forall|k: int|
            0 <= k < n ==> !contradicted(moments[(#[trigger] edges[k]).0], moments[edges[k].1]),
    decreases n,
{
    if n > 0 {
        lemma_no_violations(moments, edges, (n - 1) as nat);
        let last = edges[n - 1];
        if violations(moments, edges, n).len() == 0 {
            assert(!contradicted(moments[last.0], moments[last.1]));
        }
    }
}

/// A life earns a temporal warning exactly where the dates contradict an order
/// that the life imposes.
pub proof fn law_warned_exactly_where_contradicted<E, S>(transitions: Seq<EntityTransition<E, S>>)
    ensures
        temporal_warnings(transitions).len() == 0 <==> {
            let moments = decomposed(transitions, transitions.len());
            forall|i: int, j: int|
                0 <= i < moments.len() && 0 <= j < moments.len() && must_precede(
                    moments[i],
                    moments[j],
                ) ==> !#[trigger] contradicted(moments[i], moments[j])
        },
{
    let moments = decomposed(transitions, transitions.len());
    let edges = edges_from(moments, moments.len());
    lemma_no_violations(moments, edges, edges.len());
    if temporal_warnings(transitions).len() == 0 {
        assert forall|i: int, j: int|
            0 <= i < moments.len() && 0 <= j < moments.len() && must_precede(
                moments[i],
                moments[j],
            ) implies !#[trigger] contradicted(moments[i], moments[j]) by {
            lemma_edges(moments, moments.len(), (i, j));
            let k = choose|k: int| 0 <= k < edges.len() && edges[k] == (i, j);
            assert(edges[k] == (i, j));
        }
    } else {
        let k = choose|k: int|
            0 <= k < edges.len() && contradicted(
                moments[(#[trigger] edges[k]).0],
                moments[edges[k].1],
            );
        assert(edges.contains(edges[k]));
        lemma_edges(moments, moments.len(), edges[k]);
    }
}

// --- Warnings by days ---

/// Whether days can be chosen for two moments, the first no earlier than the first
/// moment may have been and the second no later than the second may have been, such
/// that the first does not come after the second.
pub open spec fn some_days_fit(from: MomentFacts, to: MomentFacts) -> bool {
    exists|d1: int, d2: int| #[trigger] days_fit(from, to, d1, d2)
}

/// Whether the first moment may have been on the first day or before, the second on the
/// second day or after, and the first day does not come after the second.
pub open spec fn days_fit(from: MomentFacts, to: MomentFacts, d1: int, d2: int) -> bool {
    &&& from.earliest matches Some(day) ==> day.day_number() <= d1
    &&& to.latest matches Some(day) ==> d2 <= day.day_number()
    &&& d1 <= d2
}

/// The dates contradict an order exactly where no days fit it.
pub proof fn law_contradicted_exactly_where_no_days_fit(from: MomentFacts, to: MomentFacts)
    ensures
        contradicted(from, to) <==> !some_days_fit(from, to),
{
    if !contradicted(from, to) {
        let d1 = match (from.earliest, to.latest) {
            (Some(day), _) => day.day_number(),
            (None, Some(day)) => day.day_number(),
            (None, None) => 0,
        };
        let d2 = match to.latest {
            Some(day) => day.day_number(),
            None => d1,
        };
        assert(days_fit(from, to, d1, d2));
    }
}

/// Whether the warning is on the pair of moments: it names the first day of the first
/// and the last day of the second, and its kind says how the two relate.
pub open spec fn warns_of(warning: Warning, from: MomentFacts, to: MomentFacts) -> bool {
    &&& from.earliest is Some
    &&& to.latest is Some
    &&& match warning {
        Warning::CompletionBeforeStart { started_earliest, completed_latest } => {
            &&& started_earliest == from.earliest->0
            &&& completed_latest == to.latest->0
            &&& from.transition_index == to.transition_index
            &&& (from.role is ConstructionStarted && to.role is ConstructionCompleted) || (
            from.role is ModificationStarted && to.role is ModificationCompleted) || (
            from.role is RepairStarted && to.role is RepairCompleted) || (
            from.role is DemolitionStarted && to.role is DemolitionCompleted)
        },
        Warning::EventAfterDemolished { event_date, demolished_date } => {
            &&& event_date == from.earliest->0
            &&& demolished_date == to.latest->0
            &&& !(from.role is DemolitionStarted || from.role is DemolitionCompleted)
            &&& to.role is DemolitionStarted || to.role is DemolitionCompleted
        },
        Warning::EventsOutOfOrder { earlier_date, later_date } => {
            &&& earlier_date == to.latest->0
            &&& later_date == from.earliest->0
            &&& from.role is ConstructionStarted || from.role is ConstructionCompleted
            &&& !(to.role is ConstructionStarted || to.role is ConstructionCompleted)
            &&& !(to.role is DemolitionStarted || to.role is DemolitionCompleted)
        },
        _ => false,
    }
}

/// The warning on each of the first `n` edges that is contradicted is there.
proof fn lemma_edge_is_warned_of(
    moments: Seq<MomentFacts>,
    edges: Seq<(int, int)>,
    n: nat,
    k: int,
)
    requires
        0 <= k < n <= edges.len(),
        contradicted(moments[edges[k].0], moments[edges[k].1]),
    ensures
        violations(moments, edges, n).contains(
            classified(moments[edges[k].0], moments[edges[k].1]),
        ),
    decreases n,
{
    let w = classified(moments[edges[k].0], moments[edges[k].1]);
    let rest = violations(moments, edges, (n - 1) as nat);
    let all = violations(moments, edges, n);
    if k == n - 1 {
        assert(all[rest.len() as int] == w);
    } else {
        lemma_edge_is_warned_of(moments, edges, (n - 1) as nat, k);
        let at = rest.index_of(w);
        assert(all[at] == w);
    }
}

/// Each warning on the first `n` edges is on one of them that is contradicted.
proof fn lemma_warning_is_on_an_edge(
    moments: Seq<MomentFacts>,
    edges: Seq<(int, int)>,
    n: nat,
    at: int,
) -> (k: int)
    requires
        n <= edges.len(),
        0 <= at < violations(moments, edges, n).len(),
    ensures
        0 <= k < n,
        contradicted(moments[edges[k].0], moments[edges[k].1]),
        violations(moments, edges, n)[at] == classified(moments[edges[k].0], moments[edges[k].1]),
    decreases n,
{
    if at < violations(moments, edges, (n - 1) as nat).len() {
        lemma_warning_is_on_an_edge(moments, edges, (n - 1) as nat, at)
    } else {
        n - 1
    }
}

/// A pair of moments of which the first must come before the second is warned of
/// where no days fit that order.
pub proof fn law_warned_where_no_days_fit(moments: Seq<MomentFacts>, i: int, j: int)
    requires
        0 <= i < moments.len(),
        0 <= j < moments.len(),
        must_precede(moments[i], moments[j]),
        !some_days_fit(moments[i], moments[j]),
    ensures
        ({
            let edges = edges_from(moments, moments.len());
            exists|k: int|
                0 <= k < violations(moments, edges, edges.len()).len() && warns_of(
                    #[trigger] violations(moments, edges, edges.len())[k],
                    moments[i],
                    moments[j],
                )
        }),
{
    let edges = edges_from(moments, moments.len());
    law_contradicted_exactly_where_no_days_fit(moments[i], moments[j]);
    lemma_edges(moments, moments.len(), (i, j));
    let at = edges.index_of((i, j));
    lemma_edge_is_warned_of(moments, edges, edges.len(), at);
    let all = violations(moments, edges, edges.len());
    let w = classified(moments[i], moments[j]);
    let k = all.index_of(w);
    assert(warns_of(all[k], moments[i], moments[j]));
}

/// Each temporal warning is on a pair of moments of which the first must come before
/// the second and no days fit that order: where some days fit, no warning comes.
pub proof fn law_no_warning_where_days_fit(moments: Seq<MomentFacts>, k: int) -> (r: (int, int))
    requires
        ({
            let edges = edges_from(moments, moments.len());
            0 <= k < violations(moments, edges, edges.len()).len()
        }),
    ensures
        0 <= r.0 < moments.len(),
        0 <= r.1 < moments.len(),
        must_precede(moments[r.0], moments[r.1]),
        !some_days_fit(moments[r.0], moments[r.1]),
        ({
            let edges = edges_from(moments, moments.len());
            warns_of(
                violations(moments, edges, edges.len())[k],
                moments[r.0],
                moments[r.1],
            )
        }),
{
    let edges = edges_from(moments, moments.len());
    let at = lemma_warning_is_on_an_edge(moments, edges, edges.len(), k);
    let (i, j) = edges[at];
    assert(edges.contains((i, j)));
    lemma_edges(moments, moments.len(), (i, j));
    law_contradicted_exactly_where_no_days_fit(moments[i], moments[j]);
    (i, j)
}

/// Whether the two dates allow days of which the first does not come after the second.
pub open spec fn dates_fit(from: UncertainDate, to: UncertainDate) -> bool {
    exists|d1: int, d2: int| #[trigger] from.allows(d1) && #[trigger] to.allows(d2) && d1 <= d2
}

/// Days fit two dates, neither of them empty, unless the last day of the second comes
/// before the first day of the first.
pub proof fn law_dates_fit_by_first_and_last_day(from: UncertainDate, to: UncertainDate)
    requires
        from.wf(),
        to.wf(),
        from@.len() > 0,
        to@.len() > 0,
    ensures
        dates_fit(from, to) <==> !(first_day_of(from) matches Some(first) && last_day_of(
            to,
        ) matches Some(last) && last.day_number() < first.day_number()),
        dates_fit(from, to) <==> !inverted(from, to),
{
    law_first_and_last_day_bound_the_date(from);
    law_first_and_last_day_bound_the_date(to);
    if !inverted(from, to) {
        let (d1, d2) = match (first_day_of(from), last_day_of(to)) {
            (Some(first), Some(last)) => (first.day_number(), last.day_number()),
            (Some(first), None) => {
                let e = law_open_date_reaches_on(to, first.day_number());
                (first.day_number(), e)
            },
            (None, Some(last)) => {
                let e = law_open_date_reaches_back(from, last.day_number());
                (e, last.day_number())
            },
            (None, None) => {
                let e = law_open_date_reaches_back(from, 0);
                (e, law_open_date_reaches_on(to, e))
            },
        };
        assert(from.allows(d1) && to.allows(d2));
    }
}

/// Where each moment of the transition at `k` stands among those of the first `n`.
proof fn lemma_moment_stands<E, S>(
    transitions: Seq<EntityTransition<E, S>>,
    n: nat,
    k: int,
    e: int,
) -> (p: int)
    requires
        0 <= k < n <= transitions.len(),
        0 <= e < moments_of(transitions[k], k).len(),
    ensures
        0 <= p < decomposed(transitions, n).len(),
        decomposed(transitions, n)[p] == moments_of(transitions[k], k)[e],
    decreases n,
{
    let rest = decomposed(transitions, (n - 1) as nat);
    if k == n - 1 {
        rest.len() + e
    } else {
        lemma_moment_stands(transitions, (n - 1) as nat, k, e)
    }
}

/// Which transition each of the first moments is of.
proof fn lemma_moment_is_of<E, S>(transitions: Seq<EntityTransition<E, S>>, n: nat, p: int) -> (r: (
    int,
    int,
))
    requires
        n <= transitions.len(),
        0 <= p < decomposed(transitions, n).len(),
    ensures
        0 <= r.0 < n,
        0 <= r.1 < moments_of(transitions[r.0], r.0).len(),
        decomposed(transitions, n)[p] == moments_of(transitions[r.0], r.0)[r.1],
    decreases n,
{
    let rest = decomposed(transitions, (n - 1) as nat);
    if p < rest.len() {
        lemma_moment_is_of(transitions, (n - 1) as nat, p)
    } else {
        (n - 1, p - rest.len())
    }
}

/// Whether the transition has this date, at either end.
pub open spec fn dated<E, S>(
    transition: EntityTransition<E, S>,
    date: Cited<UncertainDate, S>,
) -> bool {
    transition.start() == Some(date) || transition.end() == Some(date)
}

/// The moment of a transition that has this date.
proof fn lemma_dated_moment<E, S>(
    transitions: Seq<EntityTransition<E, S>>,
    k: int,
    date: Cited<UncertainDate, S>,
) -> (p: int)
    requires
        0 <= k < transitions.len(),
        dated(transitions[k], date),
    ensures
        ({
            let moments = decomposed(transitions, transitions.len());
            &&& 0 <= p < moments.len()
            &&& moments[p].earliest == first_day_of(date.value)
            &&& moments[p].latest == last_day_of(date.value)
            &&& moments[p].role.constructs() <==> transitions[k] is Constructed
            &&& moments[p].role.demolishes() <==> transitions[k] is Demolished
        }),
{
    if transitions[k].start() == Some(date) {
        lemma_moment_stands(transitions, transitions.len(), k, 0)
    } else {
        lemma_moment_stands(transitions, transitions.len(), k, 1)
    }
}

/// The warning on two moments that must be in this order, where no days of their dates
/// fit.
proof fn lemma_dates_that_do_not_fit<E, S>(
    transitions: Seq<EntityTransition<E, S>>,
    i: int,
    j: int,
    from: UncertainDate,
    to: UncertainDate,
)
    requires
        ({
            let moments = decomposed(transitions, transitions.len());
            &&& 0 <= i < moments.len()
            &&& 0 <= j < moments.len()
            &&& must_precede(moments[i], moments[j])
            &&& moments[i].earliest == first_day_of(from)
            &&& moments[j].latest == last_day_of(to)
        }),
        from.wf(),
        to.wf(),
        from@.len() > 0,
        to@.len() > 0,
        !dates_fit(from, to),
    ensures
        first_day_of(from) is Some,
        last_day_of(to) is Some,
        ({
            let moments = decomposed(transitions, transitions.len());
            temporal_warnings(transitions).contains(classified(moments[i], moments[j]))
        }),
{
    let moments = decomposed(transitions, transitions.len());
    let edges = edges_from(moments, moments.len());
    law_dates_fit_by_first_and_last_day(from, to);
    assert(contradicted(moments[i], moments[j]));
    lemma_edges(moments, moments.len(), (i, j));
    lemma_edge_is_warned_of(moments, edges, edges.len(), edges.index_of((i, j)));
}

/// A construction, modification, repair or demolition that on no days the dates allow
/// began no later than it was over is warned of, by the first day it may have begun and
/// the last day it may have been over.
pub proof fn law_completion_before_start_is_warned_of<E, S>(
    transitions: Seq<EntityTransition<E, S>>,
    k: int,
    started: Cited<UncertainDate, S>,
    completed: Cited<UncertainDate, S>,
)
    requires
        0 <= k < transitions.len(),
        transitions[k].start() == Some(started),
        transitions[k].end() == Some(completed),
        started.value.wf(),
        completed.value.wf(),
        started.value@.len() > 0,
        completed.value@.len() > 0,
        !dates_fit(started.value, completed.value),
    ensures
        first_day_of(started.value) is Some,
        last_day_of(completed.value) is Some,
        temporal_warnings(transitions).contains(
            (Warning::CompletionBeforeStart {
                started_earliest: first_day_of(started.value)->0,
                completed_latest: last_day_of(completed.value)->0,
            }),
        ),
{
    let n = transitions.len();
    let i = lemma_moment_stands(transitions, n, k, 0);
    let j = lemma_moment_stands(transitions, n, k, 1);
    lemma_dates_that_do_not_fit(transitions, i, j, started.value, completed.value);
}

/// What is neither a construction nor a demolition is warned of where on no days the
/// dates allow it came no earlier than an end of a construction.
pub proof fn law_event_before_construction_is_warned_of<E, S>(
    transitions: Seq<EntityTransition<E, S>>,
    k: int,
    l: int,
    built: Cited<UncertainDate, S>,
    happened: Cited<UncertainDate, S>,
)
    requires
        0 <= k < transitions.len(),
        0 <= l < transitions.len(),
        transitions[k] is Constructed,
        !(transitions[l] is Constructed),
        !(transitions[l] is Demolished),
        dated(transitions[k], built),
        dated(transitions[l], happened),
        built.value.wf(),
        happened.value.wf(),
        built.value@.len() > 0,
        happened.value@.len() > 0,
        !dates_fit(built.value, happened.value),
    ensures
        first_day_of(built.value) is Some,
        last_day_of(happened.value) is Some,
        temporal_warnings(transitions).contains(
            (Warning::EventsOutOfOrder {
                earlier_date: last_day_of(happened.value)->0,
                later_date: first_day_of(built.value)->0,
            }),
        ),
{
    let i = lemma_dated_moment(transitions, k, built);
    let j = lemma_dated_moment(transitions, l, happened);
    lemma_dates_that_do_not_fit(transitions, i, j, built.value, happened.value);
}

/// What is no demolition is warned of where on no days the dates allow it came no
/// later than an end of a demolition.
pub proof fn law_event_after_demolition_is_warned_of<E, S>(
    transitions: Seq<EntityTransition<E, S>>,
    k: int,
    l: int,
    happened: Cited<UncertainDate, S>,
    demolished: Cited<UncertainDate, S>,
)
    requires
        0 <= k < transitions.len(),
        0 <= l < transitions.len(),
        !(transitions[k] is Demolished),
        transitions[l] is Demolished,
        dated(transitions[k], happened),
        dated(transitions[l], demolished),
        happened.value.wf(),
        demolished.value.wf(),
        happened.value@.len() > 0,
        demolished.value@.len() > 0,
        !dates_fit(happened.value, demolished.value),
    ensures
        first_day_of(happened.value) is Some,
        last_day_of(demolished.value) is Some,
        temporal_warnings(transitions).contains(
            (Warning::EventAfterDemolished {
                event_date: first_day_of(happened.value)->0,
                demolished_date: last_day_of(demolished.value)->0,
            }),
        ),
{
    let i = lemma_dated_moment(transitions, k, happened);
    let j = lemma_dated_moment(transitions, l, demolished);
    lemma_dates_that_do_not_fit(transitions, i, j, happened.value, demolished.value);
}

/// The date of a moment that has a first or a last day.
proof fn lemma_moment_date<E, S>(transitions: Seq<EntityTransition<E, S>>, k: int, e: int) -> (r:
    Cited<UncertainDate, S>)
    requires
        0 <= k < transitions.len(),
        0 <= e < moments_of(transitions[k], k).len(),
        moments_of(transitions[k], k)[e].earliest is Some || moments_of(
            transitions[k],
            k,
        )[e].latest is Some,
    ensures
        dated(transitions[k], r),
        e == 0 ==> transitions[k].start() == Some(r),
        e == 1 ==> transitions[k].end() == Some(r),
        moments_of(transitions[k], k)[e].earliest == first_day_of(r.value),
        moments_of(transitions[k], k)[e].latest == last_day_of(r.value),
        moments_of(transitions[k], k)[e].transition_index == k,
        moments_of(transitions[k], k)[e].role.constructs() <==> transitions[k] is Constructed,
        moments_of(transitions[k], k)[e].role.demolishes() <==> transitions[k] is Demolished,
{
    if e == 0 {
        transitions[k].start()->0
    } else {
        transitions[k].end()->0
    }
}

/// A life earns no temporal warning where days that its dates allow fit its order: of
/// each transition with two ends the start and the end, of a construction and what is
/// neither construction nor demolition, and of what is no demolition and a demolition.
pub proof fn law_no_temporal_warning_where_dates_fit<E, S>(
    transitions: Seq<EntityTransition<E, S>>,
)
    requires
        forall|k: int, a: Cited<UncertainDate, S>|
            0 <= k < transitions.len() && #[trigger] dated(transitions[k], a) ==> a.value.wf(),
        forall|k: int, a: Cited<UncertainDate, S>, b: Cited<UncertainDate, S>|
            0 <= k < transitions.len() && #[trigger] dated(transitions[k], a) && #[trigger] dated(
                transitions[k],
                b,
            ) && transitions[k].start() == Some(a) && transitions[k].end() == Some(b) && a.value@.len()
                > 0 && b.value@.len() > 0 ==> dates_fit(a.value, b.value),
        forall|k: int, l: int, a: Cited<UncertainDate, S>, b: Cited<UncertainDate, S>|
            0 <= k < transitions.len() && 0 <= l < transitions.len() && #[trigger] dated(
                transitions[k],
                a,
            ) && #[trigger] dated(transitions[l], b) && a.value@.len() > 0 && b.value@.len() > 0 && ((
            transitions[k] is Constructed && !(transitions[l] is Constructed) && !(
            transitions[l] is Demolished)) || (!(transitions[k] is Demolished)
                && transitions[l] is Demolished)) ==> dates_fit(a.value, b.value),
    ensures
        temporal_warnings(transitions).len() == 0,
{
    if temporal_warnings(transitions).len() > 0 {
        let n = transitions.len();
        let moments = decomposed(transitions, n);
        let (i, j) = law_no_warning_where_days_fit(moments, 0);
        law_contradicted_exactly_where_no_days_fit(moments[i], moments[j]);
        let (k, e) = lemma_moment_is_of(transitions, n, i);
        let (l, f) = lemma_moment_is_of(transitions, n, j);
        let a = lemma_moment_date(transitions, k, e);
        let b = lemma_moment_date(transitions, l, f);
        law_dates_fit_by_first_and_last_day(a.value, b.value);
        if k == l && moments[i].role.ends_with_role() == Some(moments[j].role) {
            assert(e == 0 && f == 1);
        }
        assert(false);
    }
}

/// A name is warned of exactly where both ends of its validity are given and no days
/// that they allow fit their order.
pub proof fn law_name_warned_of_exactly_where_no_days_fit<S>(
    names: Seq<Cited<EntityName, S>>,
    k: int,
    from: UncertainDate,
    to: UncertainDate,
)
    requires
        0 <= k < names.len(),
        names[k].value.valid_from == Some(from),
        names[k].value.valid_to == Some(to),
        from.wf(),
        to.wf(),
        from@.len() > 0,
        to@.len() > 0,
    ensures
        !dates_fit(from, to) ==> name_warnings(names, names.len()).contains(
            (Warning::NameValidityInverted {
                name: names[k].value.name@,
                valid_from: from@,
                valid_to: to@,
            }),
        ),
{
    law_dates_fit_by_first_and_last_day(from, to);
    if inverted(from, to) {
        lemma_name_is_warned_of(names, names.len(), k);
    }
}

proof fn lemma_name_is_warned_of<S>(names: Seq<Cited<EntityName, S>>, n: nat, k: int)
    requires
        0 <= k < n <= names.len(),
        names[k].value.valid_from is Some,
        names[k].value.valid_to is Some,
        inverted(names[k].value.valid_from->0, names[k].value.valid_to->0),
    ensures
        name_warnings(names, n).contains(
            (Warning::NameValidityInverted {
                name: names[k].value.name@,
                valid_from: names[k].value.valid_from->0@,
                valid_to: names[k].value.valid_to->0@,
            }),
        ),
    decreases n,
{
    let w = Warning::NameValidityInverted {
        name: names[k].value.name@,
        valid_from: names[k].value.valid_from->0@,
        valid_to: names[k].value.valid_to->0@,
    };
    let rest = name_warnings(names, (n - 1) as nat);
    let all = name_warnings(names, n);
    if k == n - 1 {
        assert(all[rest.len() as int] == w);
    } else {
        lemma_name_is_warned_of(names, (n - 1) as nat, k);
        assert(all[rest.index_of(w)] == w);
    }
}

/// Each warning on names is on one whose validity has two ends that no days fit.
pub proof fn law_no_name_warning_where_days_fit<S>(
    names: Seq<Cited<EntityName, S>>,
    n: nat,
    at: int,
) -> (k: int)
    requires
        n <= names.len(),
        0 <= at < name_warnings(names, n).len(),
        forall|i: int|
            0 <= i < names.len() ==> ((#[trigger] names[i]).value.valid_from matches Some(from)
                ==> from.wf()) && (names[i].value.valid_to matches Some(to) ==> to.wf()),
    ensures
        0 <= k < n,
        names[k].value.valid_from is Some,
        names[k].value.valid_to is Some,
        !dates_fit(names[k].value.valid_from->0, names[k].value.valid_to->0),
        name_warnings(names, n)[at] == (Warning::NameValidityInverted {
            name: names[k].value.name@,
            valid_from: names[k].value.valid_from->0@,
            valid_to: names[k].value.valid_to->0@,
        }),
    decreases n,
{
    if at < name_warnings(names, (n - 1) as nat).len() {
        law_no_name_warning_where_days_fit(names, (n - 1) as nat, at)
    } else {
        let name = names[n - 1].value;
        law_dates_fit_by_first_and_last_day(name.valid_from->0, name.valid_to->0);
        n - 1
    }
}

/// Constructions are counted one by one: the count is that of the places where a
/// construction stands.
pub proof fn law_constructions_are_counted<E, S>(transitions: Seq<EntityTransition<E, S>>, n: nat)
    requires
        n <= transitions.len(),
    ensures
        constructions(transitions, n) == Set::new(
            |k: int| 0 <= k < n && transitions[k] is Constructed,
        ).len(),
        Set::new(|k: int| 0 <= k < n && transitions[k] is Constructed).finite(),
    decreases n,
{
    let all = Set::new(|k: int| 0 <= k < n && transitions[k] is Constructed);
    if n == 0 {
        assert(all =~= Set::empty());
    } else {
        law_constructions_are_counted(transitions, (n - 1) as nat);
        let rest = Set::new(|k: int| 0 <= k < n - 1 && transitions[k] is Constructed);
        if transitions[n - 1] is Constructed {
            assert(all =~= rest.insert(n - 1));
        } else {
            assert(all =~= rest);
        }
    }
}

/// Several constructions are warned of, with their number, exactly where there are more
/// than one.
pub proof fn law_several_constructions_are_warned_of<E, S>(
    transitions: Seq<EntityTransition<E, S>>,
)
    ensures
        ({
            let built = Set::new(
                |k: int| 0 <= k < transitions.len() && transitions[k] is Constructed,
            );
            &&& (exists|k: int, l: int|
                0 <= k < l < transitions.len() && (#[trigger] transitions[k]) is Constructed && (
                #[trigger] transitions[l]) is Constructed) <==> construction_warnings(
                transitions,
            ).len() == 1
            &&& construction_warnings(transitions).len() <= 1
            &&& construction_warnings(transitions).len() == 1 ==> construction_warnings(
                transitions,
            )[0] == (Warning::MultipleConstructions { count: built.len() as int })
        }),
{
    let n = transitions.len();
    let built = Set::new(|k: int| 0 <= k < n && transitions[k] is Constructed);
    law_constructions_are_counted(transitions, n);
    if built.len() > 1 {
        let k = built.choose();
        let others = built.remove(k);
        let l = others.choose();
        assert(others.len() > 0);
        assert(others.contains(l));
        assert(built.contains(k) && built.contains(l) && k != l);
        assert(transitions[k] is Constructed && transitions[l] is Constructed);
    }
    if exists|k: int, l: int|
        0 <= k < l < transitions.len() && (#[trigger] transitions[k]) is Constructed && (
        #[trigger] transitions[l]) is Constructed {
        let (k, l) = choose|k: int, l: int|
            0 <= k < l < transitions.len() && (#[trigger] transitions[k]) is Constructed && (
            #[trigger] transitions[l]) is Constructed;
        assert(built.contains(k) && built.remove(k).contains(l));
        assert(built.remove(k).len() > 0);
    }
}

} // verus!
