//! The moments of an entity's life: the ends of its transitions, and the order
//! that a life imposes on them.
use vstd::prelude::*;

use crate::calendar::CalendarDate;
use crate::date::canonical::{lemma_day_held_by, lemma_day_in};
use crate::date::range::separated;
use crate::date::{DateBound, UncertainDate};
use crate::entity::EntityTransition;
#[allow(unused_imports)]
use crate::evidence::Cited;

verus! {

/// What happens at a moment.
#[derive(Debug, Clone, Copy, PartialEq, Eq, PartialOrd, Ord, Hash, Structural)]
pub enum MomentRole {
    /// Construction began.
    ConstructionStarted,
    /// Construction was over.
    ConstructionCompleted,
    /// A modification began.
    ModificationStarted,
    /// A modification was over.
    ModificationCompleted,
    /// Damage was done.
    Damage,
    /// A repair began.
    RepairStarted,
    /// A repair was over.
    RepairCompleted,
    /// The entity was moved.
    Move,
    /// Demolition began.
    DemolitionStarted,
    /// Demolition was over.
    DemolitionCompleted,
    /// The use changed.
    UsageChange,
    /// A designation was given.
    Designation,
}

impl MomentRole {
    /// The role of the end of what begins with this role.
    pub open spec fn ends_with_role(self) -> Option<MomentRole> {
        match self {
            MomentRole::ConstructionStarted => Some(MomentRole::ConstructionCompleted),
            MomentRole::ModificationStarted => Some(MomentRole::ModificationCompleted),
            MomentRole::RepairStarted => Some(MomentRole::RepairCompleted),
            MomentRole::DemolitionStarted => Some(MomentRole::DemolitionCompleted),
            _ => None,
        }
    }

    /// Whether this is an end of a demolition.
    pub open spec fn demolishes(self) -> bool {
        self is DemolitionStarted || self is DemolitionCompleted
    }

    /// Whether this is an end of a construction.
    pub open spec fn constructs(self) -> bool {
        self is ConstructionStarted || self is ConstructionCompleted
    }

    /// The role of the end of what begins with this role, if anything begins.
    pub fn durational_end(self) -> (r: Option<MomentRole>)
        ensures
            r == self.ends_with_role(),
    {
        match self {
            MomentRole::ConstructionStarted => Some(MomentRole::ConstructionCompleted),
            MomentRole::ModificationStarted => Some(MomentRole::ModificationCompleted),
            MomentRole::RepairStarted => Some(MomentRole::RepairCompleted),
            MomentRole::DemolitionStarted => Some(MomentRole::DemolitionCompleted),
            _ => None,
        }
    }

    /// Whether this is an end of a demolition.
    pub fn is_demolition(self) -> (r: bool)
        ensures
            r == self.demolishes(),
    {
        match self {
            MomentRole::DemolitionStarted | MomentRole::DemolitionCompleted => true,
            _ => false,
        }
    }

    /// Whether this is an end of a construction.
    pub fn is_construction(self) -> (r: bool)
        ensures
            r == self.constructs(),
    {
        match self {
            MomentRole::ConstructionStarted | MomentRole::ConstructionCompleted => true,
            _ => false,
        }
    }
}

/// The first day that a date allows, if it is bounded below.
pub open spec fn first_day_of(date: UncertainDate) -> Option<CalendarDate> {
    if date@.len() > 0 && date@.first().lower_bound() is Some {
        Some(date@.first().lower_bound()->0.first_day())
    } else {
        None
    }
}

/// The last day that a date allows, if it is bounded above.
pub open spec fn last_day_of(date: UncertainDate) -> Option<CalendarDate> {
    if date@.len() > 0 && date@.last().upper_bound() is Some {
        Some(date@.last().upper_bound()->0.last_day())
    } else {
        None
    }
}

/// What a moment is: the transition it belongs to, its role, and the first and
/// last day it may have been.
pub struct MomentFacts {
    /// The position of the transition.
    pub transition_index: int,
    /// What happens.
    pub role: MomentRole,
    /// The first day it may have been.
    pub earliest: Option<CalendarDate>,
    /// The last day it may have been.
    pub latest: Option<CalendarDate>,
}

/// A moment in the life of an entity.
#[derive(Debug, Clone, Copy)]
pub struct Moment {
    transition_index: usize,
    role: MomentRole,
    earliest: Option<CalendarDate>,
    latest: Option<CalendarDate>,
}

impl View for Moment {
    type V = MomentFacts;

    closed spec fn view(&self) -> MomentFacts {
        MomentFacts {
            transition_index: self.transition_index as int,
            role: self.role,
            earliest: self.earliest,
            latest: self.latest,
        }
    }
}

/// The moment at which `role` happens in the transition at position `index`.
pub open spec fn moment_at<S>(
    index: int,
    role: MomentRole,
    date: Option<Cited<UncertainDate, S>>,
) -> MomentFacts {
    MomentFacts {
        transition_index: index,
        role,
        earliest: match date {
            Some(cited) => first_day_of(cited.value),
            None => None,
        },
        latest: match date {
            Some(cited) => last_day_of(cited.value),
            None => None,
        },
    }
}

impl Moment {
    #[verifier::type_invariant]
    spec fn dated(self) -> bool {
        &&& self.earliest is Some ==> self.earliest->0.valid()
        &&& self.latest is Some ==> self.latest->0.valid()
    }

    /// The moment at which `role` happens in the transition at position `index`.
    fn at<S>(index: usize, role: MomentRole, date: Option<&Cited<UncertainDate, S>>) -> (r: Self)
        ensures
            r@ == moment_at(
                index as int,
                role,
                match date {
                    Some(cited) => Some(*cited),
                    None => None,
                },
            ),
    {
        match date {
            Some(cited) => {
                let date = &cited.value;
                proof {
                    use_type_invariant(date);
                    crate::date::uncertain::lemma_ends_valid(*date);
                }
                Moment {
                    transition_index: index,
                    role,
                    earliest: date.earliest(),
                    latest: date.latest(),
                }
            },
            None => Moment { transition_index: index, role, earliest: None, latest: None },
        }
    }

    /// The position of the transition the moment belongs to.
    pub fn transition_index(&self) -> (r: usize)
        ensures
            r == self@.transition_index,
    {
        self.transition_index
    }

    /// What happens at the moment.
    pub fn role(&self) -> (r: MomentRole)
        ensures
            r == self@.role,
    {
        self.role
    }

    /// The first day the moment may have been.
    pub fn earliest(&self) -> (r: Option<CalendarDate>)
        ensures
            r == self@.earliest,
            r is Some ==> r->0.valid(),
    {
        proof {
            use_type_invariant(self);
        }
        self.earliest
    }

    /// The last day the moment may have been.
    pub fn latest(&self) -> (r: Option<CalendarDate>)
        ensures
            r == self@.latest,
            r is Some ==> r->0.valid(),
    {
        proof {
            use_type_invariant(self);
        }
        self.latest
    }
}

/// What the moments are.
pub open spec fn facts_of(moments: Seq<Moment>) -> Seq<MomentFacts> {
    Seq::new(moments.len(), |i: int| moments[i]@)
}

/// The moments of the transition at position `index`: its two ends where it
/// takes time, and else the one moment it happens at.
pub open spec fn moments_of<E, S>(
    transition: EntityTransition<E, S>,
    index: int,
) -> Seq<MomentFacts> {
    let first = |role: MomentRole| moment_at(index, role, transition.start());
    let second = |role: MomentRole| moment_at(index, role, transition.end());
    match transition {
        EntityTransition::Constructed { .. } => seq![
            first(MomentRole::ConstructionStarted),
            second(MomentRole::ConstructionCompleted),
        ],
        EntityTransition::Modified { .. } => seq![
            first(MomentRole::ModificationStarted),
            second(MomentRole::ModificationCompleted),
        ],
        EntityTransition::Repaired { .. } => seq![
            first(MomentRole::RepairStarted),
            second(MomentRole::RepairCompleted),
        ],
        EntityTransition::Demolished { .. } => seq![
            first(MomentRole::DemolitionStarted),
            second(MomentRole::DemolitionCompleted),
        ],
        EntityTransition::Damaged { .. } => seq![first(MomentRole::Damage)],
        EntityTransition::Moved { .. } => seq![first(MomentRole::Move)],
        EntityTransition::UsageModified { .. } => seq![first(MomentRole::UsageChange)],
        EntityTransition::Designated { .. } => seq![first(MomentRole::Designation)],
    }
}

/// The moments of the first `n` transitions.
pub open spec fn decomposed<E, S>(
    transitions: Seq<EntityTransition<E, S>>,
    n: nat,
) -> Seq<MomentFacts>
    decreases n,
{
    if n == 0 {
        Seq::empty()
    } else {
        decomposed(transitions, (n - 1) as nat) + moments_of(transitions[n - 1], n - 1)
    }
}

/// The two ends that a transition that takes time has.
fn both_ends<S>(
    index: usize,
    roles: (MomentRole, MomentRole),
    dates: (Option<&Cited<UncertainDate, S>>, Option<&Cited<UncertainDate, S>>),
    out: &mut Vec<Moment>,
)
    ensures
        facts_of(final(out)@) == facts_of(old(out)@) + seq![
            moment_at(
                index as int,
                roles.0,
                match dates.0 {
                    Some(cited) => Some(*cited),
                    None => None,
                },
            ),
            moment_at(
                index as int,
                roles.1,
                match dates.1 {
                    Some(cited) => Some(*cited),
                    None => None,
                },
            ),
        ],
{
    let ghost before = facts_of(out@);
    out.push(Moment::at(index, roles.0, dates.0));
    out.push(Moment::at(index, roles.1, dates.1));
    assert(facts_of(out@) =~= before + seq![out@[out@.len() - 2]@, out@[out@.len() - 1]@]);
}

/// The moments of a list of transitions, in its order.
pub fn decompose<E, S>(transitions: &Vec<EntityTransition<E, S>>) -> (r: Vec<Moment>)
    ensures
        facts_of(r@) == decomposed(transitions@, transitions@.len()),
{
    let mut out: Vec<Moment> = Vec::new();
    let mut i: usize = 0;
    assert(facts_of(out@) =~= decomposed(transitions@, 0));
    while i < transitions.len()
        invariant
            i <= transitions@.len(),
            facts_of(out@) == decomposed(transitions@, i as nat),
        decreases transitions.len() - i,
    {
        let transition = &transitions[i];
        let dates = transition.date_range();
        let ghost before = out@;
        let ghost start = transition.start();
        assert(start == match dates.0 {
            Some(cited) => Some(*cited),
            None => None,
        });
        assert(transition.end() == match dates.1 {
            Some(cited) => Some(*cited),
            None => None,
        });
        let point = match transition {
            EntityTransition::Constructed { .. } => {
                both_ends(
                    i,
                    (MomentRole::ConstructionStarted, MomentRole::ConstructionCompleted),
                    dates,
                    &mut out,
                );
                None
            },
            EntityTransition::Modified { .. } => {
                both_ends(
                    i,
                    (MomentRole::ModificationStarted, MomentRole::ModificationCompleted),
                    dates,
                    &mut out,
                );
                None
            },
            EntityTransition::Repaired { .. } => {
                both_ends(
                    i,
                    (MomentRole::RepairStarted, MomentRole::RepairCompleted),
                    dates,
                    &mut out,
                );
                None
            },
            EntityTransition::Demolished { .. } => {
                both_ends(
                    i,
                    (MomentRole::DemolitionStarted, MomentRole::DemolitionCompleted),
                    dates,
                    &mut out,
                );
                None
            },
            EntityTransition::Damaged { .. } => Some(MomentRole::Damage),
            EntityTransition::Moved { .. } => Some(MomentRole::Move),
            EntityTransition::UsageModified { .. } => Some(MomentRole::UsageChange),
            EntityTransition::Designated { .. } => Some(MomentRole::Designation),
        };
        match point {
            Some(role) => {
                out.push(Moment::at(i, role, dates.0));
                assert(facts_of(out@) =~= facts_of(before).push(
                    moment_at(i as int, role, start),
                ));
                assert(facts_of(out@) =~= facts_of(before) + moments_of(*transition, i as int));
            },
            None => {
                assert(facts_of(out@) =~= facts_of(before) + moments_of(*transition, i as int));
            },
        }
        i += 1;
    }
    out
}

// --- The order of a life ---

/// Whether `a` must come before `b`: what begins comes before its own end, a
/// construction before everything else, and everything else before a demolition.
pub open spec fn must_precede(a: MomentFacts, b: MomentFacts) -> bool {
    ||| a.transition_index == b.transition_index && a.role.ends_with_role() == Some(b.role)
    ||| a.role.constructs() && !b.role.constructs() && !b.role.demolishes()
    ||| !a.role.demolishes() && b.role.demolishes()
}

/// The edges from the moment at `i` to those at positions below `n`.
pub open spec fn edges_out(moments: Seq<MomentFacts>, i: int, n: nat) -> Seq<(int, int)>
    decreases n,
{
    if n == 0 {
        Seq::empty()
    } else {
        let rest = edges_out(moments, i, (n - 1) as nat);
        if must_precede(moments[i], moments[n - 1]) {
            rest.push((i, n - 1))
        } else {
            rest
        }
    }
}

/// The edges from the moments at positions below `n`.
pub open spec fn edges_from(moments: Seq<MomentFacts>, n: nat) -> Seq<(int, int)>
    decreases n,
{
    if n == 0 {
        Seq::empty()
    } else {
        edges_from(moments, (n - 1) as nat) + edges_out(moments, n - 1, moments.len())
    }
}

/// The pairs as pairs of integers.
pub open spec fn pairs_of(edges: Seq<(usize, usize)>) -> Seq<(int, int)> {
    Seq::new(edges.len(), |k: int| (edges[k].0 as int, edges[k].1 as int))
}

/// Every pair of moments of which the first must come before the second, in
/// order.
pub fn structural_edges(moments: &Vec<Moment>) -> (r: Vec<(usize, usize)>)
    ensures
        pairs_of(r@) == edges_from(facts_of(moments@), moments@.len()),
        forall|k: int| 0 <= k < r@.len() ==> (#[trigger] r@[k]).0 < moments@.len() && r@[k].1
            < moments@.len(),
{
    let ghost facts = facts_of(moments@);
    let mut out: Vec<(usize, usize)> = Vec::new();
    let mut i: usize = 0;
    assert(pairs_of(out@) =~= edges_from(facts, 0));
    while i < moments.len()
        invariant
            i <= moments@.len(),
            facts == facts_of(moments@),
            pairs_of(out@) == edges_from(facts, i as nat),
            forall|k: int| 0 <= k < out@.len() ==> (#[trigger] out@[k]).0 < moments@.len()
                && out@[k].1 < moments@.len(),
        decreases moments.len() - i,
    {
        let from = &moments[i];
        let mut j: usize = 0;
        let ghost base = edges_from(facts, i as nat);
        assert(pairs_of(out@) =~= base + edges_out(facts, i as int, 0));
        while j < moments.len()
            invariant
                i < moments@.len(),
                j <= moments@.len(),
                facts == facts_of(moments@),
                *from == moments@[i as int],
                pairs_of(out@) == base + edges_out(facts, i as int, j as nat),
                forall|k: int| 0 <= k < out@.len() ==> (#[trigger] out@[k]).0 < moments@.len()
                    && out@[k].1 < moments@.len(),
            decreases moments.len() - j,
        {
            let to = &moments[j];
            let own_end = if from.transition_index() == to.transition_index() {
                match from.role().durational_end() {
                    Some(role) => role == to.role(),
                    None => false,
                }
            } else {
                false
            };
            let ghost before = pairs_of(out@);
            if own_end || (from.role().is_construction() && !to.role().is_construction()
                && !to.role().is_demolition()) || (!from.role().is_demolition()
                && to.role().is_demolition()) {
                out.push((i, j));
                assert(pairs_of(out@) =~= before.push((i as int, j as int)));
                assert(before.push((i as int, j as int)) =~= base + edges_out(
                    facts,
                    i as int,
                    j as nat,
                ).push((i as int, j as int)));
            }
            assert(facts[i as int] == from@ && facts[j as int] == to@);
            j += 1;
        }
        i += 1;
    }
    out
}

/// The edges from one moment are the pairs that must keep their order.
proof fn lemma_edges_out(moments: Seq<MomentFacts>, i: int, n: nat, pair: (int, int))
    ensures
        edges_out(moments, i, n).contains(pair) <==> pair.0 == i && 0 <= pair.1 < n && must_precede(
            moments[i],
            moments[pair.1],
        ),
    decreases n,
{
    if n > 0 {
        lemma_edges_out(moments, i, (n - 1) as nat, pair);
        let rest = edges_out(moments, i, (n - 1) as nat);
        let all = edges_out(moments, i, n);
        if must_precede(moments[i], moments[n - 1]) {
            assert(all[rest.len() as int] == (i, n - 1));
            if rest.contains(pair) {
                let k = choose|k: int| 0 <= k < rest.len() && rest[k] == pair;
                assert(all[k] == pair);
            }
            if all.contains(pair) && pair != (i, n - 1) {
                let k = choose|k: int| 0 <= k < all.len() && all[k] == pair;
                assert(rest[k] == pair);
            }
        }
    }
}

/// The edges are the pairs of moments that must keep their order.
pub proof fn lemma_edges(moments: Seq<MomentFacts>, n: nat, pair: (int, int))
    ensures
        edges_from(moments, n).contains(pair) <==> 0 <= pair.0 < n && 0 <= pair.1 < moments.len()
            && must_precede(moments[pair.0], moments[pair.1]),
    decreases n,
{
    if n > 0 {
        let rest = edges_from(moments, (n - 1) as nat);
        let last = edges_out(moments, n - 1, moments.len());
        let all = edges_from(moments, n);
        lemma_edges(moments, (n - 1) as nat, pair);
        lemma_edges_out(moments, n - 1, moments.len(), pair);
        if rest.contains(pair) {
            let k = choose|k: int| 0 <= k < rest.len() && rest[k] == pair;
            assert(all[k] == pair);
        }
        if last.contains(pair) {
            let k = choose|k: int| 0 <= k < last.len() && last[k] == pair;
            assert(all[rest.len() + k] == pair);
        }
        if all.contains(pair) {
            let k = choose|k: int| 0 <= k < all.len() && all[k] == pair;
            if k < rest.len() {
                assert(rest[k] == pair);
            } else {
                assert(last[k - rest.len()] == pair);
            }
        }
    }
}

/// How far into a life a role comes.
pub open spec fn stage(role: MomentRole) -> int {
    if role.constructs() {
        if role is ConstructionStarted {
            0
        } else {
            1
        }
    } else if role.demolishes() {
        if role is DemolitionStarted {
            4
        } else {
            5
        }
    } else if role.ends_with_role() is Some {
        2
    } else {
        3
    }
}

/// The order of a life has no cycles: what must come before comes at an earlier
/// stage.
pub proof fn law_life_order_is_acyclic(a: MomentFacts, b: MomentFacts)
    requires
        must_precede(a, b),
    ensures
        stage(a.role) < stage(b.role),
        !must_precede(b, a),
{
}

/// The first and the last day of a date are days that it allows, and all days that it
/// allows lie between them.
pub proof fn law_first_and_last_day_bound_the_date(date: UncertainDate)
    requires
        date.wf(),
    ensures
        forall|d: int| #[trigger]
            date.allows(d) ==> (first_day_of(date) matches Some(day) ==> day.day_number() <= d)
                && (last_day_of(date) matches Some(day) ==> d <= day.day_number()),
        first_day_of(date) matches Some(day) ==> date.allows(day.day_number()),
        last_day_of(date) matches Some(day) ==> date.allows(day.day_number()),
{
    reveal(DateBound::start);
    reveal(DateBound::end);
    let s = date@;
    assert forall|d: int| #[trigger] date.allows(d) implies (first_day_of(date) matches Some(day)
        ==> day.day_number() <= d) && (last_day_of(date) matches Some(day) ==> d
        <= day.day_number()) by {
        let i = lemma_day_held_by(s, d);
        if i > 0 {
            assert(separated(s[0], s[i]));
            assert(s[0].wf());
        }
        if i < s.len() - 1 {
            assert(separated(s[i], s[s.len() - 1]));
            assert(s[s.len() - 1].wf());
        }
    }
    if s.len() > 0 {
        assert(s[0].wf());
        assert(s[s.len() - 1].wf());
        if first_day_of(date) is Some {
            lemma_day_in(s, 0, first_day_of(date)->0.day_number());
        }
        if last_day_of(date) is Some {
            lemma_day_in(s, s.len() - 1, last_day_of(date)->0.day_number());
        }
    }
}

/// A date without a first day allows days as far back as one likes.
pub proof fn law_open_date_reaches_back(date: UncertainDate, day: int) -> (r: int)
    requires
        date.wf(),
        date@.len() > 0,
        first_day_of(date) is None,
    ensures
        r <= day,
        date.allows(r),
{
    let first = date@[0];
    let r = match first.upper() {
        Some(upper) => if upper < day {
            upper
        } else {
            day
        },
        None => day,
    };
    lemma_day_in(date@, 0, r);
    r
}

/// A date without a last day allows days as far ahead as one likes.
pub proof fn law_open_date_reaches_on(date: UncertainDate, day: int) -> (r: int)
    requires
        date.wf(),
        date@.len() > 0,
        last_day_of(date) is None,
    ensures
        day <= r,
        date.allows(r),
{
    let n = date@.len() - 1;
    let r = match date@[n].lower() {
        Some(lower) => if day < lower {
            lower
        } else {
            day
        },
        None => day,
    };
    lemma_day_in(date@, n, r);
    r
}

/// Which moments are ordered, by what happens at them: the start of a construction,
/// modification, repair or demolition comes before its own end, an end of a construction
/// before all that is neither construction nor demolition, and all that is no
/// demolition before an end of one. No other two moments are.
pub proof fn law_order_by_what_happens(moments: Seq<MomentFacts>, i: int, j: int)
    requires
        0 <= i < moments.len(),
        0 <= j < moments.len(),
    ensures
        edges_from(moments, moments.len()).contains((i, j)) <==> {
            let a = moments[i];
            let b = moments[j];
            ||| a.transition_index == b.transition_index && ((a.role is ConstructionStarted
                && b.role is ConstructionCompleted) || (a.role is ModificationStarted
                && b.role is ModificationCompleted) || (a.role is RepairStarted
                && b.role is RepairCompleted) || (a.role is DemolitionStarted
                && b.role is DemolitionCompleted))
            ||| (a.role is ConstructionStarted || a.role is ConstructionCompleted) && !(
            b.role is ConstructionStarted || b.role is ConstructionCompleted) && !(
            b.role is DemolitionStarted || b.role is DemolitionCompleted)
            ||| !(a.role is DemolitionStarted || a.role is DemolitionCompleted) && (
            b.role is DemolitionStarted || b.role is DemolitionCompleted)
        },
{
    lemma_edges(moments, moments.len(), (i, j));
}

/// The moments of a transition: a construction, modification, repair or demolition has a
/// start and an end, in this order, anything else one moment; each with the first and
/// the last day of its date.
pub proof fn law_moments_of_a_transition<E, S>(transition: EntityTransition<E, S>, index: int)
    ensures
        ({
            let moments = moments_of(transition, index);
            &&& moments.len() == (if transition is Constructed || transition is Modified
                || transition is Repaired || transition is Demolished {
                2nat
            } else {
                1nat
            })
            &&& forall|k: int|
                0 <= k < moments.len() ==> (#[trigger] moments[k]).transition_index == index
            &&& transition is Constructed ==> moments[0].role is ConstructionStarted
                && moments[1].role is ConstructionCompleted
            &&& transition is Modified ==> moments[0].role is ModificationStarted
                && moments[1].role is ModificationCompleted
            &&& transition is Repaired ==> moments[0].role is RepairStarted
                && moments[1].role is RepairCompleted
            &&& transition is Demolished ==> moments[0].role is DemolitionStarted
                && moments[1].role is DemolitionCompleted
            &&& transition is Damaged ==> moments[0].role is Damage
            &&& transition is Moved ==> moments[0].role is Move
            &&& transition is UsageModified ==> moments[0].role is UsageChange
            &&& transition is Designated ==> moments[0].role is Designation
            &&& match transition.start() {
                Some(cited) => moments[0].earliest == first_day_of(cited.value)
                    && moments[0].latest == last_day_of(cited.value),
                None => moments[0].earliest is None && moments[0].latest is None,
            }
            &&& moments.len() == 2 ==> match transition.end() {
                Some(cited) => moments[1].earliest == first_day_of(cited.value)
                    && moments[1].latest == last_day_of(cited.value),
                None => moments[1].earliest is None && moments[1].latest is None,
            }
        }),
{
}

/// The edges from one moment go to ascending positions.
proof fn lemma_edges_out_ascend(moments: Seq<MomentFacts>, i: int, n: nat)
    ensures
        forall|k: int|
            0 <= k < edges_out(moments, i, n).len() ==> (#[trigger] edges_out(moments, i, n)[k]).0
                == i && 0 <= edges_out(moments, i, n)[k].1 < n,
        forall|k: int, l: int|
            0 <= k < l < edges_out(moments, i, n).len() ==> (#[trigger] edges_out(
                moments,
                i,
                n,
            )[k]).1 < (#[trigger] edges_out(moments, i, n)[l]).1,
    decreases n,
{
    if n > 0 {
        lemma_edges_out_ascend(moments, i, (n - 1) as nat);
        let rest = edges_out(moments, i, (n - 1) as nat);
        let all = edges_out(moments, i, n);
        assert forall|k: int| 0 <= k < all.len() implies (#[trigger] all[k]).0 == i && 0
            <= all[k].1 < n by {
            if k < rest.len() {
                assert(all[k] == rest[k]);
            }
        }
        assert forall|k: int, l: int| 0 <= k < l < all.len() implies (#[trigger] all[k]).1 < (
        #[trigger] all[l]).1 by {
            assert(all[k] == rest[k]);
            if l < rest.len() {
                assert(all[l] == rest[l]);
            }
        }
    }
}

/// The edges from the moments below `n` are from positions below `n`, and ascend.
proof fn lemma_edges_from_ascend(moments: Seq<MomentFacts>, n: nat)
    ensures
        forall|k: int|
            0 <= k < edges_from(moments, n).len() ==> 0 <= (#[trigger] edges_from(
                moments,
                n,
            )[k]).0 < n,
        forall|k: int, l: int|
            0 <= k < l < edges_from(moments, n).len() ==> {
                let a = #[trigger] edges_from(moments, n)[k];
                let b = #[trigger] edges_from(moments, n)[l];
                a.0 < b.0 || (a.0 == b.0 && a.1 < b.1)
            },
    decreases n,
{
    if n > 0 {
        let rest = edges_from(moments, (n - 1) as nat);
        let last = edges_out(moments, n - 1, moments.len());
        let all = edges_from(moments, n);
        lemma_edges_from_ascend(moments, (n - 1) as nat);
        lemma_edges_out_ascend(moments, n - 1, moments.len());
        assert(all == rest + last);
        assert forall|k: int, l: int| 0 <= k < l < all.len() implies {
            let a = #[trigger] all[k];
            let b = #[trigger] all[l];
            a.0 < b.0 || (a.0 == b.0 && a.1 < b.1)
        } by {
            if l < rest.len() {
                assert(all[k] == rest[k] && all[l] == rest[l]);
            } else if k >= rest.len() {
                assert(all[k] == last[k - rest.len()] && all[l] == last[l - rest.len()]);
            } else {
                assert(all[k] == rest[k] && all[l] == last[l - rest.len()]);
            }
        }
    }
}

/// The ordered pairs ascend by their first moment and then by their second, so that none
/// comes twice.
pub proof fn law_ordered_pairs_ascend(moments: Seq<MomentFacts>, k: int, l: int)
    requires
        0 <= k < l < edges_from(moments, moments.len()).len(),
    ensures
        ({
            let a = edges_from(moments, moments.len())[k];
            let b = edges_from(moments, moments.len())[l];
            a.0 < b.0 || (a.0 == b.0 && a.1 < b.1)
        }),
{
    lemma_edges_from_ascend(moments, moments.len());
}

/// The moments of a list of transitions follow its order: none stands before one of an
/// earlier transition, two of one transition stand side by side, and the later of the two
/// is its end.
pub proof fn law_moments_follow_their_transitions<E, S>(
    transitions: Seq<EntityTransition<E, S>>,
    n: nat,
    i: int,
    j: int,
)
    requires
        n <= transitions.len(),
        0 <= i < j < decomposed(transitions, n).len(),
    ensures
        ({
            let a = decomposed(transitions, n)[i];
            let b = decomposed(transitions, n)[j];
            &&& 0 <= a.transition_index <= b.transition_index < n
            &&& a.transition_index == b.transition_index ==> j == i + 1
                && a.role.ends_with_role() == Some(b.role)
        }),
    decreases n,
{
    if n > 0 {
        let rest = decomposed(transitions, (n - 1) as nat);
        let last = moments_of(transitions[n - 1], n - 1);
        let all = decomposed(transitions, n);
        assert(all == rest + last);
        if j < rest.len() {
            law_moments_follow_their_transitions(transitions, (n - 1) as nat, i, j);
        } else if i < rest.len() {
            lemma_moment_index(transitions, (n - 1) as nat, i);
        }
    }
}

/// A moment is of one of the transitions.
proof fn lemma_moment_index<E, S>(
    transitions: Seq<EntityTransition<E, S>>,
    n: nat,
    i: int,
)
    requires
        n <= transitions.len(),
        0 <= i < decomposed(transitions, n).len(),
    ensures
        0 <= decomposed(transitions, n)[i].transition_index < n,
    decreases n,
{
    if n > 0 {
        let rest = decomposed(transitions, (n - 1) as nat);
        assert(decomposed(transitions, n) == rest + moments_of(transitions[n - 1], n - 1));
        if i < rest.len() {
            lemma_moment_index(transitions, (n - 1) as nat, i);
        }
    }
}

} // verus!
