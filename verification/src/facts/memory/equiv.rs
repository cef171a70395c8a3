//! Equivalence classes over the active identity edges of a [`ReadCore`]
//! snapshot.
use vstd::prelude::*;

use super::ids::MemStoredFact;
use super::read::ReadCore;
use crate::algebra::ordered::{keys, OrderedSet, Standing, TotalOrder};
use crate::facts::ids::FactId;
use crate::facts::schema::EquivClass;

verus! {

/// A kind of identity judgment: which facts join which subjects.
pub trait IdentityEdges: Sized {
    /// The kind of subject it joins.
    type Subject: TotalOrder<V = u64> + Copy;

    /// The two subjects a fact joins, where it joins any.
    spec fn joins(fact: MemStoredFact) -> Option<(u64, u64)>;

    /// The two subjects a fact joins, where it joins any.
    fn edge_of(fact: &MemStoredFact) -> (r: Option<(Self::Subject, Self::Subject)>)
        ensures
            Self::joins(*fact) == match r {
                Some((a, b)) => Some((a@, b@)),
                None => None,
            },
    ;
}

// --- Connected components ---

/// Whether an edge links two subjects, in either direction.
pub open spec fn linked(edges: Seq<(u64, u64)>, a: u64, b: u64) -> bool {
    edges.contains((a, b)) || edges.contains((b, a))
}

/// Whether a list of subjects is a path: an edge links each to the next.
pub open spec fn is_path(edges: Seq<(u64, u64)>, path: Seq<u64>) -> bool {
    &&& path.len() > 0
    &&& forall|i: int| 0 <= i < path.len() - 1 ==> linked(edges, #[trigger] path[i], path[i + 1])
}

/// Whether a path leads from one subject to another.
pub open spec fn connected(edges: Seq<(u64, u64)>, a: u64, b: u64) -> bool {
    exists|path: Seq<u64>| #[trigger] is_path(edges, path) && path[0] == a && path.last() == b
}

/// The subjects that a path leads to.
pub open spec fn component(edges: Seq<(u64, u64)>, member: u64) -> Set<u64> {
    Set::new(|x: u64| connected(edges, member, x))
}

/// One more edge at the end of a path.
proof fn lemma_extend(edges: Seq<(u64, u64)>, a: u64, b: u64, c: u64)
    requires
        connected(edges, a, b),
        linked(edges, b, c),
    ensures
        connected(edges, a, c),
{
    let path = choose|path: Seq<u64>| #[trigger]
        is_path(edges, path) && path[0] == a && path.last() == b;
    let more = path.push(c);
    assert forall|i: int| 0 <= i < more.len() - 1 implies linked(
        edges,
        #[trigger] more[i],
        more[i + 1],
    ) by {
        if i < path.len() - 1 {
            assert(more[i] == path[i] && more[i + 1] == path[i + 1]);
            assert(linked(edges, path[i], path[i + 1]));
        }
    }
    assert(is_path(edges, more) && more[0] == a && more.last() == c);
}

/// A set that no edge leaves holds every path that starts in it.
proof fn lemma_closed(edges: Seq<(u64, u64)>, held: Set<u64>, path: Seq<u64>)
    requires
        forall|x: u64, y: u64| held.contains(x) && #[trigger] linked(edges, x, y) ==> held.contains(y),
        is_path(edges, path),
        held.contains(path[0]),
    ensures
        held.contains(path.last()),
    decreases path.len(),
{
    if path.len() > 1 {
        let less = path.drop_last();
        assert forall|i: int| 0 <= i < less.len() - 1 implies linked(
            edges,
            #[trigger] less[i],
            less[i + 1],
        ) by {
            assert(linked(edges, path[i], path[i + 1]));
        }
        lemma_closed(edges, held, less);
        let i = path.len() - 2;
        assert(linked(edges, path[i], path[i + 1]));
    }
}

/// A subject is in its own class, a class is the class of each of its members,
/// and so two classes are the same or have nothing in common.
pub proof fn law_classes_partition(edges: Seq<(u64, u64)>, a: u64, b: u64)
    ensures
        component(edges, a).contains(a),
        component(edges, a).contains(b) ==> component(edges, a) == component(edges, b),
        !component(edges, a).contains(b) ==> component(edges, a).disjoint(component(edges, b)),
{
    let alone = seq![a];
    assert(is_path(edges, alone) && alone[0] == a && alone.last() == a);
    if component(edges, a).contains(b) {
        lemma_symmetric(edges, a, b);
        assert forall|x: u64| component(edges, a).contains(x) <==> component(edges, b).contains(
            x,
        ) by {
            if connected(edges, a, x) {
                lemma_transitive(edges, b, a, x);
            }
            if connected(edges, b, x) {
                lemma_transitive(edges, a, b, x);
            }
        }
        assert(component(edges, a) =~= component(edges, b));
    } else {
        assert forall|x: u64| component(edges, a).contains(x) implies !component(
            edges,
            b,
        ).contains(x) by {
            if connected(edges, b, x) {
                lemma_symmetric(edges, b, x);
                lemma_transitive(edges, a, x, b);
            }
        }
    }
}

/// A path can be walked back.
proof fn lemma_symmetric(edges: Seq<(u64, u64)>, a: u64, b: u64)
    requires
        connected(edges, a, b),
    ensures
        connected(edges, b, a),
{
    let path = choose|path: Seq<u64>| #[trigger]
        is_path(edges, path) && path[0] == a && path.last() == b;
    let back = path.reverse();
    assert forall|i: int| 0 <= i < back.len() - 1 implies linked(
        edges,
        #[trigger] back[i],
        back[i + 1],
    ) by {
        let j = path.len() - 2 - i;
        assert(linked(edges, path[j], path[j + 1]));
        assert(back[i] == path[j + 1] && back[i + 1] == path[j]);
    }
    assert(is_path(edges, back) && back[0] == b && back.last() == a);
}

/// Two paths make one.
proof fn lemma_transitive(edges: Seq<(u64, u64)>, a: u64, b: u64, c: u64)
    requires
        connected(edges, a, b),
        connected(edges, b, c),
    ensures
        connected(edges, a, c),
{
    let path = choose|path: Seq<u64>| #[trigger]
        is_path(edges, path) && path[0] == b && path.last() == c;
    let held = component(edges, a);
    assert forall|x: u64, y: u64| held.contains(x) && #[trigger] linked(edges, x, y) implies
        held.contains(y) by {
        lemma_extend(edges, a, x, y);
    }
    lemma_closed(edges, held, path);
}

// --- The edges of a snapshot ---

impl<'a> ReadCore<'a> {
    /// The edges of the first `n` facts that are active, in order.
    pub open spec fn active_edges<K: IdentityEdges>(self, n: nat) -> Seq<(u64, u64)>
        decreases n,
    {
        if n == 0 {
            Seq::empty()
        } else {
            let rest = self.active_edges::<K>((n - 1) as nat);
            match K::joins(self.facts()[n - 1]) {
                Some(edge) => if self.active((n - 1) as u64) {
                    rest.push(edge)
                } else {
                    rest
                },
                None => rest,
            }
        }
    }

    /// The active identity edges at this snapshot; a retracted judgment is no
    /// edge.
    pub open spec fn identity_edges<K: IdentityEdges>(self) -> Seq<(u64, u64)> {
        self.active_edges::<K>(self.seen())
    }

    /// How many facts are seen at the snapshot.
    pub fn seen_count(&self) -> (r: u64)
        requires
            self.wf(),
        ensures
            r == self.seen(),
    {
        let committed: u64 = self.committed.facts.len() as u64;
        let total: u64 = match self.pending {
            Some(pending) => committed + pending.facts.len() as u64,
            None => committed,
        };
        if self.snapshot.get() < total {
            self.snapshot.get()
        } else {
            total
        }
    }

    /// The active identity edges at this snapshot, in one pass over the facts.
    pub fn equiv_adjacency<K: IdentityEdges>(&self) -> (r: EquivAdjacency<K::Subject>)
        requires
            self.wf(),
        ensures
            r.edges() == self.identity_edges::<K>(),
    {
        let count: u64 = self.seen_count();
        let mut adjacency: Vec<(K::Subject, K::Subject)> = Vec::new();
        let mut i: u64 = 0;
        assert(edge_views(adjacency@) =~= self.active_edges::<K>(0));
        while i < count
            invariant
                i <= count == self.seen(),
                self.wf(),
                edge_views(adjacency@) == self.active_edges::<K>(i as nat),
            decreases count - i,
        {
            let id = FactId::new(i);
            match self.fact_slot(id) {
                Some(fact) => {
                    let edge = K::edge_of(fact);
                    let ghost before = adjacency@;
                    match edge {
                        Some((a, b)) => {
                            match self.retracted_by(id) {
                                Some(_) => {},
                                None => {
                                    adjacency.push((a, b));
                                    assert(edge_views(adjacency@) =~= edge_views(before).push(
                                        (a@, b@),
                                    ));
                                },
                            }
                        },
                        None => {},
                    }
                    assert(edge_views(adjacency@) == self.active_edges::<K>((i + 1) as nat));
                },
                None => {
                    assert(false);
                },
            }
            i += 1;
        }
        EquivAdjacency { adjacency }
    }

    /// The equivalence class of a subject at this snapshot.
    pub fn equiv_class<K: IdentityEdges>(&self, member: K::Subject) -> (r: EquivClass<K::Subject>)
        requires
            self.wf(),
        ensures
            r.members@ == component(self.identity_edges::<K>(), member@),
            r.members@.contains(r.representative@),
            forall|x: u64| #[trigger]
                r.members@.contains(x) ==> x == r.representative@ || K::Subject::precedes(
                    r.representative@,
                    x,
                ),
    {
        self.equiv_adjacency::<K>().class_of(member)
    }
}

/// Edges as numbers.
pub open spec fn edge_views<S: TotalOrder<V = u64>>(edges: Seq<(S, S)>) -> Seq<(u64, u64)> {
    edges.map_values(|e: (S, S)| (e.0@, e.1@))
}

/// The active identity edges at one snapshot.
#[derive(Debug)]
pub struct EquivAdjacency<S: TotalOrder<V = u64>> {
    adjacency: Vec<(S, S)>,
}

impl<S: TotalOrder<V = u64> + Copy> EquivAdjacency<S> {
    /// The edges as numbers.
    pub closed spec fn edges(self) -> Seq<(u64, u64)> {
        edge_views(self.adjacency@)
    }

    /// The edges that a subject is at either end of, as the other ends.
    fn neighbours(&self, member: S) -> (r: Vec<S>)
        ensures
            forall|x: u64| #[trigger] keys(r@).contains(x) <==> linked(self.edges(), member@, x),
    {
        let ghost edges = self.edges();
        let mut out: Vec<S> = Vec::new();
        let mut i: usize = 0;
        while i < self.adjacency.len()
            invariant
                i <= self.adjacency@.len(),
                edges == edge_views(self.adjacency@),
                forall|x: u64| #[trigger]
                    keys(out@).contains(x) <==> linked(edges.take(i as int), member@, x),
            decreases self.adjacency.len() - i,
        {
            let (a, b) = self.adjacency[i];
            let ghost e = edges[i as int];
            assert(e == (a@, b@));
            let ghost part = edges.take(i as int);
            let ghost more = edges.take(i + 1);
            let ghost first = keys(out@);
            match a.compare(&member) {
                Standing::Same => {
                    out.push(b);
                    assert(keys(out@) =~= first.push(b@));
                },
                _ => {},
            }
            let ghost second = keys(out@);
            match b.compare(&member) {
                Standing::Same => {
                    out.push(a);
                    assert(keys(out@) =~= second.push(a@));
                },
                _ => {},
            }
            proof {
                assert(more =~= part.push(e));
                assert forall|x: u64| #[trigger] keys(out@).contains(x) <==> linked(
                    more,
                    member@,
                    x,
                ) by {
                    assert(first.contains(x) <==> linked(part, member@, x));
                    lemma_contains_push(part, e, (member@, x));
                    lemma_contains_push(part, e, (x, member@));
                    lemma_contains_push(first, b@, x);
                    lemma_contains_push(second, a@, x);
                }
            }
            i += 1;
        }
        assert(edges.take(i as int) =~= edges);
        out
    }

    /// The equivalence class of a subject: the connected component that holds it,
    /// with the lowest member to stand for it. A subject with no edge is a class
    /// of its own.
    pub fn class_of(&self, member: S) -> (r: EquivClass<S>)
        ensures
            r.members@ == component(self.edges(), member@),
            r.members@.contains(r.representative@),
            forall|x: u64| #[trigger]
                r.members@.contains(x) ==> x == r.representative@ || S::precedes(
                    r.representative@,
                    x,
                ),
    {
        let ghost edges = self.edges();
        let ghost universe = ends(edges).insert(member@);
        let mut members: OrderedSet<S> = OrderedSet::new();
        let mut frontier: Vec<S> = Vec::new();
        frontier.push(member);
        proof {
            lemma_ends(edges);
            assert(keys(frontier@)[0] == member@);
            let alone = seq![member@];
            assert(is_path(edges, alone) && alone[0] == member@ && alone.last() == member@);
            vstd::set_lib::lemma_len_subset(members@, universe);
        }
        while frontier.len() > 0
            invariant
                edges == self.edges(),
                universe == ends(edges).insert(member@),
                universe.finite(),
                members@.contains(member@) || keys(frontier@).contains(member@),
                members@.subset_of(universe),
                forall|x: u64| members@.contains(x) ==> #[trigger] connected(edges, member@, x),
                forall|k: int|
                    0 <= k < frontier@.len() ==> connected(
                        edges,
                        member@,
                        (#[trigger] frontier@[k])@,
                    ) && universe.contains(frontier@[k]@),
                forall|x: u64, y: u64|
                    members@.contains(x) && #[trigger] linked(edges, x, y) ==> members@.contains(y)
                        || keys(frontier@).contains(y),
            decreases universe.len() - members@.len(), frontier@.len(),
        {
            let ghost list = keys(frontier@);
            let ghost held = members@;
            let next = match frontier.pop() {
                Some(next) => next,
                None => {
                    assert(false);
                    member
                },
            };
            let ghost rest = keys(frontier@);
            assert(list =~= rest.push(next@));
            assert forall|x: u64| list.contains(x) implies rest.contains(x) || x == next@ by {
                lemma_contains_push(rest, next@, x);
            }
            let fresh = members.insert(next);
            if fresh {
                let mut more = self.neighbours(next);
                let ghost added = keys(more@);
                frontier.append(&mut more);
                proof {
                    lemma_ends(edges);
                    let whole = keys(frontier@);
                    assert(whole =~= rest + added);
                    assert forall|x: u64| rest.contains(x) || added.contains(
                        x,
                    ) implies whole.contains(x) by {
                        if rest.contains(x) {
                            let k = rest.index_of(x);
                            assert(whole[k] == x);
                        } else {
                            let k = added.index_of(x);
                            assert(whole[rest.len() + k] == x);
                        }
                    }
                    assert forall|k: int| 0 <= k < frontier@.len() implies connected(
                        edges,
                        member@,
                        (#[trigger] frontier@[k])@,
                    ) && universe.contains(frontier@[k]@) by {
                        assert(whole[k] == frontier@[k]@);
                        if k >= rest.len() {
                            assert(added[k - rest.len()] == whole[k]);
                            assert(added.contains(whole[k]));
                            lemma_extend(edges, member@, next@, whole[k]);
                        }
                    }
                    assert forall|x: u64, y: u64|
                        members@.contains(x) && #[trigger] linked(edges, x, y) implies
                        members@.contains(y) || whole.contains(y) by {
                        if x == next@ {
                            assert(added.contains(y));
                        } else {
                            assert(held.contains(y) || list.contains(y));
                        }
                    }
                    vstd::set_lib::lemma_len_subset(members@, universe);
                    vstd::set_lib::lemma_set_subset_finite(universe, held);
                }
            } else {
                assert(members@ =~= held);
            }
        }
        proof {
            assert(keys(frontier@) =~= Seq::<u64>::empty());
            assert forall|x: u64| members@.contains(x) <==> component(edges, member@).contains(
                x,
            ) by {
                if connected(edges, member@, x) {
                    let path = choose|path: Seq<u64>| #[trigger]
                        is_path(edges, path) && path[0] == member@ && path.last() == x;
                    lemma_closed(edges, members@, path);
                }
            }
            assert(members@ =~= component(edges, member@));
        }
        let list = members.as_slice();
        let ghost order = keys(list@);
        assert(order.to_set() == members@);
        proof {
            assert(order.contains(member@)) by {
                assert(order.to_set().contains(member@));
            }
        }
        let representative = list[0];
        proof {
            assert(order[0] == representative@);
            assert(order.contains(representative@));
            assert(members@.contains(representative@)) by {
                assert(order.to_set().contains(representative@));
            }
            assert forall|x: u64| #[trigger] members@.contains(x) implies x == representative@
                || S::precedes(representative@, x) by {
                assert(order.to_set().contains(x));
                let k = order.index_of(x);
                if k > 0 {
                    assert(S::precedes(order[0], order[k]));
                }
            }
        }
        EquivClass { representative, members }
    }
}

/// What a list with one more element contains.
proof fn lemma_contains_push<A>(list: Seq<A>, x: A, y: A)
    ensures
        list.push(x).contains(y) <==> list.contains(y) || y == x,
{
    let more = list.push(x);
    if list.contains(y) {
        let k = list.index_of(y);
        assert(more[k] == y);
    }
    if y == x {
        assert(more[list.len() as int] == y);
    }
    if more.contains(y) {
        let k = more.index_of(y);
        if k < list.len() {
            assert(list[k] == y);
        }
    }
}

/// The ends of all edges.
spec fn ends(edges: Seq<(u64, u64)>) -> Set<u64> {
    edges.map_values(|e: (u64, u64)| e.0).to_set().union(
        edges.map_values(|e: (u64, u64)| e.1).to_set(),
    )
}

/// The ends are finitely many, and hold whatever is linked.
proof fn lemma_ends(edges: Seq<(u64, u64)>)
    ensures
        ends(edges).finite(),
        forall|a: u64, b: u64| #[trigger] linked(edges, a, b) ==> ends(edges).contains(b),
{
    let firsts = edges.map_values(|e: (u64, u64)| e.0);
    let seconds = edges.map_values(|e: (u64, u64)| e.1);
    vstd::seq_lib::seq_to_set_is_finite(firsts);
    vstd::seq_lib::seq_to_set_is_finite(seconds);
    assert forall|a: u64, b: u64| #[trigger] linked(edges, a, b) implies ends(edges).contains(b) by {
        if edges.contains((a, b)) {
            let k = edges.index_of((a, b));
            assert(seconds[k] == b);
        } else {
            let k = edges.index_of((b, a));
            assert(firsts[k] == b);
        }
    }
}

// --- What a class is ---

/// A class has the two ends of an edge or neither.
pub proof fn law_edges_stay_in_a_class(edges: Seq<(u64, u64)>, member: u64, a: u64, b: u64)
    requires
        edges.contains((a, b)),
    ensures
        component(edges, member).contains(a) <==> component(edges, member).contains(b),
{
    if component(edges, member).contains(a) {
        lemma_extend(edges, member, a, b);
    }
    if component(edges, member).contains(b) {
        lemma_extend(edges, member, b, a);
    }
}

/// A class is the smallest set with its member that has both ends of every edge or
/// neither: whatever else is such a set has all of the class.
pub proof fn law_class_is_the_smallest(edges: Seq<(u64, u64)>, member: u64, set: Set<u64>)
    requires
        set.contains(member),
        forall|a: u64, b: u64| #[trigger]
            edges.contains((a, b)) ==> (set.contains(a) <==> set.contains(b)),
    ensures
        component(edges, member).subset_of(set),
{
    assert forall|x: u64| component(edges, member).contains(x) implies set.contains(x) by {
        let path = choose|path: Seq<u64>| #[trigger]
            is_path(edges, path) && path[0] == member && path.last() == x;
        assert forall|a: u64, b: u64| set.contains(a) && linked(edges, a, b) implies set.contains(
            b,
        ) by {
            assert(edges.contains((a, b)) || edges.contains((b, a)));
        }
        lemma_closed(edges, set, path);
        assert(path.contains(path[path.len() - 1]));
    }
}

impl<'a> ReadCore<'a> {
    /// The edges among the first `n` facts are those that active facts say.
    pub proof fn law_edges_are_what_active_facts_say<K: IdentityEdges>(self, n: nat, a: u64, b: u64)
        requires
            n <= self.facts().len(),
            n <= u64::MAX,
        ensures
            self.active_edges::<K>(n).contains((a, b)) <==> exists|x: u64|
                x < n && self.active(x) && #[trigger] K::joins(self.facts()[x as int]) == Some(
                    (a, b),
                ),
        decreases n,
    {
        if n == 0 {
            assert(!self.active_edges::<K>(n).contains((a, b)));
        } else {
            self.law_edges_are_what_active_facts_say::<K>((n - 1) as nat, a, b);
            let rest = self.active_edges::<K>((n - 1) as nat);
            let all = self.active_edges::<K>(n);
            let last = (n - 1) as u64;
            match K::joins(self.facts()[n - 1]) {
                Some(edge) => {
                    lemma_contains_push(rest, edge, (a, b));
                    assert(K::joins(self.facts()[last as int]) == Some(edge));
                },
                None => {},
            }
            if all.contains((a, b)) && rest.contains((a, b)) {
                let x = choose|x: u64|
                    x < n - 1 && self.active(x) && #[trigger] K::joins(self.facts()[x as int])
                        == Some((a, b));
                assert(x < n);
            }
        }
    }
}

} // verus!
