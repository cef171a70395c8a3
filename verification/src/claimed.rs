//! The value lattice of "which values have been asserted".
//!
//! [`Claimed::Of`] holds the exact set of asserted values; [`Claimed::Any`] is
//! a symbolic top standing for "every value in the domain". `Any` stays
//! symbolic so the lattice works over open domains with no enumerable
//! universe.
use vstd::prelude::*;

use crate::algebra::lattice::{BoundedLattice, JoinSemilattice, MeetSemilattice};
use crate::algebra::monoid::CommutativeMonoid;
use crate::algebra::ordered::{OrderedSet, TotalOrder};

verus! {

/// A claim over a domain `A`: either an explicit set of asserted values or the
/// symbolic top.
#[derive(Debug)]
pub enum Claimed<A: TotalOrder> {
    /// Exactly these values have been asserted. The empty set is the bottom.
    Of { values: OrderedSet<A> },
    /// Every value in the domain, the identity under meet.
    Any,
}

/// What a claim asserts: a set of values, or anything.
#[verifier::ext_equal]
#[verifier::reject_recursive_types(V)]
pub enum Assertion<V> {
    Of(Set<V>),
    Any,
}

impl<A: TotalOrder> View for Claimed<A> {
    type V = Assertion<A::V>;

    open spec fn view(&self) -> Assertion<A::V> {
        match self {
            Claimed::Of { values } => Assertion::Of(values@),
            Claimed::Any => Assertion::Any,
        }
    }
}

impl<A: TotalOrder> Clone for Claimed<A> {
    fn clone(&self) -> (r: Self)
        ensures
            r@ == self@,
    {
        match self {
            Claimed::Of { values } => Claimed::Of { values: values.clone() },
            Claimed::Any => Claimed::Any,
        }
    }
}

/// The claim that something is asserted by either of two claims.
pub open spec fn either<V>(a: Assertion<V>, b: Assertion<V>) -> Assertion<V> {
    match (a, b) {
        (Assertion::Of(x), Assertion::Of(y)) => Assertion::Of(x.union(y)),
        _ => Assertion::Any,
    }
}

/// The claim that something is asserted by both of two claims.
pub open spec fn both<V>(a: Assertion<V>, b: Assertion<V>) -> Assertion<V> {
    match (a, b) {
        (Assertion::Of(x), Assertion::Of(y)) => Assertion::Of(x.intersect(y)),
        (Assertion::Any, y) => y,
        (x, Assertion::Any) => x,
    }
}

/// The set of asserted values is finite.
pub open spec fn finitely_many<V>(a: Assertion<V>) -> bool {
    a matches Assertion::Of(s) ==> s.finite()
}

impl<A: TotalOrder> CommutativeMonoid for Claimed<A> {
    open spec fn valid(m: Assertion<A::V>) -> bool {
        finitely_many(m)
    }

    open spec fn identity_model() -> Assertion<A::V> {
        Assertion::Of(Set::empty())
    }

    open spec fn combine_model(a: Assertion<A::V>, b: Assertion<A::V>) -> Assertion<A::V> {
        either(a, b)
    }

    proof fn law_identity_valid() {
    }

    proof fn law_combine_valid(a: Assertion<A::V>, b: Assertion<A::V>) {
    }

    proof fn law_combine_commutative(a: Assertion<A::V>, b: Assertion<A::V>) {
        assert(either(a, b) =~= either(b, a));
    }

    proof fn law_combine_associative(
        a: Assertion<A::V>,
        b: Assertion<A::V>,
        c: Assertion<A::V>,
    ) {
        assert(either(either(a, b), c) =~= either(a, either(b, c)));
    }

    proof fn law_combine_identity(a: Assertion<A::V>) {
        assert(either(a, Assertion::Of(Set::empty())) =~= a);
    }

    fn identity() -> (r: Self) {
        Claimed::Of { values: OrderedSet::new() }
    }

    fn combine(self, other: Self) -> (r: Self) {
        match (self, other) {
            (Claimed::Of { values: a }, Claimed::Of { values: b }) => Claimed::Of {
                values: a.union(&b),
            },
            _ => Claimed::Any,
        }
    }
}

impl<A: TotalOrder> JoinSemilattice for Claimed<A> {
    open spec fn is_bottom_model(m: Assertion<A::V>) -> bool {
        m == Assertion::Of(Set::<A::V>::empty())
    }

    proof fn law_join_idempotent(a: Assertion<A::V>) {
        assert(either(a, a) =~= a);
    }

    proof fn law_identity_is_bottom() {
    }

    fn is_bottom(&self) -> (r: bool) {
        match self {
            Claimed::Of { values } => values.is_empty(),
            Claimed::Any => false,
        }
    }
}

impl<A: TotalOrder> MeetSemilattice for Claimed<A> {
    open spec fn meet_valid(m: Assertion<A::V>) -> bool {
        finitely_many(m)
    }

    open spec fn top_model() -> Assertion<A::V> {
        Assertion::Any
    }

    open spec fn meet_model(a: Assertion<A::V>, b: Assertion<A::V>) -> Assertion<A::V> {
        both(a, b)
    }

    proof fn law_top_valid() {
    }

    proof fn law_meet_valid(a: Assertion<A::V>, b: Assertion<A::V>) {
    }

    proof fn law_meet_commutative(a: Assertion<A::V>, b: Assertion<A::V>) {
        assert(both(a, b) =~= both(b, a));
    }

    proof fn law_meet_associative(a: Assertion<A::V>, b: Assertion<A::V>, c: Assertion<A::V>) {
        assert(both(both(a, b), c) =~= both(a, both(b, c)));
    }

    proof fn law_meet_idempotent(a: Assertion<A::V>) {
        assert(both(a, a) =~= a);
    }

    proof fn law_meet_identity(a: Assertion<A::V>) {
    }

    fn top() -> (r: Self) {
        Claimed::Any
    }

    fn meet(self, other: Self) -> (r: Self) {
        match (self, other) {
            (Claimed::Any, x) => x,
            (x, Claimed::Any) => x,
            (Claimed::Of { values: a }, Claimed::Of { values: b }) => {
                // Probe the larger set with the members of the smaller one.
                let values = if a.len() <= b.len() {
                    a.intersection(&b)
                } else {
                    b.intersection(&a)
                };
                assert(b@.intersect(a@) =~= a@.intersect(b@));
                Claimed::Of { values }
            },
        }
    }
}

impl<A: TotalOrder> BoundedLattice for Claimed<A> {
    open spec fn same(a: Assertion<A::V>, b: Assertion<A::V>) -> bool {
        a == b
    }

    proof fn law_valid_agrees(a: Assertion<A::V>) {
    }

    proof fn law_same(a: Assertion<A::V>, b: Assertion<A::V>, c: Assertion<A::V>) {
    }

    proof fn law_annihilators(a: Assertion<A::V>, b: Assertion<A::V>) {
        let none = Set::<A::V>::empty();
        assert(both(a, Assertion::Of(none)) =~= Assertion::Of(none));
        if a == Assertion::Of(none) {
            assert(both(a, b) =~= Assertion::Of(none));
        }
    }

    proof fn law_absorption(a: Assertion<A::V>, b: Assertion<A::V>) {
        assert(both(a, either(a, b)) =~= a);
        assert(either(a, both(a, b)) =~= a);
    }

    proof fn law_distributive(a: Assertion<A::V>, b: Assertion<A::V>, c: Assertion<A::V>) {
        assert(both(a, either(b, c)) =~= either(both(a, b), both(a, c)));
        assert(either(a, both(b, c)) =~= both(either(a, b), either(a, c)));
    }
}

/// Whether a value is among the asserted ones.
pub open spec fn asserts<V>(a: Assertion<V>, value: V) -> bool {
    match a {
        Assertion::Of(values) => values.contains(value),
        Assertion::Any => true,
    }
}

/// The join asserts what either asserts, and the meet what both assert.
pub proof fn law_join_and_meet_by_values<V>(a: Assertion<V>, b: Assertion<V>, value: V)
    ensures
        asserts(either(a, b), value) <==> asserts(a, value) || asserts(b, value),
        asserts(both(a, b), value) <==> asserts(a, value) && asserts(b, value),
        either(a, b) is Any <==> a is Any || b is Any,
        both(a, b) is Any <==> a is Any && b is Any,
{
}

} // verus!
