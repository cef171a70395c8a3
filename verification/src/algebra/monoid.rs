//! The commutative monoid, the algebraic floor under the value lattices.
//!
//! A [`CommutativeMonoid`] is an identity and an associative, commutative
//! operation. The semilattices in [`super::lattice`] add idempotence on top.
use vstd::prelude::*;

verus! {

/// A commutative monoid: an identity and an associative, commutative
/// `combine`.
///
/// Values are compared by their views. `valid` says which views occur, and the
/// laws are obligations of every implementation.
pub trait CommutativeMonoid: Sized + View {
    /// Whether `m` is the view of a well-formed value.
    spec fn valid(m: Self::V) -> bool;

    /// The view of the identity.
    spec fn identity_model() -> Self::V;

    /// The view of the combination of two values.
    spec fn combine_model(a: Self::V, b: Self::V) -> Self::V;

    /// The identity is well-formed.
    proof fn law_identity_valid()
        ensures
            Self::valid(Self::identity_model()),
    ;

    /// Combining well-formed values gives a well-formed value.
    proof fn law_combine_valid(a: Self::V, b: Self::V)
        requires
            Self::valid(a),
            Self::valid(b),
        ensures
            Self::valid(Self::combine_model(a, b)),
    ;

    /// Commutativity: `a + b == b + a`.
    proof fn law_combine_commutative(a: Self::V, b: Self::V)
        requires
            Self::valid(a),
            Self::valid(b),
        ensures
            Self::combine_model(a, b) == Self::combine_model(b, a),
    ;

    /// Associativity: `(a + b) + c == a + (b + c)`.
    proof fn law_combine_associative(a: Self::V, b: Self::V, c: Self::V)
        requires
            Self::valid(a),
            Self::valid(b),
            Self::valid(c),
        ensures
            Self::combine_model(Self::combine_model(a, b), c) == Self::combine_model(
                a,
                Self::combine_model(b, c),
            ),
    ;

    /// Identity: `a + identity == a`.
    proof fn law_combine_identity(a: Self::V)
        requires
            Self::valid(a),
        ensures
            Self::combine_model(a, Self::identity_model()) == a,
    ;

    /// The identity element.
    fn identity() -> (r: Self)
        ensures
            r@ == Self::identity_model(),
            Self::valid(r@),
    ;

    /// Combine two values, consuming both.
    fn combine(self, other: Self) -> (r: Self)
        requires
            Self::valid(self@),
            Self::valid(other@),
        ensures
            r@ == Self::combine_model(self@, other@),
            Self::valid(r@),
    ;
}

} // verus!
