//! The bounded-lattice abstractions shared by the value lattices.
//!
//! A join-semilattice is a [`CommutativeMonoid`] whose `combine` is also
//! idempotent; its bottom and join are the monoid's identity and `combine`
//! under lattice names. [`MeetSemilattice`] is the dual, with a top and a meet.
//! A type with both halves, and the laws that tie them together, is a
//! [`BoundedLattice`].
use vstd::prelude::*;

use super::monoid::CommutativeMonoid;

verus! {

/// The views of a sequence of values.
pub open spec fn views<T: View>(values: Seq<T>) -> Seq<T::V> {
    values.map_values(|v: T| v@)
}

/// A join-semilattice: a commutative monoid whose `combine` is idempotent,
/// under the lattice names bottom and join.
pub trait JoinSemilattice: CommutativeMonoid {
    /// Whether `m` is the view of a bottom: a value that denotes nothing.
    spec fn is_bottom_model(m: Self::V) -> bool;

    /// Idempotence: the join of a value with itself is that value.
    proof fn law_join_idempotent(a: Self::V)
        requires
            Self::valid(a),
        ensures
            Self::combine_model(a, a) == a,
    ;

    /// The join identity is recognised as bottom.
    proof fn law_identity_is_bottom()
        ensures
            Self::is_bottom_model(Self::identity_model()),
    ;

    /// The least element, the join identity.
    fn bottom() -> (r: Self)
        ensures
            r@ == Self::identity_model(),
            Self::valid(r@),
    {
        Self::identity()
    }

    /// Whether this value is bottom.
    fn is_bottom(&self) -> (r: bool)
        requires
            Self::valid(self@),
        ensures
            r == Self::is_bottom_model(self@),
    ;

    /// The join of two values, consuming both.
    fn join(self, other: Self) -> (r: Self)
        requires
            Self::valid(self@),
            Self::valid(other@),
        ensures
            r@ == Self::combine_model(self@, other@),
            Self::valid(r@),
    {
        self.combine(other)
    }

    /// The join of a list, folded from the bottom. An empty list yields the
    /// bottom, a singleton its element.
    fn join_all(values: Vec<Self>) -> (r: Self)
        requires
            forall|i: int| 0 <= i < values@.len() ==> Self::valid(#[trigger] values@[i]@),
        ensures
            r@ == views(values@).fold_left(
                Self::identity_model(),
                |acc: Self::V, m: Self::V| Self::combine_model(acc, m),
            ),
            Self::valid(r@),
    {
        let mut acc = Self::bottom();
        let ghost models = views(values@);
        assert(models.take(0).len() == 0);
        for value in iter: values
            invariant
                iter.seq() == values@,
                models == views(values@),
                Self::valid(acc@),
                acc@ == models.take(iter.index() as int).fold_left(
                    Self::identity_model(),
                    |acc: Self::V, m: Self::V| Self::combine_model(acc, m),
                ),
                forall|i: int| 0 <= i < values@.len() ==> Self::valid(#[trigger] values@[i]@),
        {
            let ghost i = iter.index() as int;
            proof {
                assert(value == values@[i]);
                assert(models.take(i + 1).drop_last() =~= models.take(i));
                assert(models.take(i + 1).last() == value@);
            }
            acc = acc.join(value);
        }
        assert(models.take(models.len() as int) =~= models);
        acc
    }
}

/// A meet-semilattice: a greatest element and an idempotent, commutative,
/// associative meet.
pub trait MeetSemilattice: Sized + View {
    /// Whether `m` is the view of a well-formed operand of `meet`.
    spec fn meet_valid(m: Self::V) -> bool;

    /// The view of the top.
    spec fn top_model() -> Self::V;

    /// The view of the meet of two values.
    spec fn meet_model(a: Self::V, b: Self::V) -> Self::V;

    /// The top is well-formed.
    proof fn law_top_valid()
        ensures
            Self::meet_valid(Self::top_model()),
    ;

    /// The meet of well-formed values is well-formed.
    proof fn law_meet_valid(a: Self::V, b: Self::V)
        requires
            Self::meet_valid(a),
            Self::meet_valid(b),
        ensures
            Self::meet_valid(Self::meet_model(a, b)),
    ;

    /// Commutativity of the meet.
    proof fn law_meet_commutative(a: Self::V, b: Self::V)
        requires
            Self::meet_valid(a),
            Self::meet_valid(b),
        ensures
            Self::meet_model(a, b) == Self::meet_model(b, a),
    ;

    /// Associativity of the meet.
    proof fn law_meet_associative(a: Self::V, b: Self::V, c: Self::V)
        requires
            Self::meet_valid(a),
            Self::meet_valid(b),
            Self::meet_valid(c),
        ensures
            Self::meet_model(Self::meet_model(a, b), c) == Self::meet_model(
                a,
                Self::meet_model(b, c),
            ),
    ;

    /// Idempotence of the meet.
    proof fn law_meet_idempotent(a: Self::V)
        requires
            Self::meet_valid(a),
        ensures
            Self::meet_model(a, a) == a,
    ;

    /// The top is the unit of the meet.
    proof fn law_meet_identity(a: Self::V)
        requires
            Self::meet_valid(a),
        ensures
            Self::meet_model(a, Self::top_model()) == a,
    ;

    /// The greatest element, the meet identity.
    fn top() -> (r: Self)
        ensures
            r@ == Self::top_model(),
            Self::meet_valid(r@),
    ;

    /// The meet of two values, consuming both.
    fn meet(self, other: Self) -> (r: Self)
        requires
            Self::meet_valid(self@),
            Self::meet_valid(other@),
        ensures
            r@ == Self::meet_model(self@, other@),
            Self::meet_valid(r@),
    ;

    /// The meet of a list, folded from the top. An empty list yields the top,
    /// a singleton its element.
    fn meet_all(values: Vec<Self>) -> (r: Self)
        requires
            forall|i: int| 0 <= i < values@.len() ==> Self::meet_valid(#[trigger] values@[i]@),
        ensures
            r@ == views(values@).fold_left(
                Self::top_model(),
                |acc: Self::V, m: Self::V| Self::meet_model(acc, m),
            ),
            Self::meet_valid(r@),
    {
        let mut acc = Self::top();
        let ghost models = views(values@);
        assert(models.take(0).len() == 0);
        for value in iter: values
            invariant
                iter.seq() == values@,
                models == views(values@),
                Self::meet_valid(acc@),
                acc@ == models.take(iter.index() as int).fold_left(
                    Self::top_model(),
                    |acc: Self::V, m: Self::V| Self::meet_model(acc, m),
                ),
                forall|i: int| 0 <= i < values@.len() ==> Self::meet_valid(#[trigger] values@[i]@),
        {
            let ghost i = iter.index() as int;
            proof {
                assert(value == values@[i]);
                assert(models.take(i + 1).drop_last() =~= models.take(i));
                assert(models.take(i + 1).last() == value@);
            }
            acc = acc.meet(value);
        }
        assert(models.take(models.len() as int) =~= models);
        acc
    }
}

/// A bounded lattice: both semilattice halves over the same carrier, with the
/// laws that involve both.
///
/// The laws between the two operations hold up to `same`, an equivalence that
/// may ignore how a value is written; it never relates values that denote
/// different things.
pub trait BoundedLattice: JoinSemilattice + MeetSemilattice {
    /// Whether two views denote the same.
    spec fn same(a: Self::V, b: Self::V) -> bool;

    /// Both halves agree on which views are well-formed.
    proof fn law_valid_agrees(a: Self::V)
        ensures
            Self::valid(a) <==> Self::meet_valid(a),
    ;

    /// `same` is an equivalence that the join respects, and it keeps bottoms
    /// apart from everything else.
    proof fn law_same(a: Self::V, b: Self::V, c: Self::V)
        requires
            Self::valid(a),
            Self::valid(b),
            Self::valid(c),
        ensures
            Self::same(a, a),
            Self::same(a, b) ==> Self::same(b, a),
            Self::same(a, b) && Self::same(b, c) ==> Self::same(a, c),
            Self::same(a, b) ==> Self::same(
                Self::combine_model(a, c),
                Self::combine_model(b, c),
            ),
            Self::same(a, b) ==> (Self::is_bottom_model(a) <==> Self::is_bottom_model(b)),
    ;

    /// A meet with a bottom is a bottom, and a meet with the bottom is the
    /// bottom; a join with the top is the top.
    proof fn law_annihilators(a: Self::V, b: Self::V)
        requires
            Self::valid(a),
            Self::valid(b),
        ensures
            Self::is_bottom_model(a) ==> Self::is_bottom_model(Self::meet_model(a, b)),
            Self::meet_model(a, Self::identity_model()) == Self::identity_model(),
            Self::combine_model(a, Self::top_model()) == Self::top_model(),
    ;

    /// Absorption: a meet with a join that contains the value, and the dual.
    proof fn law_absorption(a: Self::V, b: Self::V)
        requires
            Self::valid(a),
            Self::valid(b),
        ensures
            Self::same(Self::meet_model(a, Self::combine_model(a, b)), a),
            Self::same(Self::combine_model(a, Self::meet_model(a, b)), a),
    ;

    /// Each operation distributes over the other.
    proof fn law_distributive(a: Self::V, b: Self::V, c: Self::V)
        requires
            Self::valid(a),
            Self::valid(b),
            Self::valid(c),
        ensures
            Self::same(
                Self::meet_model(a, Self::combine_model(b, c)),
                Self::combine_model(Self::meet_model(a, b), Self::meet_model(a, c)),
            ),
            Self::same(
                Self::combine_model(a, Self::meet_model(b, c)),
                Self::meet_model(Self::combine_model(a, b), Self::combine_model(a, c)),
            ),
    ;
}

/// The join of a sequence of views, folded from the bottom.
pub open spec fn join_all_model<T: JoinSemilattice>(models: Seq<T::V>) -> T::V {
    models.fold_left(T::identity_model(), |acc: T::V, m: T::V| T::combine_model(acc, m))
}

/// The meet of a sequence of views, folded from the top.
pub open spec fn meet_all_model<T: MeetSemilattice>(models: Seq<T::V>) -> T::V {
    models.fold_left(T::top_model(), |acc: T::V, m: T::V| T::meet_model(acc, m))
}

/// The join of well-formed values is well-formed.
proof fn lemma_join_all_valid<T: BoundedLattice>(models: Seq<T::V>)
    requires
        forall|i: int| 0 <= i < models.len() ==> T::valid(#[trigger] models[i]),
    ensures
        T::valid(join_all_model::<T>(models)),
    decreases models.len(),
{
    T::law_identity_valid();
    if models.len() > 0 {
        lemma_join_all_valid::<T>(models.drop_last());
        T::law_combine_valid(join_all_model::<T>(models.drop_last()), models.last());
    }
}

/// The meet of well-formed values is well-formed.
proof fn lemma_meet_all_valid<T: BoundedLattice>(models: Seq<T::V>)
    requires
        forall|i: int| 0 <= i < models.len() ==> T::valid(#[trigger] models[i]),
    ensures
        T::meet_valid(meet_all_model::<T>(models)),
    decreases models.len(),
{
    T::law_top_valid();
    if models.len() > 0 {
        lemma_meet_all_valid::<T>(models.drop_last());
        T::law_valid_agrees(models.last());
        T::law_meet_valid(meet_all_model::<T>(models.drop_last()), models.last());
    }
}

/// The meet of one or more values lies below their join: joined with it, the
/// join denotes what it did. (Of no values, the meet is the top and the join the
/// bottom.)
pub proof fn law_meet_all_below_join_all<T: BoundedLattice>(models: Seq<T::V>)
    requires
        models.len() > 0,
        forall|i: int| 0 <= i < models.len() ==> T::valid(#[trigger] models[i]),
    ensures
        T::same(
            T::combine_model(meet_all_model::<T>(models), join_all_model::<T>(models)),
            join_all_model::<T>(models),
        ),
{
    let others = models.drop_last();
    let x = models.last();
    let met = meet_all_model::<T>(others);
    let joined = join_all_model::<T>(others);
    lemma_meet_all_valid::<T>(others);
    lemma_join_all_valid::<T>(others);
    T::law_valid_agrees(met);
    T::law_valid_agrees(x);
    let low = T::meet_model(x, met);
    T::law_meet_commutative(met, x);
    T::law_meet_valid(x, met);
    T::law_valid_agrees(low);
    T::law_combine_commutative(joined, x);
    T::law_combine_associative(low, x, joined);
    T::law_combine_commutative(low, x);
    T::law_combine_valid(x, low);
    T::law_absorption(x, met);
    T::law_same(T::combine_model(x, low), x, joined);
}

} // verus!
