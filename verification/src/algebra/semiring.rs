//! The commutative semiring, the algebra provenance accumulates in.
//!
//! A [`Semiring`] is two interlocking commutative monoids over one carrier,
//! sum and product, with the product distributing over the sum and zero
//! annihilating the product. As provenance, the sum records alternatives and
//! the product joint use.
use vstd::prelude::*;

use super::ordered::{ascending, keys, lemma_take_to_set, OrderedSet, TotalOrder};

verus! {

/// A commutative semiring.
///
/// Values are compared by their views. `valid` says which views occur, and the
/// laws are obligations of every implementation.
pub trait Semiring: Sized + View {
    /// Whether `m` is the view of a well-formed value.
    spec fn valid(m: Self::V) -> bool;

    /// The view of the additive identity.
    spec fn zero_model() -> Self::V;

    /// The view of the multiplicative identity.
    spec fn one_model() -> Self::V;

    /// The view of a sum.
    spec fn plus_model(a: Self::V, b: Self::V) -> Self::V;

    /// The view of a product.
    spec fn times_model(a: Self::V, b: Self::V) -> Self::V;

    /// Well-formedness is kept by every operation.
    proof fn law_valid(a: Self::V, b: Self::V)
        requires
            Self::valid(a),
            Self::valid(b),
        ensures
            Self::valid(Self::zero_model()),
            Self::valid(Self::one_model()),
            Self::valid(Self::plus_model(a, b)),
            Self::valid(Self::times_model(a, b)),
    ;

    /// The sum is a commutative monoid with identity zero.
    proof fn law_plus(a: Self::V, b: Self::V, c: Self::V)
        requires
            Self::valid(a),
            Self::valid(b),
            Self::valid(c),
        ensures
            Self::plus_model(a, b) == Self::plus_model(b, a),
            Self::plus_model(Self::plus_model(a, b), c) == Self::plus_model(
                a,
                Self::plus_model(b, c),
            ),
            Self::plus_model(a, Self::zero_model()) == a,
    ;

    /// The product is a commutative monoid with identity one.
    proof fn law_times(a: Self::V, b: Self::V, c: Self::V)
        requires
            Self::valid(a),
            Self::valid(b),
            Self::valid(c),
        ensures
            Self::times_model(a, b) == Self::times_model(b, a),
            Self::times_model(Self::times_model(a, b), c) == Self::times_model(
                a,
                Self::times_model(b, c),
            ),
            Self::times_model(a, Self::one_model()) == a,
    ;

    /// The product distributes over the sum.
    proof fn law_distributive(a: Self::V, b: Self::V, c: Self::V)
        requires
            Self::valid(a),
            Self::valid(b),
            Self::valid(c),
        ensures
            Self::times_model(a, Self::plus_model(b, c)) == Self::plus_model(
                Self::times_model(a, b),
                Self::times_model(a, c),
            ),
    ;

    /// Zero annihilates the product.
    proof fn law_zero_annihilates(a: Self::V)
        requires
            Self::valid(a),
        ensures
            Self::times_model(Self::zero_model(), a) == Self::zero_model(),
    ;

    /// The additive identity, and the multiplicative annihilator.
    fn zero() -> (r: Self)
        ensures
            r@ == Self::zero_model(),
            Self::valid(r@),
    ;

    /// The multiplicative identity.
    fn one() -> (r: Self)
        ensures
            r@ == Self::one_model(),
            Self::valid(r@),
    ;

    /// The additive operation.
    fn plus(self, other: Self) -> (r: Self)
        requires
            Self::valid(self@),
            Self::valid(other@),
        ensures
            r@ == Self::plus_model(self@, other@),
            Self::valid(r@),
    ;

    /// The multiplicative operation.
    fn times(self, other: Self) -> (r: Self)
        requires
            Self::valid(self@),
            Self::valid(other@),
        ensures
            r@ == Self::times_model(self@, other@),
            Self::valid(r@),
    ;
}

// --- Antichains of finite sets ---

/// Whether `s` has a member that lies within `e`.
pub open spec fn supports<V>(s: Set<Set<V>>, e: Set<V>) -> bool {
    exists|f: Set<V>| #[trigger] s.contains(f) && f.subset_of(e)
}

/// Every member of `s` is finite.
pub open spec fn members_finite<V>(s: Set<Set<V>>) -> bool {
    forall|e: Set<V>| #[trigger] s.contains(e) ==> e.finite()
}

/// No member of `s` lies within another.
pub open spec fn antichain<V>(s: Set<Set<V>>) -> bool {
    forall|e: Set<V>, f: Set<V>| #[trigger]
        s.contains(e) && #[trigger] s.contains(f) && e.subset_of(f) ==> e == f
}

/// The members of `s` that have no other member within them.
pub open spec fn minimal<V>(s: Set<Set<V>>) -> Set<Set<V>> {
    Set::new(
        |e: Set<V>|
            s.contains(e) && forall|f: Set<V>| #[trigger]
                s.contains(f) && f.subset_of(e) ==> f == e,
    )
}

/// All unions of a member of `a` with a member of `b`.
pub open spec fn pairwise_unions<V>(a: Set<Set<V>>, b: Set<Set<V>>) -> Set<Set<V>> {
    Set::new(|e: Set<V>| is_pairwise_union(a, b, e))
}

/// Whether `e` is the union of a member of `a` with a member of `b`.
pub open spec fn is_pairwise_union<V>(a: Set<Set<V>>, b: Set<Set<V>>, e: Set<V>) -> bool {
    exists|x: Set<V>, y: Set<V>| #[trigger]
        a.contains(x) && #[trigger] b.contains(y) && e == x.union(y)
}

/// Below every finite member there is a minimal one.
proof fn lemma_minimal_below<V>(s: Set<Set<V>>, e: Set<V>) -> (f: Set<V>)
    requires
        members_finite(s),
        s.contains(e),
    ensures
        minimal(s).contains(f),
        f.subset_of(e),
    decreases e.len(),
{
    if minimal(s).contains(e) {
        e
    } else {
        let g = choose|g: Set<V>| #[trigger] s.contains(g) && g.subset_of(e) && g != e;
        vstd::set_lib::lemma_len_subset(g, e);
        if g.len() == e.len() {
            vstd::set_lib::lemma_subset_equality(g, e);
        }
        lemma_minimal_below(s, g)
    }
}

/// The minimal members support what all members support, and form an
/// antichain.
pub proof fn lemma_minimal<V>(s: Set<Set<V>>)
    requires
        members_finite(s),
    ensures
        antichain(minimal(s)),
        members_finite(minimal(s)),
        forall|e: Set<V>| #[trigger] supports(minimal(s), e) <==> supports(s, e),
{
    assert forall|e: Set<V>| #[trigger] supports(minimal(s), e) <==> supports(s, e) by {
        if supports(s, e) {
            let f = choose|f: Set<V>| #[trigger] s.contains(f) && f.subset_of(e);
            let g = lemma_minimal_below(s, f);
            assert(minimal(s).contains(g) && g.subset_of(e));
        }
        if supports(minimal(s), e) {
            let f = choose|f: Set<V>| #[trigger] minimal(s).contains(f) && f.subset_of(e);
            assert(s.contains(f));
        }
    }
}

/// An antichain is known by what it supports.
pub proof fn lemma_antichain_by_support<V>(a: Set<Set<V>>, b: Set<Set<V>>)
    requires
        antichain(a),
        antichain(b),
        forall|e: Set<V>| #[trigger] supports(a, e) <==> supports(b, e),
    ensures
        a == b,
{
    lemma_support_contains(a, b);
    lemma_support_contains(b, a);
    assert(a =~= b);
}

proof fn lemma_support_contains<V>(a: Set<Set<V>>, b: Set<Set<V>>)
    requires
        antichain(a),
        antichain(b),
        forall|e: Set<V>| supports(a, e) <==> supports(b, e),
    ensures
        a.subset_of(b),
{
    assert forall|x: Set<V>| a.contains(x) implies b.contains(x) by {
        assert(x.subset_of(x));
        assert(supports(a, x));
        assert(supports(b, x));
        let f = choose|f: Set<V>| #[trigger] b.contains(f) && f.subset_of(x);
        assert(f.subset_of(f));
        assert(supports(b, f));
        assert(supports(a, f));
        let g = choose|g: Set<V>| #[trigger] a.contains(g) && g.subset_of(f);
        assert(g.subset_of(x));
        assert(g == x);
        assert(f =~= x);
    }
}

/// What a union of two families supports.
proof fn lemma_support_union<V>(a: Set<Set<V>>, b: Set<Set<V>>)
    ensures
        forall|e: Set<V>| #[trigger]
            supports(a.union(b), e) <==> supports(a, e) || supports(b, e),
{
    assert forall|e: Set<V>| #[trigger] supports(a.union(b), e) <==> supports(a, e) || supports(
        b,
        e,
    ) by {
        if supports(a, e) {
            let f = choose|f: Set<V>| #[trigger] a.contains(f) && f.subset_of(e);
            assert(a.union(b).contains(f));
        }
        if supports(b, e) {
            let f = choose|f: Set<V>| #[trigger] b.contains(f) && f.subset_of(e);
            assert(a.union(b).contains(f));
        }
    }
}

/// What the pairwise unions of two families support.
proof fn lemma_support_pairwise<V>(a: Set<Set<V>>, b: Set<Set<V>>)
    ensures
        forall|e: Set<V>| #[trigger]
            supports(pairwise_unions(a, b), e) <==> supports(a, e) && supports(b, e),
        members_finite(a) && members_finite(b) ==> members_finite(pairwise_unions(a, b)),
{
    let p = pairwise_unions(a, b);
    assert forall|e: Set<V>| #[trigger] supports(p, e) <==> supports(a, e) && supports(b, e) by {
        if supports(p, e) {
            let f = choose|f: Set<V>| #[trigger] p.contains(f) && f.subset_of(e);
            assert(is_pairwise_union(a, b, f));
            let (x, y) = choose|x: Set<V>, y: Set<V>| #[trigger]
                a.contains(x) && #[trigger] b.contains(y) && f == x.union(y);
            assert(x.subset_of(e) && y.subset_of(e));
        }
        if supports(a, e) && supports(b, e) {
            let x = choose|x: Set<V>| #[trigger] a.contains(x) && x.subset_of(e);
            let y = choose|y: Set<V>| #[trigger] b.contains(y) && y.subset_of(e);
            assert(is_pairwise_union(a, b, x.union(y)));
            assert(p.contains(x.union(y)));
        }
    }
    if members_finite(a) && members_finite(b) {
        assert forall|e: Set<V>| #[trigger] p.contains(e) implies e.finite() by {
            assert(is_pairwise_union(a, b, e));
        }
    }
}

// --- Environments and labels ---

/// A set of atoms that jointly support one derivation of a value.
#[derive(Debug)]
struct Environment<X: TotalOrder>(OrderedSet<X>);

impl<X: TotalOrder> View for Environment<X> {
    type V = Set<X::V>;

    closed spec fn view(&self) -> Set<X::V> {
        self.0@
    }
}

impl<X: TotalOrder> Environment<X> {
    /// The empty environment, the tautological support.
    fn empty() -> (r: Self)
        ensures
            r@ == Set::<X::V>::empty(),
    {
        Environment(OrderedSet::new())
    }

    /// The environment resting on a single atom.
    fn single(atom: X) -> (r: Self)
        ensures
            r@ == Set::<X::V>::empty().insert(atom@),
            r.0.members() == seq![atom],
    {
        Environment(OrderedSet::singleton(atom))
    }

    /// The union of two environments: the joint support of using both.
    fn union(&self, other: &Self) -> (r: Self)
        ensures
            r@ == self@.union(other@),
            r@.finite(),
    {
        Environment(self.0.union(&other.0))
    }

    /// Whether every atom of `self` also lies in `other`.
    fn is_subset(&self, other: &Self) -> (r: bool)
        ensures
            r == self@.subset_of(other@),
    {
        self.0.is_subset(&other.0)
    }

    fn duplicate(&self) -> (r: Self)
        ensures
            r@ == self@,
            r@.finite(),
    {
        Environment(self.0.duplicate())
    }
}

/// The views of a list of environments.
spec fn family<X: TotalOrder>(s: Seq<Environment<X>>) -> Set<Set<X::V>> {
    Set::new(|e: Set<X::V>| exists|i: int| 0 <= i < s.len() && (#[trigger] s[i])@ == e)
}

proof fn lemma_family_push<X: TotalOrder>(s: Seq<Environment<X>>, env: Environment<X>)
    ensures
        family(s.push(env)) == family(s).insert(env@),
{
    let t = s.push(env);
    assert forall|e: Set<X::V>| family(t).contains(e) <==> family(s).contains(e) || e == env@ by {
        if family(s).contains(e) {
            let i = choose|i: int| 0 <= i < s.len() && (#[trigger] s[i])@ == e;
            assert(t[i]@ == e);
        }
        assert(t[s.len() as int]@ == env@);
        if family(t).contains(e) {
            let i = choose|i: int| 0 <= i < t.len() && (#[trigger] t[i])@ == e;
            if i < s.len() {
                assert(s[i]@ == e);
            }
        }
    }
    assert(family(t) =~= family(s).insert(env@));
}

/// What one more environment adds to the support.
proof fn lemma_support_insert<V>(s: Set<Set<V>>, env: Set<V>)
    ensures
        forall|e: Set<V>| #[trigger]
            supports(s.insert(env), e) <==> supports(s, e) || env.subset_of(e),
{
    assert forall|e: Set<V>| #[trigger] supports(s.insert(env), e) <==> supports(s, e)
        || env.subset_of(e) by {
        if supports(s, e) {
            let f = choose|f: Set<V>| #[trigger] s.contains(f) && f.subset_of(e);
            assert(s.insert(env).contains(f));
        }
        if env.subset_of(e) {
            assert(s.insert(env).contains(env));
        }
    }
}

/// Reduce environments to an antichain: keep only those minimal under subset,
/// dropping every superset.
fn minimize_environments<X: TotalOrder>(envs: Vec<Environment<X>>) -> (r: Vec<Environment<X>>)
    requires
        members_finite(family(envs@)),
    ensures
        family(r@) == minimal(family(envs@)),
        antichain(family(r@)),
        members_finite(family(r@)),
{
    let mut kept: Vec<Environment<X>> = Vec::with_capacity(envs.len());
    let mut n: usize = 0;
    proof {
        assert(family(kept@) =~= Set::empty());
        assert(family(envs@.take(0)) =~= Set::empty());
    }
    while n < envs.len()
        invariant
            n <= envs@.len(),
            antichain(family(kept@)),
            family(kept@).subset_of(family(envs@.take(n as int))),
            forall|e: Set<X::V>| #[trigger]
                supports(family(kept@), e) <==> supports(family(envs@.take(n as int)), e),
        decreases envs.len() - n,
    {
        let env = &envs[n];
        proof {
            assert(envs@.take(n + 1) =~= envs@.take(n as int).push(*env));
            lemma_family_push(envs@.take(n as int), *env);
            lemma_support_insert(family(envs@.take(n as int)), env@);
        }
        let covered = any_subset(&kept, env);
        if covered {
            proof {
                let f = choose|f: Set<X::V>| #[trigger]
                    family(kept@).contains(f) && f.subset_of(env@);
                assert forall|e: Set<X::V>| #[trigger] supports(family(kept@), e) <==> supports(
                    family(envs@.take(n + 1)),
                    e,
                ) by {
                    if env@.subset_of(e) {
                        assert(family(kept@).contains(f) && f.subset_of(e));
                    }
                    assert(supports(family(envs@.take(n as int)), e) <==> supports(
                        family(kept@),
                        e,
                    ));
                }
            }
        } else {
            let ghost old_kept = family(kept@);
            let mut rest = without_supersets(&kept, env);
            let ghost middle = family(rest@);
            let copy = env.duplicate();
            proof {
                lemma_family_push(rest@, copy);
                lemma_support_insert(middle, env@);
                assert forall|e: Set<X::V>| #[trigger] supports(
                    middle.insert(env@),
                    e,
                ) <==> supports(family(envs@.take(n + 1)), e) by {
                    assert(supports(old_kept, e) <==> supports(family(envs@.take(n as int)), e));
                    if supports(old_kept, e) && !env@.subset_of(e) {
                        let f = choose|f: Set<X::V>| #[trigger]
                            old_kept.contains(f) && f.subset_of(e);
                        if env@.subset_of(f) {
                            assert(env@.subset_of(e));
                        }
                        assert(middle.contains(f));
                    }
                    if supports(middle, e) {
                        let f = choose|f: Set<X::V>| #[trigger] middle.contains(f) && f.subset_of(e);
                        assert(old_kept.contains(f));
                    }
                }
                assert forall|e: Set<X::V>, f: Set<X::V>| #[trigger]
                    middle.insert(env@).contains(e) && #[trigger] middle.insert(env@).contains(f)
                        && e.subset_of(f) implies e == f by {
                    if e == env@ && f != env@ {
                        assert(middle.contains(f));
                    } else if f == env@ && e != env@ {
                        assert(old_kept.contains(e));
                        assert(supports(old_kept, env@));
                    } else if e != env@ && f != env@ {
                        assert(old_kept.contains(e) && old_kept.contains(f));
                    }
                }
            }
            rest.push(copy);
            kept = rest;
        }
        n += 1;
    }
    proof {
        assert(envs@.take(n as int) =~= envs@);
        lemma_minimal(family(envs@));
        assert forall|e: Set<X::V>| #[trigger] supports(family(kept@), e) <==> supports(
            minimal(family(envs@)),
            e,
        ) by {
            assert(supports(family(kept@), e) <==> supports(family(envs@), e));
        }
        lemma_antichain_by_support(family(kept@), minimal(family(envs@)));
    }
    kept
}

/// Whether some kept environment lies within `env`.
fn any_subset<X: TotalOrder>(kept: &Vec<Environment<X>>, env: &Environment<X>) -> (r: bool)
    ensures
        r == supports(family(kept@), env@),
{
    let mut i: usize = 0;
    while i < kept.len()
        invariant
            i <= kept@.len(),
            forall|k: int| 0 <= k < i ==> !(#[trigger] kept@[k])@.subset_of(env@),
        decreases kept.len() - i,
    {
        if kept[i].is_subset(env) {
            assert(family(kept@).contains(kept@[i as int]@));
            return true;
        }
        i += 1;
    }
    assert forall|f: Set<X::V>| #[trigger] family(kept@).contains(f) implies !f.subset_of(env@) by {
        let k = choose|k: int| 0 <= k < kept@.len() && (#[trigger] kept@[k])@ == f;
    }
    false
}

/// The kept environments that do not contain `env`.
fn without_supersets<X: TotalOrder>(kept: &Vec<Environment<X>>, env: &Environment<X>) -> (r: Vec<
    Environment<X>,
>)
    ensures
        forall|f: Set<X::V>| #[trigger]
            family(r@).contains(f) <==> family(kept@).contains(f) && !env@.subset_of(f),
{
    let mut rest: Vec<Environment<X>> = Vec::with_capacity(kept.len());
    let mut i: usize = 0;
    while i < kept.len()
        invariant
            i <= kept@.len(),
            forall|f: Set<X::V>| #[trigger]
                family(rest@).contains(f) <==> family(kept@.take(i as int)).contains(f)
                    && !env@.subset_of(f),
        decreases kept.len() - i,
    {
        proof {
            assert(kept@.take(i + 1) =~= kept@.take(i as int).push(kept@[i as int]));
            lemma_family_push(kept@.take(i as int), kept@[i as int]);
        }
        if !env.is_subset(&kept[i]) {
            let copy = kept[i].duplicate();
            proof {
                lemma_family_push(rest@, copy);
            }
            rest.push(copy);
        }
        i += 1;
    }
    assert(kept@.take(i as int) =~= kept@);
    rest
}

/// The provenance carrier for a projected value: the minimal environments
/// under which it holds, kept as an antichain.
///
/// A commutative semiring, with `zero` the empty label, `one` the tautology,
/// `times` the cross-union (joint support), and `plus` the minimized union of
/// environments (alternatives). The view is the set of environments, so two
/// labels built by different fold orders have the same view.
#[derive(Debug)]
pub struct Label<X: TotalOrder> {
    environments: Vec<Environment<X>>,
}

impl<X: TotalOrder> View for Label<X> {
    type V = Set<Set<X::V>>;

    closed spec fn view(&self) -> Set<Set<X::V>> {
        family(self.environments@)
    }
}

impl<X: TotalOrder> Clone for Label<X> {
    fn clone(&self) -> (r: Self)
        ensures
            r@ == self@,
    {
        proof {
            use_type_invariant(self);
        }
        let ghost all = self.environments@;
        let mut environments: Vec<Environment<X>> = Vec::with_capacity(self.environments.len());
        let mut i: usize = 0;
        assert(family(environments@) =~= family(all.take(0)));
        while i < self.environments.len()
            invariant
                i <= all.len(),
                all == self.environments@,
                family(environments@) == family(all.take(i as int)),
            decreases self.environments.len() - i,
        {
            let copy = self.environments[i].duplicate();
            proof {
                assert(all.take(i + 1) =~= all.take(i as int).push(all[i as int]));
                lemma_family_push(all.take(i as int), all[i as int]);
                lemma_family_push(environments@, copy);
            }
            environments.push(copy);
            i += 1;
        }
        assert(all.take(i as int) =~= all);
        Label { environments }
    }
}

/// The image of a set of atoms under an executable function.
pub open spec fn atom_image<X: TotalOrder, Y: TotalOrder, F: Fn(X) -> Y>(
    f: F,
    env: Set<X::V>,
) -> Set<Y::V> {
    Set::new(|w: Y::V| is_atom_image::<X, Y, F>(f, env, w))
}

/// Whether the function sends some atom of `env` to `w`.
pub open spec fn is_atom_image<X: TotalOrder, Y: TotalOrder, F: Fn(X) -> Y>(
    f: F,
    env: Set<X::V>,
    w: Y::V,
) -> bool {
    exists|x: X, y: Y| #[trigger] call_ensures(f, (x,), y) && env.contains(x@) && y@ == w
}

/// The images of a family of environments under an executable function.
pub open spec fn family_image<X: TotalOrder, Y: TotalOrder, F: Fn(X) -> Y>(
    f: F,
    s: Set<Set<X::V>>,
) -> Set<Set<Y::V>> {
    Set::new(
        |e: Set<Y::V>|
            exists|env: Set<X::V>| #[trigger]
                s.contains(env) && e == atom_image::<X, Y, F>(f, env),
    )
}

impl<X: TotalOrder> Label<X> {
    /// The environments are finite, and none lies within another.
    #[verifier::type_invariant]
    spec fn minimal_environments(self) -> bool {
        &&& antichain(family(self.environments@))
        &&& members_finite(family(self.environments@))
    }

    /// The atoms themselves that the environments hold.
    pub closed spec fn held(self) -> Set<X> {
        Set::new(
            |atom: X|
                exists|i: int|
                    0 <= i < self.environments@.len() && (
                    #[trigger] self.environments@[i]).0.members().contains(atom),
        )
    }

    /// The empty label, the additive identity: a value no derivation reaches.
    pub fn empty() -> (r: Self)
        ensures
            r@ == Set::<Set<X::V>>::empty(),
    {
        let environments: Vec<Environment<X>> = Vec::new();
        assert(family(environments@) =~= Set::empty());
        Label { environments }
    }

    /// A premise: the value rests on exactly one atom.
    pub fn premise(atom: X) -> (r: Self)
        ensures
            r@ == set![set![atom@]],
            r.held() == set![atom],
    {
        let mut environments: Vec<Environment<X>> = Vec::new();
        let ghost none = environments@;
        let env = Environment::single(atom);
        proof {
            assert(family(none) =~= Set::empty());
            lemma_family_push(none, env);
        }
        environments.push(env);
        assert(family(environments@) =~= set![set![atom@]]);
        let r = Label { environments };
        assert(r.held() =~= set![atom]) by {
            assert(r.environments@[0].0.members()[0] == atom);
        }
        r
    }

    /// Rewrite every atom through `f`, re-minimizing the result.
    ///
    /// The map can send two atoms to one, which can make an environment a
    /// subset of another, so the antichain is rebuilt rather than carried over.
    pub fn map_atoms<Y: TotalOrder, F: Fn(X) -> Y>(self, f: F) -> (r: Label<Y>)
        requires
            forall|x: X| #[trigger] call_requires(f, (x,)),
            forall|x: X, y: Y, x2: X, y2: Y| #[trigger]
                call_ensures(f, (x,), y) && #[trigger] call_ensures(f, (x2,), y2) && x@ == x2@
                    ==> y@ == y2@,
        ensures
            r@ == minimal(family_image::<X, Y, F>(f, self@)),
    {
        let mut envs: Vec<Environment<Y>> = Vec::with_capacity(self.environments.len());
        let mut n: usize = 0;
        assert(family(envs@) =~= Set::empty());
        assert(family_image::<X, Y, F>(f, family(self.environments@.take(0))) =~= Set::empty());
        while n < self.environments.len()
            invariant
                n <= self.environments@.len(),
                forall|x: X| #[trigger] call_requires(f, (x,)),
                forall|x: X, y: Y, x2: X, y2: Y| #[trigger]
                    call_ensures(f, (x,), y) && #[trigger] call_ensures(f, (x2,), y2) && x@ == x2@
                        ==> y@ == y2@,
                members_finite(family(envs@)),
                family(envs@) == family_image::<X, Y, F>(
                    f,
                    family(self.environments@.take(n as int)),
                ),
            decreases self.environments.len() - n,
        {
            let env = &self.environments[n];
            let image = map_environment(env, &f);
            proof {
                let before = self.environments@.take(n as int);
                assert(self.environments@.take(n + 1) =~= before.push(*env));
                lemma_family_push(before, *env);
                lemma_family_push(envs@, image);
                let done = family_image::<X, Y, F>(f, family(before));
                let next = family_image::<X, Y, F>(f, family(before).insert(env@));
                assert forall|e: Set<Y::V>| next.contains(e) <==> done.contains(e) || e == image@ by {
                    if done.contains(e) {
                        let g = choose|g: Set<X::V>| #[trigger]
                            family(before).contains(g) && e == atom_image::<X, Y, F>(f, g);
                        assert(family(before).insert(env@).contains(g));
                    }
                    assert(family(before).insert(env@).contains(env@));
                    if next.contains(e) {
                        let g = choose|g: Set<X::V>| #[trigger]
                            family(before).insert(env@).contains(g) && e == atom_image::<X, Y, F>(
                                f,
                                g,
                            );
                        if g != env@ {
                            assert(family(before).contains(g));
                        }
                    }
                }
                assert(next =~= done.insert(image@));
            }
            envs.push(image);
            n += 1;
        }
        assert(self.environments@.take(n as int) =~= self.environments@);
        Label { environments: minimize_environments(envs) }
    }

    /// Cross-union: each environment of `self` joined with each of `other`,
    /// minimized back to an antichain. The multiplicative operation.
    fn cross_union(&self, other: &Self) -> (r: Self)
        ensures
            r@ == minimal(pairwise_unions(self@, other@)),
    {
        let mut envs: Vec<Environment<X>> = Vec::new();
        let ghost left = self.environments@;
        let ghost right = other.environments@;
        let mut i: usize = 0;
        proof {
            assert(family(left.take(0)) =~= Set::empty());
            assert(family(envs@) =~= pairwise_unions(family(left.take(0)), family(right)));
        }
        while i < self.environments.len()
            invariant
                i <= left.len(),
                left == self.environments@,
                right == other.environments@,
                members_finite(family(envs@)),
                family(envs@) == pairwise_unions(family(left.take(i as int)), family(right)),
            decreases self.environments.len() - i,
        {
            let ghost done = family(envs@);
            let ghost row = left[i as int]@;
            let mut j: usize = 0;
            proof {
                assert(family(right.take(0)) =~= Set::empty());
                assert(pairwise_unions(set![row], family(right.take(0))) =~= Set::empty());
                assert(done.union(Set::empty()) =~= done);
            }
            while j < other.environments.len()
                invariant
                    i < left.len(),
                    j <= right.len(),
                    left == self.environments@,
                    right == other.environments@,
                    row == left[i as int]@,
                    members_finite(family(envs@)),
                    family(envs@) == done.union(
                        pairwise_unions(set![row], family(right.take(j as int))),
                    ),
                decreases other.environments.len() - j,
            {
                let both = self.environments[i].union(&other.environments[j]);
                proof {
                    assert(right.take(j + 1) =~= right.take(j as int).push(right[j as int]));
                    lemma_family_push(right.take(j as int), right[j as int]);
                    lemma_family_push(envs@, both);
                    lemma_row_insert(row, family(right.take(j as int)), right[j as int]@);
                    assert(family(envs@).insert(both@) =~= done.union(
                        pairwise_unions(set![row], family(right.take(j + 1))),
                    ));
                }
                envs.push(both);
                j += 1;
            }
            proof {
                assert(right.take(j as int) =~= right);
                assert(left.take(i + 1) =~= left.take(i as int).push(left[i as int]));
                lemma_family_push(left.take(i as int), left[i as int]);
                lemma_column_insert(family(left.take(i as int)), row, family(right));
            }
            i += 1;
        }
        assert(left.take(i as int) =~= left);
        Label { environments: minimize_environments(envs) }
    }

    /// Whether two labels have the same environments.
    pub fn same(&self, other: &Self) -> (r: bool)
        ensures
            r == (self@ == other@),
    {
        let r = all_members(&self.environments, &other.environments) && all_members(
            &other.environments,
            &self.environments,
        );
        assert(r ==> self@ =~= other@);
        r
    }
}

/// Whether every environment of `a` is one of `b`.
fn all_members<X: TotalOrder>(a: &Vec<Environment<X>>, b: &Vec<Environment<X>>) -> (r: bool)
    ensures
        r == family(a@).subset_of(family(b@)),
{
    let mut i: usize = 0;
    while i < a.len()
        invariant
            i <= a@.len(),
            forall|k: int| 0 <= k < i ==> family(b@).contains((#[trigger] a@[k])@),
        decreases a.len() - i,
    {
        let mut j: usize = 0;
        let mut found = false;
        while j < b.len()
            invariant
                i < a@.len(),
                j <= b@.len(),
                found == exists|k: int| 0 <= k < j && (#[trigger] b@[k])@ == a@[i as int]@,
            decreases b.len() - j,
        {
            if a[i].0.same(&b[j].0) {
                found = true;
            }
            j += 1;
        }
        if !found {
            assert(family(a@).contains(a@[i as int]@));
            return false;
        }
        i += 1;
    }
    assert forall|e: Set<X::V>| family(a@).contains(e) implies family(b@).contains(e) by {
        let k = choose|k: int| 0 <= k < a@.len() && (#[trigger] a@[k])@ == e;
    }
    true
}

/// The image of one environment.
fn map_environment<X: TotalOrder, Y: TotalOrder, F: Fn(X) -> Y>(
    env: &Environment<X>,
    f: &F,
) -> (r: Environment<Y>)
    requires
        forall|x: X| #[trigger] call_requires(*f, (x,)),
        forall|x: X, y: Y, x2: X, y2: Y| #[trigger]
            call_ensures(*f, (x,), y) && #[trigger] call_ensures(*f, (x2,), y2) && x@ == x2@
                ==> y@ == y2@,
    ensures
        r@ == atom_image::<X, Y, F>(*f, env@),
        r@.finite(),
{
    let atoms = env.0.as_slice();
    let mut out: OrderedSet<Y> = OrderedSet::new();
    let mut i: usize = 0;
    proof {
        assert(out@ =~= atom_image::<X, Y, F>(*f, env.0.list().take(0).to_set()));
    }
    while i < atoms.len()
        invariant
            i <= atoms@.len(),
            atoms@ == env.0.members(),
            forall|x: X| #[trigger] call_requires(*f, (x,)),
            forall|x: X, y: Y, x2: X, y2: Y| #[trigger]
                call_ensures(*f, (x,), y) && #[trigger] call_ensures(*f, (x2,), y2) && x@ == x2@
                    ==> y@ == y2@,
            out@.finite(),
            out@ == atom_image::<X, Y, F>(*f, env.0.list().take(i as int).to_set()),
        decreases atoms.len() - i,
    {
        let atom = atoms[i].clone();
        let ghost x = atom;
        proof {
            X::clone_keeps_view(atoms@[i as int], atom);
            lemma_take_to_set(env.0.list(), i as int);
        }
        let image = f(atom);
        let ghost y = image;
        let ghost before = env.0.list().take(i as int).to_set();
        out.insert(image);
        proof {
            assert(call_ensures(*f, (x,), y));
            assert forall|w: Y::V| is_atom_image::<X, Y, F>(*f, before.insert(x@), w)
                <==> is_atom_image::<X, Y, F>(*f, before, w) || w == y@ by {
            }
            assert(atom_image::<X, Y, F>(*f, before.insert(x@)) =~= atom_image::<X, Y, F>(
                *f,
                before,
            ).insert(y@));
        }
        i += 1;
    }
    assert(env.0.list().take(i as int) =~= env.0.list());
    Environment(out)
}

proof fn lemma_row_insert<V>(row: Set<V>, b: Set<Set<V>>, e: Set<V>)
    ensures
        pairwise_unions(set![row], b.insert(e)) == pairwise_unions(set![row], b).insert(
            row.union(e),
        ),
{
    let s = set![row];
    assert(s.contains(row));
    assert forall|g: Set<V>| is_pairwise_union(s, b.insert(e), g) <==> is_pairwise_union(s, b, g)
        || g == row.union(e) by {
        if is_pairwise_union(s, b, g) {
            let (x, y) = choose|x: Set<V>, y: Set<V>| #[trigger]
                s.contains(x) && #[trigger] b.contains(y) && g == x.union(y);
            assert(b.insert(e).contains(y));
        }
        assert(b.insert(e).contains(e));
        if is_pairwise_union(s, b.insert(e), g) {
            let (x, y) = choose|x: Set<V>, y: Set<V>| #[trigger]
                s.contains(x) && #[trigger] b.insert(e).contains(y) && g == x.union(y);
            assert(x == row);
            if y != e {
                assert(b.contains(y));
            }
        }
    }
    let whole = pairwise_unions(s, b.insert(e));
    let parts = pairwise_unions(s, b).insert(row.union(e));
    assert forall|g: Set<V>| whole.contains(g) <==> parts.contains(g) by {
        assert(is_pairwise_union(s, b.insert(e), g) <==> is_pairwise_union(s, b, g) || g
            == row.union(e));
    }
    assert(whole =~= parts);
}

proof fn lemma_column_insert<V>(a: Set<Set<V>>, row: Set<V>, b: Set<Set<V>>)
    ensures
        pairwise_unions(a.insert(row), b) == pairwise_unions(a, b).union(
            pairwise_unions(set![row], b),
        ),
{
    let s = set![row];
    assert(s.contains(row));
    assert forall|g: Set<V>| is_pairwise_union(a.insert(row), b, g) <==> is_pairwise_union(a, b, g)
        || is_pairwise_union(s, b, g) by {
        if is_pairwise_union(a, b, g) {
            let (x, y) = choose|x: Set<V>, y: Set<V>| #[trigger]
                a.contains(x) && #[trigger] b.contains(y) && g == x.union(y);
            assert(a.insert(row).contains(x));
        }
        if is_pairwise_union(s, b, g) {
            let (x, y) = choose|x: Set<V>, y: Set<V>| #[trigger]
                s.contains(x) && #[trigger] b.contains(y) && g == x.union(y);
            assert(a.insert(row).contains(x));
        }
        if is_pairwise_union(a.insert(row), b, g) {
            let (x, y) = choose|x: Set<V>, y: Set<V>| #[trigger]
                a.insert(row).contains(x) && #[trigger] b.contains(y) && g == x.union(y);
            if x == row {
                assert(s.contains(x));
            } else {
                assert(a.contains(x));
            }
        }
    }
    assert(pairwise_unions(a.insert(row), b) =~= pairwise_unions(a, b).union(
        pairwise_unions(s, b),
    ));
}

impl<X: TotalOrder> Semiring for Label<X> {
    open spec fn valid(m: Set<Set<X::V>>) -> bool {
        antichain(m) && members_finite(m)
    }

    open spec fn zero_model() -> Set<Set<X::V>> {
        Set::empty()
    }

    open spec fn one_model() -> Set<Set<X::V>> {
        set![Set::empty()]
    }

    open spec fn plus_model(a: Set<Set<X::V>>, b: Set<Set<X::V>>) -> Set<Set<X::V>> {
        minimal(a.union(b))
    }

    open spec fn times_model(a: Set<Set<X::V>>, b: Set<Set<X::V>>) -> Set<Set<X::V>> {
        minimal(pairwise_unions(a, b))
    }

    proof fn law_valid(a: Set<Set<X::V>>, b: Set<Set<X::V>>) {
        lemma_plus::<X::V>(a, b);
        lemma_times::<X::V>(a, b);
    }

    proof fn law_plus(a: Set<Set<X::V>>, b: Set<Set<X::V>>, c: Set<Set<X::V>>) {
        let ab = Self::plus_model(a, b);
        let bc = Self::plus_model(b, c);
        lemma_plus::<X::V>(a, b);
        lemma_plus::<X::V>(b, a);
        lemma_plus::<X::V>(b, c);
        lemma_plus::<X::V>(ab, c);
        lemma_plus::<X::V>(a, bc);
        lemma_plus::<X::V>(a, Set::empty());
        lemma_antichain_by_support(ab, Self::plus_model(b, a));
        lemma_antichain_by_support(Self::plus_model(ab, c), Self::plus_model(a, bc));
        assert forall|e: Set<X::V>| #[trigger] supports(
            Self::plus_model(a, Set::empty()),
            e,
        ) <==> supports(a, e) by {
            assert(!supports(Set::<Set<X::V>>::empty(), e));
        }
        lemma_antichain_by_support(Self::plus_model(a, Set::empty()), a);
    }

    proof fn law_times(a: Set<Set<X::V>>, b: Set<Set<X::V>>, c: Set<Set<X::V>>) {
        let ab = Self::times_model(a, b);
        let bc = Self::times_model(b, c);
        let one = Self::one_model();
        lemma_times::<X::V>(a, b);
        lemma_times::<X::V>(b, a);
        lemma_times::<X::V>(b, c);
        lemma_times::<X::V>(ab, c);
        lemma_times::<X::V>(a, bc);
        lemma_times::<X::V>(a, one);
        lemma_antichain_by_support(ab, Self::times_model(b, a));
        lemma_antichain_by_support(Self::times_model(ab, c), Self::times_model(a, bc));
        assert forall|e: Set<X::V>| #[trigger] supports(Self::times_model(a, one), e)
            <==> supports(a, e) by {
            assert(one.contains(Set::empty()));
            assert(supports(one, e));
        }
        lemma_antichain_by_support(Self::times_model(a, one), a);
    }

    proof fn law_distributive(a: Set<Set<X::V>>, b: Set<Set<X::V>>, c: Set<Set<X::V>>) {
        let bc = Self::plus_model(b, c);
        let ab = Self::times_model(a, b);
        let ac = Self::times_model(a, c);
        lemma_plus::<X::V>(b, c);
        lemma_times::<X::V>(a, b);
        lemma_times::<X::V>(a, c);
        lemma_times::<X::V>(a, bc);
        lemma_plus::<X::V>(ab, ac);
        lemma_antichain_by_support(Self::times_model(a, bc), Self::plus_model(ab, ac));
    }

    proof fn law_zero_annihilates(a: Set<Set<X::V>>) {
        let zero = Set::<Set<X::V>>::empty();
        assert(pairwise_unions(zero, a) =~= zero);
        assert(minimal(zero) =~= zero);
    }

    fn zero() -> (r: Self) {
        Label::empty()
    }

    fn one() -> (r: Self) {
        let mut environments: Vec<Environment<X>> = Vec::new();
        let ghost none = environments@;
        let env = Environment::empty();
        proof {
            assert(family(none) =~= Set::empty());
            lemma_family_push(none, env);
        }
        environments.push(env);
        assert(family(environments@) =~= set![Set::empty()]);
        Label { environments }
    }

    fn plus(self, other: Self) -> (r: Self) {
        let mut envs: Vec<Environment<X>> = self.environments;
        let mut i: usize = 0;
        let ghost left = family(envs@);
        assert(left =~= left.union(family(other.environments@.take(0))));
        while i < other.environments.len()
            invariant
                i <= other.environments@.len(),
                family(envs@) == left.union(family(other.environments@.take(i as int))),
            decreases other.environments.len() - i,
        {
            let copy = other.environments[i].duplicate();
            proof {
                let before = other.environments@.take(i as int);
                assert(other.environments@.take(i + 1) =~= before.push(
                    other.environments@[i as int],
                ));
                lemma_family_push(before, other.environments@[i as int]);
                lemma_family_push(envs@, copy);
                assert(left.union(family(before)).insert(copy@) =~= left.union(
                    family(before).insert(copy@),
                ));
            }
            envs.push(copy);
            i += 1;
        }
        assert(other.environments@.take(i as int) =~= other.environments@);
        proof {
            lemma_plus::<X::V>(self@, other@);
        }
        Label { environments: minimize_environments(envs) }
    }

    fn times(self, other: Self) -> (r: Self) {
        proof {
            lemma_times::<X::V>(self@, other@);
        }
        self.cross_union(&other)
    }
}

/// What a sum of labels supports.
proof fn lemma_plus<V>(a: Set<Set<V>>, b: Set<Set<V>>)
    requires
        members_finite(a),
        members_finite(b),
    ensures
        members_finite(a.union(b)),
        antichain(minimal(a.union(b))),
        members_finite(minimal(a.union(b))),
        forall|e: Set<V>| #[trigger]
            supports(minimal(a.union(b)), e) <==> supports(a, e) || supports(b, e),
{
    lemma_support_union(a, b);
    lemma_minimal(a.union(b));
    assert forall|e: Set<V>| #[trigger] supports(minimal(a.union(b)), e) <==> supports(a, e)
        || supports(b, e) by {
        assert(supports(a.union(b), e) <==> supports(a, e) || supports(b, e));
    }
}

/// What a product of labels supports.
proof fn lemma_times<V>(a: Set<Set<V>>, b: Set<Set<V>>)
    requires
        members_finite(a),
        members_finite(b),
    ensures
        members_finite(pairwise_unions(a, b)),
        antichain(minimal(pairwise_unions(a, b))),
        members_finite(minimal(pairwise_unions(a, b))),
        forall|e: Set<V>| #[trigger]
            supports(minimal(pairwise_unions(a, b)), e) <==> supports(a, e) && supports(b, e),
{
    lemma_support_pairwise(a, b);
    lemma_minimal(pairwise_unions(a, b));
    assert forall|e: Set<V>| #[trigger] supports(minimal(pairwise_unions(a, b)), e) <==> supports(
        a,
        e,
    ) && supports(b, e) by {
        assert(supports(pairwise_unions(a, b), e) <==> supports(a, e) && supports(b, e));
    }
}

/// A provenance container read without knowing its shape: the atoms backing a
/// value, and whether the container is the semiring zero.
pub trait Support {
    /// The provenance atom the container holds.
    type Atom: TotalOrder;

    /// The views of the atoms across every environment.
    spec fn backing(&self) -> Set<<Self::Atom as View>::V>;

    /// Whether nothing contributed.
    spec fn is_zero_model(&self) -> bool;

    /// The atoms across every environment, ascending and without repetition.
    fn atoms(&self) -> (r: Vec<Self::Atom>)
        ensures
            ascending::<Self::Atom>(keys(r@)),
            keys(r@).to_set() == self.backing(),
    ;

    /// Whether this is the additive identity: nothing contributed.
    fn is_zero(&self) -> (r: bool)
        ensures
            r == self.is_zero_model(),
    ;
}

/// The union of a family of sets.
pub open spec fn big_union<V>(s: Set<Set<V>>) -> Set<V> {
    Set::new(|v: V| exists|e: Set<V>| #[trigger] s.contains(e) && e.contains(v))
}

impl<X: TotalOrder> Support for Label<X> {
    type Atom = X;

    open spec fn backing(&self) -> Set<X::V> {
        big_union(self@)
    }

    open spec fn is_zero_model(&self) -> bool {
        self@ == Set::<Set<X::V>>::empty()
    }

    fn atoms(&self) -> (r: Vec<X>) {
        let mut all: OrderedSet<X> = OrderedSet::new();
        let mut i: usize = 0;
        proof {
            assert(family(self.environments@.take(0)) =~= Set::empty());
            assert(all@ =~= big_union(family(self.environments@.take(0))));
        }
        while i < self.environments.len()
            invariant
                i <= self.environments@.len(),
                all@ == big_union(family(self.environments@.take(i as int))),
            decreases self.environments.len() - i,
        {
            proof {
                let before = self.environments@.take(i as int);
                let env = self.environments@[i as int];
                assert(self.environments@.take(i + 1) =~= before.push(env));
                lemma_family_push(before, env);
                lemma_big_union_insert(family(before), env@);
            }
            all = all.union(&self.environments[i].0);
            i += 1;
        }
        assert(self.environments@.take(i as int) =~= self.environments@);
        all.into_vec()
    }

    fn is_zero(&self) -> (r: bool) {
        let r = self.environments.len() == 0;
        proof {
            if r {
                assert(self@ =~= Set::<Set<X::V>>::empty());
            } else {
                assert(self@.contains(self.environments@[0]@));
            }
        }
        r
    }
}

proof fn lemma_big_union_insert<V>(s: Set<Set<V>>, e: Set<V>)
    ensures
        big_union(s.insert(e)) == big_union(s).union(e),
{
    let t = s.insert(e);
    assert forall|v: V| big_union(t).contains(v) <==> #[trigger] big_union(s).union(e).contains(
        v,
    ) by {
        if big_union(s).contains(v) {
            let f = choose|f: Set<V>| #[trigger] s.contains(f) && f.contains(v);
            assert(t.contains(f));
        }
        if e.contains(v) {
            assert(t.contains(e));
        }
        if big_union(t).contains(v) {
            let f = choose|f: Set<V>| #[trigger] t.contains(f) && f.contains(v);
            if f != e {
                assert(s.contains(f));
            }
        }
    }
    assert(big_union(t) =~= big_union(s).union(e));
}

// --- What labels support ---

/// The sum of two labels is supported by what supports either, their product by what
/// supports both; one by everything, zero by nothing.
pub proof fn law_sum_is_either_and_product_is_both<X: TotalOrder>(
    a: Set<Set<X::V>>,
    b: Set<Set<X::V>>,
    e: Set<X::V>,
)
    requires
        members_finite(a),
        members_finite(b),
    ensures
        supports(<Label<X> as Semiring>::plus_model(a, b), e) <==> (exists|f: Set<X::V>| #[trigger]
            a.contains(f) && f.subset_of(e)) || (exists|f: Set<X::V>| #[trigger]
            b.contains(f) && f.subset_of(e)),
        supports(<Label<X> as Semiring>::times_model(a, b), e) <==> (exists|f: Set<X::V>| #[trigger]
            a.contains(f) && f.subset_of(e)) && (exists|f: Set<X::V>| #[trigger]
            b.contains(f) && f.subset_of(e)),
        supports(<Label<X> as Semiring>::one_model(), e),
        !supports(<Label<X> as Semiring>::zero_model(), e),
{
    lemma_plus(a, b);
    lemma_times(a, b);
    assert(supports(a, e) <==> exists|f: Set<X::V>| #[trigger] a.contains(f) && f.subset_of(e));
    assert(supports(b, e) <==> exists|f: Set<X::V>| #[trigger] b.contains(f) && f.subset_of(e));
    assert(supports(<Label<X> as Semiring>::plus_model(a, b), e) <==> supports(a, e) || supports(
        b,
        e,
    ));
    assert(supports(<Label<X> as Semiring>::times_model(a, b), e) <==> supports(a, e) && supports(
        b,
        e,
    ));
    let one = <Label<X> as Semiring>::one_model();
    assert(one.contains(Set::<X::V>::empty()));
}

/// No set of a label holds another, so a label has no premise to spare.
pub proof fn law_labels_have_nothing_to_spare<X: TotalOrder>(
    a: Set<Set<X::V>>,
    b: Set<Set<X::V>>,
    e: Set<X::V>,
    f: Set<X::V>,
)
    requires
        members_finite(a),
        members_finite(b),
        <Label<X> as Semiring>::plus_model(a, b).contains(e),
        <Label<X> as Semiring>::plus_model(a, b).contains(f),
        e.subset_of(f),
    ensures
        e == f,
        a.contains(e) || b.contains(e),
{
    lemma_plus(a, b);
}

/// The atoms that back a label are those of its sets.
pub proof fn law_backing_is_of_the_sets<V>(s: Set<Set<V>>, e: Set<V>, v: V)
    ensures
        s.contains(e) && e.contains(v) ==> big_union(s).contains(v),
        big_union(s).contains(v) ==> exists|f: Set<V>| #[trigger] s.contains(f) && f.contains(v),
        big_union(s.insert(e)) == big_union(s).union(e),
{
    lemma_big_union_insert(s, e);
}

/// Renaming the atoms of a label renames each of its sets, atom by atom.
pub proof fn law_renaming_goes_atom_by_atom<X: TotalOrder, Y: TotalOrder, F: Fn(X) -> Y>(
    f: F,
    s: Set<Set<X::V>>,
    env: Set<X::V>,
    x: X,
    y: Y,
)
    requires
        s.contains(env),
        env.contains(x@),
        call_ensures(f, (x,), y),
    ensures
        exists|image: Set<Y::V>| #[trigger]
            family_image::<X, Y, F>(f, s).contains(image) && image.contains(y@),
        forall|image: Set<Y::V>, w: Y::V| #[trigger]
            family_image::<X, Y, F>(f, s).contains(image) && #[trigger] image.contains(w) ==> exists|
                a: X,
                b: Y,
            | #[trigger] call_ensures(f, (a,), b) && b@ == w && big_union(s).contains(a@),
{
    let image = atom_image::<X, Y, F>(f, env);
    assert(is_atom_image::<X, Y, F>(f, env, y@));
    assert(image.contains(y@));
    assert(family_image::<X, Y, F>(f, s).contains(image));
    assert forall|image: Set<Y::V>, w: Y::V| #[trigger]
        family_image::<X, Y, F>(f, s).contains(image) && #[trigger] image.contains(w) implies exists|
        a: X,
        b: Y,
    | #[trigger] call_ensures(f, (a,), b) && b@ == w && big_union(s).contains(a@) by {
        let from = choose|from: Set<X::V>| #[trigger]
            s.contains(from) && image == atom_image::<X, Y, F>(f, from);
        assert(is_atom_image::<X, Y, F>(f, from, w));
        let (a, b) = choose|a: X, b: Y| #[trigger]
            call_ensures(f, (a,), b) && from.contains(a@) && b@ == w;
        assert(big_union(s).contains(a@));
    }
}

} // verus!
