//! Total orders, and sets kept as sorted lists.
use vstd::prelude::*;

verus! {

/// How one value stands to another in a total order.
#[derive(Debug, Clone, Copy, PartialEq, Eq, Structural)]
pub enum Standing {
    Before,
    Same,
    After,
}

/// A type whose values are told apart and ordered by their views.
pub trait TotalOrder: Sized + View + Clone {
    /// Whether `a` comes strictly before `b`.
    spec fn precedes(a: Self::V, b: Self::V) -> bool;

    /// Nothing precedes itself.
    proof fn irreflexive(a: Self::V)
        ensures
            !Self::precedes(a, a),
    ;

    /// The order is transitive.
    proof fn transitive(a: Self::V, b: Self::V, c: Self::V)
        requires
            Self::precedes(a, b),
            Self::precedes(b, c),
        ensures
            Self::precedes(a, c),
    ;

    /// Of two different views, one precedes the other.
    proof fn total(a: Self::V, b: Self::V)
        ensures
            Self::precedes(a, b) || a == b || Self::precedes(b, a),
    ;

    /// A clone has the view of the value it was made from.
    proof fn clone_keeps_view(a: Self, b: Self)
        requires
            call_ensures(Self::clone, (&a,), b),
        ensures
            a@ == b@,
    ;

    /// Compare two values.
    fn compare(&self, other: &Self) -> (r: Standing)
        ensures
            r == Standing::Before <==> Self::precedes(self@, other@),
            r == Standing::Same <==> self@ == other@,
            r == Standing::After <==> Self::precedes(other@, self@),
    ;
}

impl TotalOrder for u8 {
    open spec fn precedes(a: u8, b: u8) -> bool {
        a < b
    }

    proof fn irreflexive(a: u8) {
    }

    proof fn transitive(a: u8, b: u8, c: u8) {
    }

    proof fn total(a: u8, b: u8) {
    }

    proof fn clone_keeps_view(a: u8, b: u8) {
    }

    fn compare(&self, other: &Self) -> (r: Standing) {
        if *self < *other {
            Standing::Before
        } else if *self == *other {
            Standing::Same
        } else {
            Standing::After
        }
    }
}

impl TotalOrder for u64 {
    open spec fn precedes(a: u64, b: u64) -> bool {
        a < b
    }

    proof fn irreflexive(a: u64) {
    }

    proof fn transitive(a: u64, b: u64, c: u64) {
    }

    proof fn total(a: u64, b: u64) {
    }

    proof fn clone_keeps_view(a: u64, b: u64) {
    }

    fn compare(&self, other: &Self) -> (r: Standing) {
        if *self < *other {
            Standing::Before
        } else if *self == *other {
            Standing::Same
        } else {
            Standing::After
        }
    }
}

impl TotalOrder for usize {
    open spec fn precedes(a: usize, b: usize) -> bool {
        a < b
    }

    proof fn irreflexive(a: usize) {
    }

    proof fn transitive(a: usize, b: usize, c: usize) {
    }

    proof fn total(a: usize, b: usize) {
    }

    proof fn clone_keeps_view(a: usize, b: usize) {
    }

    fn compare(&self, other: &Self) -> (r: Standing) {
        if *self < *other {
            Standing::Before
        } else if *self == *other {
            Standing::Same
        } else {
            Standing::After
        }
    }
}

/// The views of a list.
pub open spec fn keys<X: View>(s: Seq<X>) -> Seq<X::V> {
    s.map_values(|x: X| x@)
}

/// The views ascend strictly.
pub open spec fn ascending<X: TotalOrder>(s: Seq<X::V>) -> bool {
    forall|i: int, j: int| 0 <= i < j < s.len() ==> X::precedes(#[trigger] s[i], #[trigger] s[j])
}

/// A set of values, kept as a strictly ascending list.
#[derive(Debug, PartialEq, Eq)]
pub struct OrderedSet<X: TotalOrder> {
    items: Vec<X>,
}

impl<X: TotalOrder> View for OrderedSet<X> {
    type V = Set<X::V>;

    open spec fn view(&self) -> Set<X::V> {
        self.list().to_set()
    }
}

/// An ascending list has no repetitions.
pub proof fn lemma_ascending_distinct<X: TotalOrder>(s: Seq<X::V>)
    requires
        ascending::<X>(s),
    ensures
        s.no_duplicates(),
        s.to_set().finite(),
        s.to_set().len() == s.len(),
{
    assert forall|i: int, j: int| 0 <= i < s.len() && 0 <= j < s.len() && i != j implies s[i]
        != s[j] by {
        X::irreflexive(s[i]);
        if i < j {
            assert(X::precedes(s[i], s[j]));
        } else {
            assert(X::precedes(s[j], s[i]));
        }
    }
    s.unique_seq_to_set();
}

/// A set has one ascending list.
pub proof fn lemma_ascending_unique<X: TotalOrder>(a: Seq<X::V>, b: Seq<X::V>)
    requires
        ascending::<X>(a),
        ascending::<X>(b),
        forall|v: X::V| a.contains(v) <==> b.contains(v),
    ensures
        a == b,
    decreases a.len(),
{
    lemma_ascending_distinct::<X>(a);
    lemma_ascending_distinct::<X>(b);
    assert(a.to_set() =~= b.to_set());
    if a.len() > 0 {
        let x = a.last();
        let y = b.last();
        assert(b.contains(x)) by {
            assert(a.contains(x));
        }
        assert(a.contains(y)) by {
            assert(b.contains(y));
        }
        let i = b.index_of(x);
        let j = a.index_of(y);
        if x != y {
            assert(X::precedes(b[i], b[b.len() - 1]));
            assert(X::precedes(a[j], a[a.len() - 1]));
            X::transitive(x, y, x);
            X::irreflexive(x);
        }
        let p = a.drop_last();
        let q = b.drop_last();
        assert forall|v: X::V| p.contains(v) <==> q.contains(v) by {
            if p.contains(v) {
                let k = p.index_of(v);
                assert(a[k] == v);
                assert(b.contains(v));
                let m = b.index_of(v);
                assert(v != x);
                assert(q[m] == v);
            }
            if q.contains(v) {
                let k = q.index_of(v);
                assert(b[k] == v);
                assert(a.contains(v));
                let m = a.index_of(v);
                assert(v != x);
                assert(p[m] == v);
            }
        }
        lemma_ascending_unique::<X>(p, q);
        assert(a =~= p.push(x));
        assert(b =~= q.push(y));
    } else {
        assert(a =~= b);
    }
}

impl<X: TotalOrder> OrderedSet<X> {
    /// The members, ascending.
    pub closed spec fn members(&self) -> Seq<X> {
        self.items@
    }

    /// The views of the members, ascending.
    pub open spec fn list(&self) -> Seq<X::V> {
        keys(self.members())
    }

    /// The members are listed in strictly ascending order.
    #[verifier::type_invariant]
    spec fn strictly_ascending(self) -> bool {
        ascending::<X>(keys(self.items@))
    }

    /// The empty set.
    pub fn new() -> (r: Self)
        ensures
            r@ == Set::<X::V>::empty(),
            r.list() == Seq::<X::V>::empty(),
    {
        let r = OrderedSet { items: Vec::new() };
        assert(r.list() =~= Seq::<X::V>::empty());
        assert(r@ =~= Set::<X::V>::empty());
        r
    }

    /// The set with one member.
    pub fn singleton(item: X) -> (r: Self)
        ensures
            r@ == Set::<X::V>::empty().insert(item@),
            r.list() == seq![item@],
            r.members() == seq![item],
    {
        let mut items: Vec<X> = Vec::new();
        items.push(item);
        let r = OrderedSet { items };
        assert(r.members() =~= seq![item]);
        assert(r.list() =~= seq![item@]);
        assert(r@ =~= Set::<X::V>::empty().insert(item@)) by {
            assert(r.list()[0] == item@);
        }
        r
    }

    /// How many members there are.
    pub fn len(&self) -> (r: usize)
        ensures
            r == self.list().len(),
            r == self@.len(),
            self@.finite(),
    {
        proof {
            use_type_invariant(self);
            lemma_ascending_distinct::<X>(self.list());
        }
        self.items.len()
    }

    /// Whether there are no members.
    pub fn is_empty(&self) -> (r: bool)
        ensures
            r == (self@ == Set::<X::V>::empty()),
            r == (self.list().len() == 0),
    {
        let r = self.items.len() == 0;
        proof {
            if r {
                assert(self@ =~= Set::<X::V>::empty());
            } else {
                assert(self.list()[0] == self.list()[0]);
                assert(self@.contains(self.list()[0]));
            }
        }
        r
    }

    /// The members, ascending.
    pub fn as_slice(&self) -> (r: &[X])
        ensures
            r@ == self.members(),
            ascending::<X>(self.list()),
            self.list().no_duplicates(),
            self@.finite(),
    {
        proof {
            use_type_invariant(self);
            lemma_ascending_distinct::<X>(self.list());
        }
        self.items.as_slice()
    }

    /// The set of the listed values.
    pub fn from_vec(values: Vec<X>) -> (r: Self)
        ensures
            r@ == keys(values@).to_set(),
            r@.finite(),
    {
        let mut out: OrderedSet<X> = OrderedSet::new();
        let ghost all = keys(values@);
        assert(out@ =~= all.take(0).to_set());
        for value in iter: values
            invariant
                iter.seq() == values@,
                all == keys(values@),
                out@ == all.take(iter.index() as int).to_set(),
        {
            proof {
                lemma_take_to_set(all, iter.index() as int);
            }
            out.insert(value);
        }
        proof {
            assert(all.take(all.len() as int) =~= all);
            use_type_invariant(&out);
            lemma_ascending_distinct::<X>(out.list());
        }
        out
    }

    /// The members, ascending, as a list of their own.
    pub fn into_vec(self) -> (r: Vec<X>)
        ensures
            r@ == self.members(),
            ascending::<X>(keys(r@)),
            keys(r@).to_set() == self@,
    {
        proof {
            use_type_invariant(&self);
        }
        self.items
    }

    /// The number of members that precede `item`, and whether `item` is one
    /// of the members.
    fn locate(&self, item: &X) -> (r: (usize, bool))
        ensures
            r.0 <= self.items@.len(),
            forall|i: int| 0 <= i < r.0 ==> X::precedes(#[trigger] self.list()[i], item@),
            r.1 ==> r.0 < self.items@.len() && self.list()[r.0 as int] == item@,
            !r.1 ==> forall|i: int|
                r.0 <= i < self.items@.len() ==> X::precedes(item@, #[trigger] self.list()[i]),
            r.1 == self@.contains(item@),
    {
        proof {
            use_type_invariant(self);
        }
        let mut at: usize = 0;
        while at < self.items.len()
            invariant
                at <= self.items@.len(),
                ascending::<X>(self.list()),
                forall|i: int| 0 <= i < at ==> X::precedes(#[trigger] self.list()[i], item@),
            decreases self.items.len() - at,
        {
            match self.items[at].compare(item) {
                Standing::Before => {},
                Standing::Same => {
                    assert(self.list()[at as int] == item@);
                    return (at, true);
                },
                Standing::After => {
                    proof {
                        assert(X::precedes(item@, self.list()[at as int]));
                        assert forall|i: int| at <= i < self.items@.len() implies X::precedes(
                            item@,
                            #[trigger] self.list()[i],
                        ) by {
                            if i > at {
                                assert(X::precedes(self.list()[at as int], self.list()[i]));
                                X::transitive(item@, self.list()[at as int], self.list()[i]);
                            }
                        }
                        self.lemma_not_member(item@, at as int);
                    }
                    return (at, false);
                },
            }
            at += 1;
        }
        proof {
            self.lemma_not_member(item@, at as int);
        }
        (at, false)
    }

    /// A view that stands between two neighbours is not a member.
    proof fn lemma_not_member(&self, v: X::V, at: int)
        requires
            0 <= at <= self.list().len(),
            forall|i: int| 0 <= i < at ==> X::precedes(#[trigger] self.list()[i], v),
            forall|i: int| at <= i < self.list().len() ==> X::precedes(v, #[trigger] self.list()[i]),
        ensures
            !self@.contains(v),
    {
        if self@.contains(v) {
            let k = self.list().index_of(v);
            X::irreflexive(v);
            assert(self.list()[k] == v);
        }
    }

    /// Whether `item` is a member.
    pub fn contains(&self, item: &X) -> (r: bool)
        ensures
            r == self@.contains(item@),
    {
        self.locate(item).1
    }

    /// Add a member. Returns whether it was new; one that was there stays.
    pub fn insert(&mut self, item: X) -> (r: bool)
        ensures
            final(self)@ == old(self)@.insert(item@),
            r == !old(self)@.contains(item@),
            !r ==> *final(self) == *old(self),
    {
        let (at, found) = self.locate(&item);
        if found {
            assert(self@.insert(item@) =~= self@);
            return false;
        }
        let ghost before = self.list();
        let ghost v = item@;
        proof {
            use_type_invariant(&*self);
        }
        let mut items: Vec<X> = Vec::new();
        core::mem::swap(&mut items, &mut self.items);
        items.insert(at, item);
        proof {
            let after = keys(items@);
            assert(after =~= before.insert(at as int, v));
            assert forall|i: int, j: int| 0 <= i < j < after.len() implies X::precedes(
                #[trigger] after[i],
                #[trigger] after[j],
            ) by {
                let bi = if i < at {
                    i
                } else {
                    i - 1
                };
                let bj = if j < at {
                    j
                } else {
                    j - 1
                };
                if i != at && j != at {
                    assert(X::precedes(before[bi], before[bj]));
                }
            }
            assert forall|w: X::V| after.contains(w) <==> before.contains(w) || w == v by {
                if after.contains(w) {
                    let k = after.index_of(w);
                    if k < at {
                        assert(before[k] == w);
                    } else if k > at {
                        assert(before[k - 1] == w);
                    }
                }
                if before.contains(w) {
                    let k = before.index_of(w);
                    if k < at {
                        assert(after[k] == w);
                    } else {
                        assert(after[k + 1] == w);
                    }
                }
                assert(after[at as int] == v);
            }
            assert(after.to_set() =~= before.to_set().insert(v));
        }
        self.items = items;
        true
    }

    /// Take a member out, if it is one.
    pub fn remove(&mut self, item: &X)
        ensures
            final(self)@ == old(self)@.remove(item@),
    {
        let (at, found) = self.locate(item);
        if !found {
            assert(self@.remove(item@) =~= self@);
            return;
        }
        let ghost before = self.list();
        let ghost v = item@;
        proof {
            use_type_invariant(&*self);
        }
        let mut items: Vec<X> = Vec::new();
        core::mem::swap(&mut items, &mut self.items);
        items.remove(at);
        proof {
            let after = keys(items@);
            assert(after =~= before.remove(at as int));
            assert forall|i: int, j: int| 0 <= i < j < after.len() implies X::precedes(
                #[trigger] after[i],
                #[trigger] after[j],
            ) by {
                let bi = if i < at {
                    i
                } else {
                    i + 1
                };
                let bj = if j < at {
                    j
                } else {
                    j + 1
                };
                assert(X::precedes(before[bi], before[bj]));
            }
            lemma_ascending_distinct::<X>(before);
            assert forall|w: X::V| after.contains(w) <==> before.contains(w) && w != v by {
                if after.contains(w) {
                    let k = after.index_of(w);
                    let b = if k < at {
                        k
                    } else {
                        k + 1
                    };
                    assert(before[b] == w);
                    assert(before[at as int] == v);
                }
                if before.contains(w) && w != v {
                    let k = before.index_of(w);
                    let a = if k < at {
                        k
                    } else {
                        k - 1
                    };
                    assert(after[a] == w);
                }
            }
            assert(after.to_set() =~= before.to_set().remove(v));
        }
        self.items = items;
    }

    /// A copy of the set.
    pub fn duplicate(&self) -> (r: Self)
        ensures
            r@ == self@,
            r.list() == self.list(),
            r@.finite(),
    {
        proof {
            use_type_invariant(self);
            lemma_ascending_distinct::<X>(self.list());
        }
        let mut items: Vec<X> = Vec::with_capacity(self.items.len());
        let mut i: usize = 0;
        while i < self.items.len()
            invariant
                i <= self.items@.len(),
                keys(items@) == self.list().take(i as int),
            decreases self.items.len() - i,
        {
            let copy = self.items[i].clone();
            proof {
                X::clone_keeps_view(self.items@[i as int], copy);
            }
            let ghost done = keys(items@);
            items.push(copy);
            assert(keys(items@) =~= done.push(self.list()[i as int]));
            assert(self.list().take(i + 1) =~= done.push(self.list()[i as int]));
            i += 1;
        }
        assert(self.list().take(i as int) =~= self.list());
        OrderedSet { items }
    }

    /// The union of two sets.
    pub fn union(&self, other: &Self) -> (r: Self)
        ensures
            r@ == self@.union(other@),
            r@.finite(),
    {
        let mut out = self.duplicate();
        let mut i: usize = 0;
        while i < other.items.len()
            invariant
                i <= other.items@.len(),
                out@ == self@.union(other.list().take(i as int).to_set()),
            decreases other.items.len() - i,
        {
            let copy = other.items[i].clone();
            proof {
                X::clone_keeps_view(other.items@[i as int], copy);
                lemma_take_to_set(other.list(), i as int);
            }
            out.insert(copy);
            assert(out@ =~= self@.union(other.list().take(i + 1).to_set()));
            i += 1;
        }
        proof {
            assert(other.list().take(i as int) =~= other.list());
            use_type_invariant(&out);
            lemma_ascending_distinct::<X>(out.list());
        }
        out
    }

    /// The members of `self` that are members of `other`.
    pub fn intersection(&self, other: &Self) -> (r: Self)
        ensures
            r@ == self@.intersect(other@),
            r@.finite(),
    {
        let mut out: OrderedSet<X> = OrderedSet::new();
        let mut i: usize = 0;
        assert(out@ =~= self.list().take(0).to_set().intersect(other@));
        while i < self.items.len()
            invariant
                i <= self.items@.len(),
                out@ == self.list().take(i as int).to_set().intersect(other@),
            decreases self.items.len() - i,
        {
            proof {
                lemma_take_to_set(self.list(), i as int);
            }
            if other.contains(&self.items[i]) {
                let copy = self.items[i].clone();
                proof {
                    X::clone_keeps_view(self.items@[i as int], copy);
                }
                out.insert(copy);
            }
            assert(out@ =~= self.list().take(i + 1).to_set().intersect(other@));
            i += 1;
        }
        proof {
            assert(self.list().take(i as int) =~= self.list());
            use_type_invariant(&out);
            lemma_ascending_distinct::<X>(out.list());
        }
        out
    }

    /// Whether every member is a member of `other`.
    pub fn is_subset(&self, other: &Self) -> (r: bool)
        ensures
            r == self@.subset_of(other@),
    {
        let mut i: usize = 0;
        while i < self.items.len()
            invariant
                i <= self.items@.len(),
                forall|k: int| 0 <= k < i ==> other@.contains(#[trigger] self.list()[k]),
            decreases self.items.len() - i,
        {
            if !other.contains(&self.items[i]) {
                assert(self@.contains(self.list()[i as int]));
                return false;
            }
            assert(self.list()[i as int] == self.items@[i as int]@);
            i += 1;
        }
        assert forall|v: X::V| self@.contains(v) implies other@.contains(v) by {
            let k = self.list().index_of(v);
            assert(other@.contains(self.list()[k]));
        }
        true
    }

    /// Whether two sets have the same members.
    pub fn same(&self, other: &Self) -> (r: bool)
        ensures
            r == (self@ == other@),
    {
        let r = self.is_subset(other) && other.is_subset(self);
        assert(r ==> self@ =~= other@);
        r
    }
}

impl<X: TotalOrder> Clone for OrderedSet<X> {
    fn clone(&self) -> (r: Self)
        ensures
            r@ == self@,
            r.list() == self.list(),
    {
        self.duplicate()
    }
}

/// One more element in the prefix is one more member of its set.
pub proof fn lemma_take_to_set<A>(s: Seq<A>, i: int)
    requires
        0 <= i < s.len(),
    ensures
        s.take(i + 1).to_set() == s.take(i).to_set().insert(s[i]),
{
    let a = s.take(i + 1);
    let b = s.take(i);
    assert forall|v: A| a.contains(v) <==> b.contains(v) || v == s[i] by {
        if a.contains(v) {
            let k = a.index_of(v);
            if k < i {
                assert(b[k] == v);
            }
        }
        if b.contains(v) {
            let k = b.index_of(v);
            assert(a[k] == v);
        }
        assert(a[i] == s[i]);
    }
    assert(a.to_set() =~= b.to_set().insert(s[i]));
}

} // verus!
