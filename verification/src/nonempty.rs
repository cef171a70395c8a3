//! A list that is never empty.
use vstd::prelude::*;

verus! {

/// A list with at least one element.
#[derive(Debug, Clone, PartialEq, Eq)]
pub struct NonEmptyVec<T> {
    head: T,
    tail: Vec<T>,
}

/// The error of making a [`NonEmptyVec`] from an empty list.
#[derive(Debug, Clone, Copy, PartialEq, Eq, Structural)]
pub struct EmptyVecError;

impl<T> View for NonEmptyVec<T> {
    type V = Seq<T>;

    closed spec fn view(&self) -> Seq<T> {
        seq![self.head] + self.tail@
    }
}

/// A [`NonEmptyVec`] has an element.
pub broadcast proof fn lemma_nonempty<T>(list: NonEmptyVec<T>)
    ensures
        (#[trigger] list@).len() > 0,
{
}

impl<T> NonEmptyVec<T> {
    /// The list with one element.
    pub fn singleton(item: T) -> (r: Self)
        ensures
            r@ == seq![item],
    {
        let r = NonEmptyVec { head: item, tail: Vec::new() };
        assert(r@ =~= seq![item]);
        r
    }

    /// The list itself, unless it is empty.
    pub fn try_from_vec(items: Vec<T>) -> (r: Result<Self, EmptyVecError>)
        ensures
            items@.len() == 0 ==> r == Err::<NonEmptyVec<T>, EmptyVecError>(EmptyVecError),
            items@.len() > 0 ==> r is Ok && r->Ok_0@ == items@,
    {
        let mut tail = items;
        if tail.len() == 0 {
            return Err(EmptyVecError);
        }
        let head = tail.remove(0);
        let r = NonEmptyVec { head, tail };
        assert(r@ =~= items@);
        Ok(r)
    }

    /// Append an element.
    pub fn push(&mut self, item: T)
        ensures
            final(self)@ == old(self)@.push(item),
    {
        self.tail.push(item);
        assert(self@ =~= old(self)@.push(item));
    }

    /// A copy.
    pub fn duplicate(&self) -> (r: Self) where T: Copy
        ensures
            r@ == self@,
    {
        let mut tail: Vec<T> = Vec::new();
        let mut i: usize = 0;
        while i < self.tail.len()
            invariant
                i <= self.tail@.len(),
                tail@ == self.tail@.take(i as int),
            decreases self.tail.len() - i,
        {
            tail.push(self.tail[i]);
            assert(tail@ =~= self.tail@.take(i + 1));
            i += 1;
        }
        assert(self.tail@.take(i as int) =~= self.tail@);
        NonEmptyVec { head: self.head, tail }
    }

    /// How many elements there are.
    pub fn len(&self) -> (r: usize)
        requires
            self@.len() <= usize::MAX,
        ensures
            r == self@.len(),
            r > 0,
    {
        self.tail.len() + 1
    }

    /// The first element.
    pub fn first(&self) -> (r: &T)
        ensures
            self@.len() > 0,
            *r == self@[0],
    {
        &self.head
    }

    /// The elements after the first one, in order.
    pub fn rest(&self) -> (r: &[T])
        ensures
            self@ == seq![self@[0]] + r@,
    {
        self.tail.as_slice()
    }

    /// A copy of the elements as an ordinary list.
    pub fn to_vec(&self) -> (r: Vec<T>) where T: Copy
        ensures
            r@ == self@,
    {
        let mut items: Vec<T> = Vec::new();
        items.push(self.head);
        let mut i: usize = 0;
        assert(items@ =~= seq![self.head] + self.tail@.take(0));
        while i < self.tail.len()
            invariant
                i <= self.tail@.len(),
                items@ == seq![self.head] + self.tail@.take(i as int),
            decreases self.tail.len() - i,
        {
            items.push(self.tail[i]);
            assert(items@ =~= seq![self.head] + self.tail@.take(i + 1));
            i += 1;
        }
        assert(self.tail@.take(i as int) =~= self.tail@);
        items
    }

    /// The elements as an ordinary list.
    pub fn into_vec(self) -> (r: Vec<T>)
        ensures
            r@ == self@,
    {
        let mut items = self.tail;
        items.insert(0, self.head);
        assert(items@ =~= self@);
        items
    }
}

} // verus!
