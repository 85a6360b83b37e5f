//! A contiguous growable array with an explicit, geometrically growing
//! capacity.
use vstd::prelude::*;

verus! {

/// The capacity that a full array grows to: double the old one, or one
/// slot when there was none.
pub open spec fn grown_capacity(cap: nat) -> nat {
    if cap == 0 {
        1
    } else {
        cap * 2
    }
}

/// The elements after each value of `xs` is pushed, in order, onto
/// `start`.
pub open spec fn pushed<T>(start: Seq<T>, xs: Seq<T>) -> Seq<T>
    decreases xs.len(),
{
    if xs.len() == 0 {
        start
    } else {
        pushed(start, xs.drop_last()).push(xs.last())
    }
}

/// Pushing the values `xs` one after another onto an empty vector leaves
/// `xs.len()` elements, and the one at index `i` (what `get(i)` returns) is
/// the `i`-th value pushed.
pub proof fn lemma_pushes_in_order<T>(xs: Seq<T>)
    ensures
        pushed(Seq::<T>::empty(), xs).len() == xs.len(),
        forall|i: int| 0 <= i < xs.len() ==> #[trigger] pushed(Seq::<T>::empty(), xs)[i] == xs[i],
    decreases xs.len(),
{
    if xs.len() > 0 {
        lemma_pushes_in_order(xs.drop_last());
        assert(pushed(Seq::<T>::empty(), xs) =~= xs);
    }
}

/// Pushing a value and popping straight after hands back that value and
/// leaves the elements, and so the length, as they were.
pub proof fn lemma_push_pop<T>(s: Seq<T>, x: T)
    ensures
        s.push(x).len() > 0,
        s.push(x).last() == x,
        s.push(x).drop_last() == s,
{
    assert(s.push(x).drop_last() =~= s);
}

/// A contiguous growable array.
///
/// Slots `[0, len)` hold the elements; `capacity` is the number of slots
/// reserved, never less than the length.
pub struct Vector<T> {
    data: Vec<T>,
    cap: usize,
}

impl<T> View for Vector<T> {
    type V = Seq<T>;

    closed spec fn view(&self) -> Seq<T> {
        self.data@
    }
}

impl<T> Vector<T> {
    /// The number of reserved slots.
    pub closed spec fn spec_capacity(&self) -> nat {
        self.cap as nat
    }

    /// The length never exceeds the capacity.
    pub closed spec fn wf(&self) -> bool {
        self.data@.len() <= self.cap
    }

    /// Creates an empty vector with no reserved slots.
    pub fn new() -> (r: Self)
        ensures
            r.wf(),
            r@ == Seq::<T>::empty(),
            r.spec_capacity() == 0,
    {
        Vector { data: Vec::new(), cap: 0 }
    }

    /// Creates an empty vector with exactly `capacity` reserved slots.
    pub fn with_capacity(capacity: usize) -> (r: Self)
        ensures
            r.wf(),
            r@ == Seq::<T>::empty(),
            r.spec_capacity() == capacity,
    {
        if capacity == 0 {
            return Self::new();
        }
        Vector { data: Vec::with_capacity(capacity), cap: capacity }
    }

    /// Returns the number of elements.
    pub fn len(&self) -> (r: usize)
        ensures
            r == self@.len(),
    {
        self.data.len()
    }

    /// Returns whether the vector holds no element.
    pub fn is_empty(&self) -> (r: bool)
        ensures
            r == (self@.len() == 0),
    {
        self.data.len() == 0
    }

    /// Returns the number of reserved slots.
    pub fn capacity(&self) -> (r: usize)
        ensures
            r == self.spec_capacity(),
    {
        self.cap
    }

    /// Doubles the capacity (or reserves one slot when there is none).
    fn grow(&mut self)
        requires
            old(self).wf(),
            grown_capacity(old(self).spec_capacity()) <= usize::MAX,
        ensures
            final(self).wf(),
            final(self)@ == old(self)@,
            final(self).spec_capacity() == grown_capacity(old(self).spec_capacity()),
    {
        let new_cap: usize = if self.cap == 0 {
            1
        } else {
            self.cap * 2
        };
        let additional: usize = new_cap - self.data.len();
        self.data.reserve(additional);
        self.cap = new_cap;
    }

    /// Appends `value` at the end, growing first when every slot is taken.
    pub fn push(&mut self, value: T)
        requires
            old(self).wf(),
            old(self)@.len() < old(self).spec_capacity()
                || grown_capacity(old(self).spec_capacity()) <= usize::MAX,
        ensures
            final(self).wf(),
            final(self)@ == old(self)@.push(value),
            old(self)@.len() < old(self).spec_capacity() ==> final(self).spec_capacity()
                == old(self).spec_capacity(),
            old(self)@.len() == old(self).spec_capacity() ==> final(self).spec_capacity()
                == grown_capacity(old(self).spec_capacity()),
    {
        if self.data.len() == self.cap {
            self.grow();
        }
        self.data.push(value);
    }

    /// Removes the last element and returns it, or `None` when empty.
    pub fn pop(&mut self) -> (r: Option<T>)
        requires
            old(self).wf(),
        ensures
            final(self).wf(),
            final(self).spec_capacity() == old(self).spec_capacity(),
            old(self)@.len() == 0 ==> r is None && final(self)@ == old(self)@,
            old(self)@.len() > 0 ==> r == Some(old(self)@.last()) && final(self)@
                == old(self)@.drop_last(),
    {
        self.data.pop()
    }

    /// Returns a reference to the element at `index`, or `None` when
    /// `index` is not below the length.
    pub fn get(&self, index: usize) -> (r: Option<&T>)
        ensures
            index < self@.len() ==> r == Some(&self@[index as int]),
            index >= self@.len() ==> r is None,
    {
        if index >= self.data.len() {
            None
        } else {
            Some(&self.data[index])
        }
    }

    /// Returns a mutable reference to the element at `index`, or `None`
    /// when `index` is not below the length.
    pub fn get_mut(&mut self, index: usize) -> (r: Option<&mut T>)
        requires
            old(self).wf(),
        ensures
            final(self).wf(),
            index < old(self)@.len() ==> r is Some && *r.unwrap() == old(self)@[index as int]
                && final(self)@ == old(self)@.update(index as int, *final(r.unwrap())),
            index >= old(self)@.len() ==> r is None && final(self)@ == old(self)@,
            final(self).spec_capacity() == old(self).spec_capacity(),
    {
        if index >= self.data.len() {
            None
        } else {
            Some(&mut self.data[index])
        }
    }

    /// Returns the elements as a slice of exactly `len` items.
    pub fn as_slice(&self) -> (r: &[T])
        ensures
            r@ == self@,
    {
        self.data.as_slice()
    }

    /// Takes the vector apart into its buffer, its length and its capacity.
    pub fn into_raw_parts(self) -> (r: (Vec<T>, usize, usize))
        requires
            self.wf(),
        ensures
            r.0@ == self@,
            r.1 == self@.len(),
            r.2 == self.spec_capacity(),
            r.1 <= r.2,
    {
        let len: usize = self.data.len();
        let cap: usize = self.cap;
        (self.data, len, cap)
    }

    /// Rebuilds a vector from a buffer, its length and a capacity no smaller
    /// than that length.
    pub fn from_raw_parts(buf: Vec<T>, len: usize, capacity: usize) -> (r: Self)
        requires
            len == buf@.len(),
            len <= capacity,
        ensures
            r.wf(),
            r@ == buf@,
            r.spec_capacity() == capacity,
    {
        let mut data = buf;
        data.reserve(capacity - len);
        Vector { data, cap: capacity }
    }
}

impl<T> Default for Vector<T> {
    /// An empty vector with no reserved slots.
    fn default() -> (r: Self)
        ensures
            r.wf(),
            r@ == Seq::<T>::empty(),
            r.spec_capacity() == 0,
    {
        Self::new()
    }
}

impl<T> std::ops::Deref for Vector<T> {
    type Target = [T];

    /// The elements as a slice of exactly `len` items.
    fn deref(&self) -> (r: &[T])
        ensures
            r@ == self@,
    {
        self.data.as_slice()
    }
}

impl<T> std::ops::Index<usize> for Vector<T> {
    type Output = T;

    /// Indexing past the length is a contract violation.
    fn index(&self, index: usize) -> (r: &T)
        ensures
            *r == self@[index as int],
    {
        &self.data[index]
    }
}

impl<T> vstd::std_specs::core::IndexSpecImpl<usize> for Vector<T> {
    open spec fn index_req(&self, index: &usize) -> bool {
        *index < self@.len()
    }
}

impl<T: Clone> Clone for Vector<T> {
    /// Copies every element into a fresh vector of the same capacity.
    fn clone(&self) -> (r: Self)
        ensures
            r@.len() == self@.len(),
            r.spec_capacity() == self.spec_capacity(),
            self.wf() ==> r.wf(),
            forall|i: int| 0 <= i < self@.len() ==> cloned::<T>(self@[i], #[trigger] r@[i]),
    {
        let mut data: Vec<T> = Vec::with_capacity(self.cap);
        let n: usize = self.data.len();
        let mut i: usize = 0;
        while i < n
            invariant
                n == self@.len(),
                i <= n,
                data@.len() == i,
                forall|j: int| 0 <= j < i ==> cloned::<T>(self@[j], #[trigger] data@[j]),
            decreases n - i,
        {
            data.push(self.data[i].clone());
            i = i + 1;
        }
        Vector { data, cap: self.cap }
    }
}

} // verus!
