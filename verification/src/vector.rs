//! A growable array with explicit capacity management.
//!
//! The buffer always holds exactly `capacity` slots; the first `length` of
//! them hold the elements.  Pushing into a full vector doubles the
//! capacity; shrinking to a quarter of the capacity halves it, never below
//! the default capacity of 4.

use vstd::prelude::*;

verus! {

/// The default (and minimum) capacity.
pub const DEFAULT_CAPACITY: usize = 4;

/// A growable array of `T`.
pub struct Vector<T> {
    data: Vec<Option<T>>,
    length: usize,
    capacity: usize,
}

/// How one resize step changes the capacity for a given length: a full
/// buffer doubles, a quarter-full one (above the default) halves, anything
/// else keeps its capacity.
pub open spec fn spec_resized_cap(length: int, cap: int) -> int {
    if length == cap {
        2 * cap
    } else if length == cap / 4 && cap > DEFAULT_CAPACITY as int {
        cap / 2
    } else {
        cap
    }
}

/// A reachable capacity: the default, doubled any number of times.
pub open spec fn spec_is_cap(c: int) -> bool
    decreases c,
{
    if c == DEFAULT_CAPACITY as int {
        true
    } else if c > DEFAULT_CAPACITY as int && c % 2 == 0 {
        spec_is_cap(c / 2)
    } else {
        false
    }
}

/// Every reachable capacity is at least the default, and halving one above
/// the default reaches another.
proof fn lemma_cap_props(c: int)
    requires
        spec_is_cap(c),
    ensures
        c >= DEFAULT_CAPACITY as int,
        c > DEFAULT_CAPACITY as int ==> c % 2 == 0 && spec_is_cap(c / 2) && c / 2
            >= DEFAULT_CAPACITY as int,
    decreases c,
{
    if c != DEFAULT_CAPACITY as int {
        lemma_cap_props(c / 2);
    }
}

impl<T> Vector<T> {
    /// The buffer is exactly `capacity` slots, the first `length` of them
    /// full, the capacity a doubling of the default, and the length never
    /// beyond the capacity.
    pub closed spec fn wf(&self) -> bool {
        &&& self.data@.len() == self.capacity
        &&& self.length <= self.capacity
        &&& spec_is_cap(self.capacity as int)
        &&& forall|i: int| 0 <= i < self.length ==> self.data@[i] is Some
    }

    /// The elements, in order.
    pub closed spec fn view(&self) -> Seq<T> {
        Seq::new(self.length as nat, |i: int| self.data@[i]->0)
    }

    /// The current capacity, as the model sees it.
    pub closed spec fn spec_capacity(&self) -> int {
        self.capacity as int
    }

    /// An empty vector at the default capacity.
    pub fn new() -> (v: Vector<T>)
        ensures
            v.wf(),
            v@ == Seq::<T>::empty(),
            v.spec_capacity() == DEFAULT_CAPACITY as int,
    {
        let v = Vector { data: Self::allocate_buffer(DEFAULT_CAPACITY), length: 0, capacity: DEFAULT_CAPACITY };
        proof {
            assert(v@ =~= Seq::<T>::empty());
        }
        v
    }

    /// How many elements the vector holds.
    pub fn length(&self) -> (n: usize)
        requires
            self.wf(),
        ensures
            n == self@.len(),
    {
        self.length
    }

    /// How many slots the buffer holds.
    pub fn capacity(&self) -> (n: usize)
        requires
            self.wf(),
        ensures
            n == self.spec_capacity(),
    {
        self.capacity
    }

    /// Appends one element at the end, doubling the capacity when the
    /// buffer was full.
    pub fn push(&mut self, value: T)
        requires
            old(self).wf(),
            old(self).spec_capacity() * 2 <= usize::MAX,
        ensures
            final(self).wf(),
            final(self)@ == old(self)@.push(value),
            final(self).spec_capacity() == spec_resized_cap(
                old(self)@.len() as int,
                old(self).spec_capacity(),
            ),
    {
        let ghost pre = self@;
        self.resize();
        let n = self.length;
        let slot = &mut self.data[n];
        *slot = Some(value);
        self.length += 1;
        proof {
            assert(self@ =~= pre.push(value));
        }
    }

    /// Removes and returns the last element, if any, halving the capacity
    /// when only a quarter of it stays in use (never below the default).
    pub fn pop(&mut self) -> (r: Option<T>)
        requires
            old(self).wf(),
        ensures
            final(self).wf(),
            old(self)@.len() == 0 ==> r is None && final(self)@ == old(self)@ && final(self).spec_capacity() == old(self).spec_capacity(),
            old(self)@.len() > 0 ==> (match r {
                Some(v) => v == old(self)@.last(),
                None => false,
            }) && final(self)@ == old(self)@.drop_last() && final(self).spec_capacity()
                == spec_resized_cap(old(self)@.len() - 1, old(self).spec_capacity()),
    {
        if self.length == 0 {
            return None;
        }
        let ghost pre = self@;
        self.length -= 1;
        let n = self.length;
        let slot = &mut self.data[n];
        let value = slot.take();
        proof {
            assert(self@ =~= pre.drop_last());
        }
        self.resize();
        value
    }

    /// The element at `index`, or `None` past the end.
    pub fn get(&self, index: usize) -> (r: Option<&T>)
        requires
            self.wf(),
        ensures
            match r {
                Some(v) => index < self@.len() && *v == self@[index as int],
                None => index >= self@.len(),
            },
    {
        if index >= self.length {
            return None;
        }
        self.data[index].as_ref()
    }

    /// A mutable borrow of the element at `index`, or `None` past the end;
    /// whatever the caller writes through it stands in the vector.
    pub fn get_mut(&mut self, index: usize) -> (r: Option<&mut T>)
        requires
            old(self).wf(),
        ensures
            match r {
                Some(v) => index < old(self)@.len() && *v == old(self)@[index as int] && final(self)@ == old(self)@.update(index as int, *final(v)) && final(self).wf() && final(self).spec_capacity() == old(self).spec_capacity(),
                None => index >= old(self)@.len() && *final(self) == *old(self) && final(self).wf(),
            },
    {
        if index >= self.length {
            return None;
        }
        let slot = &mut self.data[index];
        slot.as_mut()
    }

    /// Replaces the element at `index`, returning the old one, or `None`
    /// past the end.
    pub fn set(&mut self, index: usize, value: T) -> (r: Option<T>)
        requires
            old(self).wf(),
        ensures
            final(self).wf(),
            final(self).spec_capacity() == old(self).spec_capacity(),
            match r {
                Some(v) => index < old(self)@.len() && v == old(self)@[index as int] && final(self)@ == old(self)@.update(index as int, value),
                None => index >= old(self)@.len() && final(self)@ == old(self)@,
            },
    {
        if index >= self.length {
            return None;
        }
        let ghost pre = self@;
        let slot = &mut self.data[index];
        let prev = slot.take();
        *slot = Some(value);
        proof {
            assert(self@ =~= pre.update(index as int, value));
        }
        match prev {
            Some(v) => Some(v),
            None => vstd::pervasive::unreached(),
        }
    }

    /// Inserts an element at `index`, shifting the rest one slot right.
    /// The index must not pass the end.
    #[verifier::loop_isolation(false)]
    pub fn insert(&mut self, index: usize, value: T)
        requires
            old(self).wf(),
            index <= old(self)@.len(),
            old(self).spec_capacity() * 2 <= usize::MAX,
        ensures
            final(self).wf(),
            final(self)@ == old(self)@.insert(index as int, value),
    {
        let ghost pre = self@;
        self.resize();
        let ghost cap = self.capacity;
        let mut i = self.length;
        while i > index
            invariant
                index <= i <= self.length,
                self.length < self.capacity,
                self.length == pre.len(),
                self.capacity == cap,
                self.data@.len() == self.capacity,
                DEFAULT_CAPACITY <= self.capacity,
                forall|j: int|
                    0 <= j < i ==> (#[trigger] self.data@[j]) is Some && self.data@[j]->0
                        == pre[j],
                forall|j: int|
                    i < j <= self.length ==> (#[trigger] self.data@[j]) is Some && self.data@[
                        j
                    ]->0 == pre[j - 1],
            decreases i,
        {
            i -= 1;
            let ghost data_en = self.data@;
            let moved = {
                let slot = &mut self.data[i];
                slot.take()
            };
            let dst = &mut self.data[i + 1];
            *dst = moved;
            proof {
                assert forall|j: int| 0 <= j < i implies self.data@[j] is Some && self.data@[j]->0
                    == pre[j] by {
                    assert(self.data@[j] == data_en[j]);
                }
                assert forall|j: int| i < j <= self.length implies self.data@[j] is Some
                    && self.data@[j]->0 == pre[j - 1] by {
                    if j == i + 1 {
                        assert(self.data@[j] == data_en[i as int]);
                        assert(data_en[i as int] is Some && data_en[i as int]->0 == pre[i as int]);
                    } else {
                        assert(self.data@[j] == data_en[j]);
                    }
                }
            }
        }
        let slot = &mut self.data[index];
        *slot = Some(value);
        self.length += 1;
        proof {
            assert(self@ =~= pre.insert(index as int, value));
        }
    }

    /// One resize step: doubles a full buffer, halves a quarter-used one
    /// (never below the default), and reallocates.
    fn resize(&mut self)
        requires
            old(self).wf(),
            old(self)@.len() == old(self).spec_capacity() ==> old(self).spec_capacity() * 2
                <= usize::MAX,
        ensures
            final(self).wf(),
            final(self)@ == old(self)@,
            final(self).spec_capacity() == spec_resized_cap(
                old(self)@.len() as int,
                old(self).spec_capacity(),
            ),
            final(self)@.len() < final(self).spec_capacity(),
    {
        proof {
            lemma_cap_props(self.capacity as int);
        }
        if self.length == self.capacity {
            self.capacity = self.capacity * 2;
            proof {
                assert(spec_is_cap(self.capacity as int));
            }
        } else if self.length == self.capacity / 4 && self.capacity > DEFAULT_CAPACITY {
            self.capacity = self.capacity / 2;
        }
        self.reallocate()
    }

    /// Copies the elements into a fresh buffer of the current capacity.
    #[verifier::loop_isolation(false)]
    fn reallocate(&mut self)
        requires
            old(self).length < old(self).capacity,
            old(self).data@.len() >= old(self).length,
            spec_is_cap(old(self).capacity as int),
            forall|i: int| 0 <= i < old(self).length ==> old(self).data@[i] is Some,
        ensures
            final(self).wf(),
            final(self)@ == old(self)@,
            final(self).length == old(self).length,
            final(self).capacity == old(self).capacity,
            final(self)@.len() < final(self).spec_capacity(),
    {
        let ghost pre = self@;
        let mut new_data: Vec<Option<T>> = Self::allocate_buffer(self.capacity);
        let mut i: usize = 0;
        while i < self.length
            invariant
                i <= self.length,
                new_data@.len() == self.capacity,
                self.length == old(self).length,
                self.capacity == old(self).capacity,
                self.data@.len() == old(self).data@.len(),
                forall|j: int|
                    i <= j < self.length ==> self.data@[j] == old(self).data@[j]
                        && self.data@[j] is Some,
                forall|j: int| 0 <= j < i ==> new_data@[j] == old(self).data@[j],
            decreases self.length - i,
        {
            let moved = {
                let slot = &mut self.data[i];
                slot.take()
            };
            let dst = &mut new_data[i];
            *dst = moved;
            i += 1;
        }
        self.data = new_data;
        proof {
            assert(self@ =~= pre);
        }
    }

    /// A buffer of `capacity` empty slots.
    fn allocate_buffer(capacity: usize) -> (buf: Vec<Option<T>>)
        ensures
            buf@.len() == capacity,
            forall|i: int| 0 <= i < capacity ==> buf@[i] is None,
    {
        let mut buf: Vec<Option<T>> = Vec::new();
        let mut i: usize = 0;
        while i < capacity
            invariant
                i <= capacity,
                buf@.len() == i,
                forall|j: int| 0 <= j < i ==> buf@[j] is None,
            decreases capacity - i,
        {
            buf.push(None);
            i += 1;
        }
        buf
    }
}

/// A cursor over a vector's elements, front to back.
pub struct VectorIter<'a, T> {
    vector: &'a Vector<T>,
    index: usize,
}

impl<T> Vector<T> {
    /// A cursor over the elements, starting at the front.
    pub fn iter(&self) -> (it: VectorIter<'_, T>)
        requires
            self.wf(),
        ensures
            it.vector_of() == self,
            it.spec_index() == 0,
    {
        VectorIter { vector: self, index: 0 }
    }
}

impl<'a, T> VectorIter<'a, T> {
    /// The vector being walked.
    pub closed spec fn vector_of(&self) -> &'a Vector<T> {
        self.vector
    }

    /// The cursor position.
    pub closed spec fn spec_index(&self) -> int {
        self.index as int
    }

    /// The next element, or `None` when the walk is over.
    pub fn next(&mut self) -> (r: Option<&'a T>)
        requires
            old(self).vector_of().wf(),
        ensures
            final(self).vector_of() == old(self).vector_of(),
            match r {
                Some(v) => old(self).spec_index() < old(self).vector_of()@.len() && *v == old(
                    self,
                ).vector_of()@[old(self).spec_index()] && final(self).spec_index() == old(
                    self,
                ).spec_index() + 1,
                None => old(self).spec_index() >= old(self).vector_of()@.len() && final(self).spec_index() == old(self).spec_index(),
            },
    {
        let r = self.vector.get(self.index);
        if r.is_some() {
            self.index += 1;
        }
        r
    }
}

} // verus!
