//! A singly linked list.
//!
//! Elements are appended at the tail and popped from the tail, and every
//! operation is defined by recursion on the links.

use vstd::prelude::*;

verus! {

struct Node<T> {
    value: T,
    next: Option<Box<Node<T>>>,
}

/// A singly linked list of `T`.
pub struct LinkedList<T> {
    head: Option<Box<Node<T>>>,
    length: usize,
}

/// The elements hanging off a link, front to back.
spec fn spec_list<T>(n: Option<Box<Node<T>>>) -> Seq<T>
    decreases n,
{
    match n {
        None => Seq::empty(),
        Some(b) => seq![b.value] + spec_list(b.next),
    }
}

/// Appends `value` at the end of the chain.
fn push_node<T>(n: &mut Option<Box<Node<T>>>, value: T)
    ensures
        spec_list(*final(n)) == spec_list(*old(n)).push(value),
    decreases *old(n),
{
    match n {
        None => {
            *n = Some(Box::new(Node { value, next: None }));
            proof {
                assert(spec_list(*final(n)) =~= spec_list(*old(n)).push(value));
            }
        },
        Some(b) => {
            push_node(&mut b.next, value);
            proof {
                assert(spec_list(*final(n)) =~= spec_list(*old(n)).push(value));
            }
        },
    }
}

/// Removes and returns the last element of a non-empty chain.
fn pop_node<T>(n: &mut Option<Box<Node<T>>>) -> (r: T)
    requires
        *old(n) is Some,
    ensures
        spec_list(*final(n)) == spec_list(*old(n)).drop_last(),
        r == spec_list(*old(n)).last(),
    decreases *old(n),
{
    let node_has_next = match n {
        Some(b) => b.next.is_some(),
        None => vstd::pervasive::unreached(),
    };
    if node_has_next {
        let r = match n {
            Some(b) => pop_node(&mut b.next),
            None => vstd::pervasive::unreached(),
        };
        proof {
            assert(spec_list(*final(n)) =~= spec_list(*old(n)).drop_last());
        }
        r
    } else {
        let taken = n.take();
        proof {
            assert(spec_list(*final(n)) =~= spec_list(*old(n)).drop_last());
        }
        match taken {
            Some(b) => {
                let node = *b;
                node.value
            },
            None => vstd::pervasive::unreached(),
        }
    }
}

/// The element at `index` of the chain.
fn get_node<'a, T>(n: &'a Option<Box<Node<T>>>, index: usize) -> (r: &'a T)
    requires
        index < spec_list(*n).len(),
    ensures
        *r == spec_list(*n)[index as int],
    decreases *n,
{
    match n {
        Some(b) => {
            if index == 0 {
                &b.value
            } else {
                get_node(&b.next, index - 1)
            }
        },
        None => vstd::pervasive::unreached(),
    }
}

/// A mutable borrow of the element at `index` of the chain; what the
/// caller writes through it stands in the chain.
fn get_mut_node<'a, T>(n: &'a mut Option<Box<Node<T>>>, index: usize) -> (r: &'a mut T)
    requires
        index < spec_list(*old(n)).len(),
    ensures
        *r == spec_list(*old(n))[index as int],
        spec_list(*final(n)) == spec_list(*old(n)).update(index as int, *final(r)),
    decreases *old(n),
{
    match n {
        Some(b) => {
            if index == 0 {
                &mut b.value
            } else {
                get_mut_node(&mut b.next, index - 1)
            }
        },
        None => vstd::pervasive::unreached(),
    }
}

/// Replaces the element at `index` of the chain, returning the old one.
fn set_node<T>(n: &mut Option<Box<Node<T>>>, index: usize, value: T) -> (r: T)
    requires
        index < spec_list(*old(n)).len(),
    ensures
        r == spec_list(*old(n))[index as int],
        spec_list(*final(n)) == spec_list(*old(n)).update(index as int, value),
    decreases *old(n),
{
    match n {
        Some(b) => {
            if index == 0 {
                let mut v = value;
                core::mem::swap(&mut b.value, &mut v);
                proof {
                    assert(spec_list(*final(n)) =~= spec_list(*old(n)).update(
                        index as int,
                        value,
                    ));
                }
                v
            } else {
                let r = set_node(&mut b.next, index - 1, value);
                proof {
                    assert(spec_list(*final(n)) =~= spec_list(*old(n)).update(
                        index as int,
                        value,
                    ));
                }
                r
            }
        },
        None => vstd::pervasive::unreached(),
    }
}

impl<T> LinkedList<T> {
    /// The length field counts the links.
    pub closed spec fn wf(&self) -> bool {
        self.length == spec_list(self.head).len()
    }

    /// The elements, front to back.
    pub closed spec fn view(&self) -> Seq<T> {
        spec_list(self.head)
    }

    /// An empty list.
    pub fn new() -> (l: LinkedList<T>)
        ensures
            l.wf(),
            l@ == Seq::<T>::empty(),
    {
        LinkedList { head: None, length: 0 }
    }

    /// How many elements the list holds.
    pub fn length(&self) -> (n: usize)
        requires
            self.wf(),
        ensures
            n == self@.len(),
    {
        self.length
    }

    /// Appends one element at the end.
    pub fn push(&mut self, value: T)
        requires
            old(self).wf(),
            old(self)@.len() < usize::MAX,
        ensures
            final(self).wf(),
            final(self)@ == old(self)@.push(value),
    {
        push_node(&mut self.head, value);
        self.length += 1;
    }

    /// Removes and returns the last element, if any.
    pub fn pop(&mut self) -> (r: Option<T>)
        requires
            old(self).wf(),
        ensures
            final(self).wf(),
            old(self)@.len() == 0 ==> r is None && final(self)@ == old(self)@,
            old(self)@.len() > 0 ==> (match r {
                Some(v) => v == old(self)@.last(),
                None => false,
            }) && final(self)@ == old(self)@.drop_last(),
    {
        if self.head.is_none() {
            return None;
        }
        let v = pop_node(&mut self.head);
        self.length -= 1;
        Some(v)
    }

    /// The element at `index`, or `None` past the end.
    pub fn get(&self, index: usize) -> (r: Option<&T>)
        requires
            self.wf(),
        ensures
            match r {
                Some(v) => index < self@.len() && *v == self@[index as int],
                None => index >= self@.len(),
            },
    {
        if index >= self.length {
            return None;
        }
        Some(get_node(&self.head, index))
    }

    /// A mutable borrow of the element at `index`, or `None` past the end;
    /// what the caller writes through it stands in the list.
    pub fn get_mut(&mut self, index: usize) -> (r: Option<&mut T>)
        requires
            old(self).wf(),
        ensures
            match r {
                Some(v) => index < old(self)@.len() && *v == old(self)@[index as int] && final(self)@ == old(self)@.update(index as int, *final(v)) && final(self).wf(),
                None => index >= old(self)@.len() && *final(self) == *old(self) && final(self).wf(),
            },
    {
        if index >= self.length {
            return None;
        }
        Some(get_mut_node(&mut self.head, index))
    }

    /// Replaces the element at `index`, returning the old one, or `None`
    /// past the end.
    pub fn set(&mut self, index: usize, value: T) -> (r: Option<T>)
        requires
            old(self).wf(),
        ensures
            final(self).wf(),
            match r {
                Some(v) => index < old(self)@.len() && v == old(self)@[index as int] && final(self)@ == old(self)@.update(index as int, value),
                None => index >= old(self)@.len() && final(self)@ == old(self)@,
            },
    {
        if index >= self.length {
            return None;
        }
        Some(set_node(&mut self.head, index, value))
    }
}

/// A cursor over a list's elements, front to back.
pub struct LinkedListIter<'a, T> {
    current: Option<&'a Box<Node<T>>>,
}

/// The elements still to be walked.
spec fn spec_iter_rest<'a, T>(it: LinkedListIter<'a, T>) -> Seq<T> {
    match it.current {
        None => Seq::empty(),
        Some(b) => seq![b.value] + spec_list(b.next),
    }
}

impl<T> LinkedList<T> {
    /// A cursor over the elements, starting at the front.
    pub fn iter(&self) -> (it: LinkedListIter<'_, T>)
        requires
            self.wf(),
        ensures
            it.spec_rest() == self@,
    {
        let it = LinkedListIter { current: self.head.as_ref() };
        proof {
            assert(spec_iter_rest(it) =~= spec_list(self.head));
        }
        it
    }
}

impl<'a, T> LinkedListIter<'a, T> {
    /// The elements still to be walked.
    pub closed spec fn spec_rest(&self) -> Seq<T> {
        spec_iter_rest(*self)
    }

    /// The next element, or `None` when the walk is over.
    pub fn next(&mut self) -> (r: Option<&'a T>)
        ensures
            match r {
                Some(v) => old(self).spec_rest().len() > 0 && *v == old(self).spec_rest()[0]
                    && final(self).spec_rest() == old(self).spec_rest().drop_first(),
                None => old(self).spec_rest().len() == 0 && final(self).spec_rest() == old(self).spec_rest(),
            },
    {
        match self.current {
            None => None,
            Some(node) => {
                self.current = node.next.as_ref();
                proof {
                    assert(final(self).spec_rest() =~= old(self).spec_rest().drop_first());
                }
                Some(&node.value)
            },
        }
    }
}

} // verus!
