//! A safe doubly-linked list: nodes live in a growable arena and link to
//! their neighbours by arena index, so identity is a stable handle rather
//! than a memory address. New elements are pushed at the head; iteration
//! starts at the head and follows the `next` links, so it yields the
//! elements newest first.

use vstd::prelude::*;

verus! {

/// One node of the list: the element it carries and the arena indices of
/// its neighbours. `next` leads away from the head (towards older
/// elements), `prev` towards it.
pub struct Node<T> {
    prev: Option<usize>,
    next: Option<usize>,
    data: T,
}

/// The list: an arena of nodes plus the indices of the head (the newest
/// element) and the tail (the oldest). Element `k` of the view is the
/// `k`-th element reached from the head along the `next` links.
pub struct List<T> {
    nodes: Vec<Node<T>>,
    head: Option<usize>,
    tail: Option<usize>,
}

impl<T> View for List<T> {
    type V = Seq<T>;

    closed spec fn view(&self) -> Seq<T> {
        let n = self.nodes@.len() as int;
        Seq::new(n as nat, |k: int| self.nodes@[n - 1 - k].data)
    }
}

impl<T> List<T> {
    /// Well-formedness: elements are appended to the arena in push order,
    /// so the node pushed `i`-th links forward to the node pushed before it
    /// and backward to the node pushed after it; the head is the last node
    /// pushed and the tail the first.
    pub closed spec fn wf(self) -> bool {
        let n = self.nodes@.len() as int;
        &&& forall|i: int|
            0 <= i < n ==> (#[trigger] self.nodes@[i]).next == (if i == 0 {
                None
            } else {
                Some((i - 1) as usize)
            })
        &&& forall|i: int|
            0 <= i < n ==> (#[trigger] self.nodes@[i]).prev == (if i == n - 1 {
                None
            } else {
                Some((i + 1) as usize)
            })
        &&& self.head == (if n == 0 {
            None::<usize>
        } else {
            Some((n - 1) as usize)
        })
        &&& self.tail == (if n == 0 {
            None::<usize>
        } else {
            Some(0usize)
        })
    }

    /// An empty list.
    pub fn new() -> (list: List<T>)
        ensures
            list.wf(),
            list@ == Seq::<T>::empty(),
    {
        let list = List { nodes: Vec::new(), head: None, tail: None };
        proof {
            assert(list@ =~= Seq::<T>::empty());
        }
        list
    }

    /// Pushes an element at the head of the list: the new node becomes the
    /// head, linked in front of the previous head.
    pub fn push(&mut self, data: T)
        requires
            old(self).wf(),
        ensures
            final(self).wf(),
            final(self)@ == seq![data] + old(self)@,
    {
        let idx = self.nodes.len();
        let next = if idx == 0 {
            None
        } else {
            // the previous head now has a newer neighbour
            let mut old_head = match self.nodes.pop() {
                Some(node) => node,
                None => vstd::pervasive::unreached(),
            };
            old_head.prev = Some(idx);
            self.nodes.push(old_head);
            Some(idx - 1)
        };
        self.nodes.push(Node { prev: None, next, data });
        self.head = Some(idx);
        if self.tail.is_none() {
            self.tail = Some(idx);
        }
        proof {
            assert(final(self)@ =~= seq![data] + old(self)@);
        }
    }

    /// An iterator over the list, starting at the head.
    pub fn iter(&self) -> (iter: Iter<T>)
        requires
            self.wf(),
        ensures
            iter.wf(),
            iter.list_spec() == *self,
            iter.yielded() == 0,
    {
        let n = self.nodes.len();
        let iter = Iter { list: self, cursor: self.head };
        proof {
            if n > 0 {
                assert(iter.cursor == Some((n - 1) as usize));
            }
        }
        iter
    }
}

/// An iterator over a [`List`]: holds the list and the arena index of the
/// next node to visit, `None` once the walk is done.
pub struct Iter<'a, T> {
    list: &'a List<T>,
    cursor: Option<usize>,
}

impl<'a, T> Iter<'a, T> {
    /// The list being iterated.
    pub closed spec fn list_spec(self) -> List<T> {
        *self.list
    }

    /// How many elements the iterator has yielded so far.
    pub closed spec fn yielded(self) -> int {
        match self.cursor {
            None => self.list@.len() as int,
            Some(i) => self.list@.len() - 1 - i,
        }
    }

    /// Well-formedness: the list is well formed and the cursor, when
    /// present, points into the arena.
    pub closed spec fn wf(self) -> bool {
        &&& self.list.wf()
        &&& match self.cursor {
            None => true,
            Some(i) => i < self.list@.len(),
        }
    }

    /// Yields the next element, in head-to-tail order: the `k`-th call
    /// returns the `k`-th element of the list's view, and `None` exactly
    /// once every element has been yielded.
    pub fn next(&mut self) -> (item: Option<&'a T>)
        requires
            old(self).wf(),
        ensures
            final(self).wf(),
            final(self).list_spec() == old(self).list_spec(),
            match item {
                Some(data) => {
                    &&& old(self).yielded() < old(self).list_spec()@.len()
                    &&& *data == old(self).list_spec()@[old(self).yielded()]
                    &&& final(self).yielded() == old(self).yielded() + 1
                },
                None => {
                    &&& old(self).yielded() == old(self).list_spec()@.len()
                    &&& final(self).yielded() == old(self).yielded()
                },
            },
    {
        match self.cursor {
            Some(i) => {
                let node = &self.list.nodes[i];
                self.cursor = node.next;
                Some(&node.data)
            },
            None => None,
        }
    }
}

} // verus!
