//! Model of the host runtime's circular doubly-linked list of live objects.
//!
//! The host keeps every live object on an intrusive circular list: a
//! sentinel link node whose `next` chain runs through the link node embedded
//! in each live object's header and back to the sentinel. Object memory is
//! modelled by addresses (`u64`): the list stores each object's header under
//! its identity (header address), and the link fields hold the addresses of
//! the neighbouring link nodes, exactly as the host's memory does.
//!
//! The well-formedness invariant [`LiveList::wf`] states that the link
//! fields trace out one ring through all stored objects; the walker then
//! provably visits every live object exactly once, in list order, and
//! returns to the sentinel.

use vstd::prelude::*;
use std::collections::HashMap;
use crate::GC_OBJ_LINK_OFFSET;
use crate::JSGCObjectHeader;
use crate::ListHead;
use crate::link_addr_of;

verus! {

broadcast use {
    vstd::std_specs::hash::group_hash_axioms,
    vstd::prelude::Seq::lemma_push_to_set_commute,
};

/// The host's circular list of live objects, modelled over addresses.
///
/// `head_addr` is the address of the sentinel link node and `head` its two
/// link fields; `objects` stores each live object's header under its
/// identity. The ghost `ring` holds the identities in list order (the order
/// of the `next` chain starting at the sentinel); the view of a `LiveList`
/// is that sequence.
pub struct LiveList {
    head_addr: u64,
    head: ListHead,
    objects: HashMap<u64, JSGCObjectHeader>,
    ring: Ghost<Seq<u64>>,
}

impl View for LiveList {
    type V = Seq<u64>;

    closed spec fn view(&self) -> Seq<u64> {
        self.ring@
    }
}

impl LiveList {
    /// The address of the sentinel link node.
    pub closed spec fn head_addr_spec(self) -> u64 {
        self.head_addr
    }

    /// The header stored for the object with the given identity.
    pub closed spec fn header_of(self, identity: u64) -> JSGCObjectHeader {
        self.objects@[identity]
    }

    /// Address of the link node that follows the object at ring position
    /// `i`: the next object's link, or the sentinel after the last object.
    closed spec fn succ_addr(self, i: int) -> u64 {
        if i == self.ring@.len() - 1 {
            self.head_addr
        } else {
            link_addr_of(self.ring@[i + 1])
        }
    }

    /// Address of the link node that precedes the object at ring position
    /// `i`: the previous object's link, or the sentinel before the first.
    closed spec fn pred_addr(self, i: int) -> u64 {
        if i == 0 {
            self.head_addr
        } else {
            link_addr_of(self.ring@[i - 1])
        }
    }

    /// Well-formedness: the identities on the ring are distinct, the map
    /// stores exactly the ring's objects, link addresses neither overflow
    /// nor collide with the sentinel, and the `next`/`prev` fields of the
    /// sentinel and of every stored header trace out the circular order
    /// that `ring` records.
    pub closed spec fn wf(self) -> bool {
        let ring = self.ring@;
        let n = ring.len() as int;
        &&& ring.no_duplicates()
        &&& self.objects@.dom() =~= ring.to_set()
        &&& forall|i: int| 0 <= i < n ==> #[trigger] ring[i] <= u64::MAX - GC_OBJ_LINK_OFFSET
        &&& forall|i: int| 0 <= i < n ==> link_addr_of(#[trigger] ring[i]) != self.head_addr
        &&& (if n == 0 {
            self.head.next == self.head_addr && self.head.prev == self.head_addr
        } else {
            self.head.next == link_addr_of(ring[0]) && self.head.prev == link_addr_of(ring[n - 1])
        })
        &&& forall|i: int|
            0 <= i < n ==> (#[trigger] self.objects@[ring[i]]).link.next == self.succ_addr(i)
        &&& forall|i: int|
            0 <= i < n ==> (#[trigger] self.objects@[ring[i]]).link.prev == self.pred_addr(i)
    }

    /// An empty live list: the sentinel points at itself in both
    /// directions and no object is stored.
    pub fn new(head_addr: u64) -> (list: LiveList)
        ensures
            list.wf(),
            list@ == Seq::<u64>::empty(),
            list.head_addr_spec() == head_addr,
    {
        let list = LiveList {
            head_addr,
            head: ListHead { prev: head_addr, next: head_addr },
            objects: HashMap::new(),
            ring: Ghost(Seq::empty()),
        };
        proof {
            assert(list.objects@.dom() =~= Seq::<u64>::empty().to_set());
        }
        list
    }

    /// Number of live objects on the list.
    pub fn len(&self) -> (n: usize)
        requires
            self.wf(),
        ensures
            n == self@.len(),
    {
        proof {
            self.ring@.unique_seq_to_set();
        }
        self.objects.len()
    }

    /// Whether an object with the given identity is on the live list.
    pub fn contains(&self, identity: u64) -> (present: bool)
        requires
            self.wf(),
        ensures
            present == self@.contains(identity),
    {
        let present = self.objects.contains_key(&identity);
        proof {
            assert(self.objects@.dom().contains(identity) == self.ring@.to_set().contains(
                identity,
            ));
        }
        present
    }

    /// The header of the live object with the given identity.
    pub fn get_object(&self, identity: u64) -> (header: &JSGCObjectHeader)
        requires
            self.wf(),
            self@.contains(identity),
        ensures
            *header == self.header_of(identity),
    {
        proof {
            assert(self.ring@.to_set().contains(identity));
            assert(self.objects@.dom().contains(identity));
        }
        match self.objects.get(&identity) {
            Some(h) => h,
            None => vstd::pervasive::unreached(),
        }
    }

    /// Links a freshly created object at the tail of the live list, as the
    /// host does right after allocating it: the new object's link node is
    /// spliced in between the current last object and the sentinel. The
    /// other objects' payloads are untouched; only the link fields that the
    /// splice requires change.
    pub fn link_object(
        &mut self,
        identity: u64,
        ref_count: i32,
        gc_obj_mark: u8,
        dummy1: u8,
        dummy2: u16,
    )
        requires
            old(self).wf(),
            !old(self)@.contains(identity),
            identity <= u64::MAX - GC_OBJ_LINK_OFFSET,
            identity + GC_OBJ_LINK_OFFSET != old(self).head_addr_spec(),
        ensures
            final(self).wf(),
            final(self)@ == old(self)@.push(identity),
            final(self).head_addr_spec() == old(self).head_addr_spec(),
            final(self).header_of(identity).ref_count == ref_count,
            final(self).header_of(identity).gc_obj_mark == gc_obj_mark,
            final(self).header_of(identity).dummy1 == dummy1,
            final(self).header_of(identity).dummy2 == dummy2,
            forall|id: u64|
                old(self)@.contains(id) ==> crate::header_payload(
                    #[trigger] final(self).header_of(id),
                ) == crate::header_payload(old(self).header_of(id)),
    {
        let link_addr = identity + GC_OBJ_LINK_OFFSET;
        let ghost old_ring = self.ring@;
        let ghost old_map = self.objects@;
        if self.head.next == self.head_addr {
            proof {
                if old_ring.len() > 0 {
                    assert(link_addr_of(old_ring[0]) != self.head_addr);
                    assert(false);
                }
            }
            let header = JSGCObjectHeader {
                ref_count,
                gc_obj_mark,
                dummy1,
                dummy2,
                link: ListHead { prev: self.head_addr, next: self.head_addr },
            };
            self.head.next = link_addr;
            self.head.prev = link_addr;
            self.objects.insert(identity, header);
            proof {
                self.ring@ = old_ring.push(identity);
                let ring = self.ring@;
                assert(ring.len() == 1 && ring[0] == identity);
                assert forall|x: u64| self.objects@.dom().contains(x) implies ring.to_set()
                    .contains(x) by {
                    assert(x == identity);
                    assert(ring.contains(x));
                };
                assert forall|x: u64| ring.to_set().contains(x) implies self.objects@.dom()
                    .contains(x) by {
                    assert(ring.contains(x));
                    let i = choose|i: int| 0 <= i < ring.len() && ring[i] == x;
                    assert(x == identity);
                };
                assert(self.objects@.dom() =~= ring.to_set());
            }
        } else {
            proof {
                if old_ring.len() == 0 {
                    assert(false);
                }
                assert(self.head.prev == link_addr_of(old_ring[old_ring.len() - 1]));
                assert(old_ring[old_ring.len() - 1] <= u64::MAX - GC_OBJ_LINK_OFFSET);
            }
            let tail_link = self.head.prev;
            let tail_id = tail_link - GC_OBJ_LINK_OFFSET;
            proof {
                assert(tail_id == old_ring[old_ring.len() - 1]);
                assert(old_ring.contains(tail_id));
                assert(self.objects@.dom().contains(tail_id));
            }
            let mut tail_header = match self.objects.remove(&tail_id) {
                Some(h) => h,
                None => vstd::pervasive::unreached(),
            };
            tail_header.link.next = link_addr;
            self.objects.insert(tail_id, tail_header);
            let header = JSGCObjectHeader {
                ref_count,
                gc_obj_mark,
                dummy1,
                dummy2,
                link: ListHead { prev: tail_link, next: self.head_addr },
            };
            self.objects.insert(identity, header);
            self.head.prev = link_addr;
            proof {
                self.ring@ = old_ring.push(identity);
                let ring = self.ring@;
                let n = ring.len() as int;
                let oldn = old_ring.len() as int;
                assert(self.objects@ =~= old_map.remove(tail_id).insert(tail_id, tail_header)
                    .insert(identity, header));
                assert(tail_id != identity);
                // the map now stores exactly the new ring's objects
                assert forall|x: u64| self.objects@.dom().contains(x) implies ring.to_set()
                    .contains(x) by {
                    if x == identity {
                        assert(ring[n - 1] == x);
                        assert(ring.contains(x));
                    } else {
                        assert(old_map.dom().contains(x));
                        assert(old_ring.contains(x));
                        let i = choose|i: int| 0 <= i < old_ring.len() && old_ring[i] == x;
                        assert(ring[i] == x);
                        assert(ring.contains(x));
                    }
                };
                assert forall|x: u64| ring.to_set().contains(x) implies self.objects@.dom()
                    .contains(x) by {
                    assert(ring.contains(x));
                    let i = choose|i: int| 0 <= i < ring.len() && ring[i] == x;
                    if i < oldn {
                        assert(old_ring.contains(x));
                        assert(old_map.dom().contains(x));
                    }
                };
                assert(self.objects@.dom() =~= ring.to_set());
                // distinctness survives appending a fresh identity
                assert forall|i: int, j: int|
                    0 <= i < n && 0 <= j < n && i != j implies ring[i] != ring[j] by {
                    if i < oldn && j < oldn {
                        assert(old_ring[i] != old_ring[j]);
                    } else if i == oldn && j < oldn {
                        if ring[j] == identity {
                            assert(old_ring.contains(identity));
                        }
                    } else if j == oldn && i < oldn {
                        if ring[i] == identity {
                            assert(old_ring.contains(identity));
                        }
                    }
                };
                // every header's link fields still trace out the ring order
                assert forall|i: int|
                    0 <= i < n implies (#[trigger] self.objects@[ring[i]]).link.next
                    == self.succ_addr(i) by {
                    if i < oldn - 1 {
                        assert(ring[i] == old_ring[i]);
                        assert(ring[i] != tail_id && ring[i] != identity);
                        assert(self.objects@[ring[i]] == old_map[old_ring[i]]);
                        assert(old_map[old_ring[i]].link.next == old(self).succ_addr(i));
                    } else if i == oldn - 1 {
                        assert(ring[i] == tail_id);
                        assert(self.objects@[tail_id] == tail_header);
                    } else {
                        assert(i == n - 1 && ring[i] == identity);
                        assert(self.objects@[identity] == header);
                    }
                };
                assert forall|i: int|
                    0 <= i < n implies (#[trigger] self.objects@[ring[i]]).link.prev
                    == self.pred_addr(i) by {
                    if i < oldn - 1 {
                        assert(ring[i] == old_ring[i]);
                        assert(ring[i] != tail_id && ring[i] != identity);
                        assert(self.objects@[ring[i]] == old_map[old_ring[i]]);
                        assert(old_map[old_ring[i]].link.prev == old(self).pred_addr(i));
                    } else if i == oldn - 1 {
                        assert(ring[i] == tail_id);
                        assert(self.objects@[tail_id] == tail_header);
                        assert(old_map[tail_id].link.prev == old(self).pred_addr(i));
                    } else {
                        assert(i == n - 1 && ring[i] == identity);
                        assert(self.objects@[identity] == header);
                        assert(ring[i - 1] == tail_id);
                    }
                };
            }
        }
        proof {
            // payloads of previously linked objects are untouched
            assert forall|id: u64| old(self)@.contains(id) implies crate::header_payload(
                #[trigger] self.header_of(id),
            ) == crate::header_payload(old(self).header_of(id)) by {
                assert(old_ring.contains(id));
                assert(old_map.dom().contains(id));
                assert(id != identity);
            };
        }
    }

    /// Walks the circular list from the sentinel: follows the `next` chain,
    /// recovering each object's identity from its link node's address,
    /// until the chain returns to the sentinel. Visits every live object
    /// exactly once, in list order.
    pub fn walk(&self) -> (identities: Vec<u64>)
        requires
            self.wf(),
        ensures
            identities@ == self@,
            identities@.no_duplicates(),
    {
        let ghost ring = self.ring@;
        let mut identities: Vec<u64> = Vec::new();
        let ghost mut i: int = 0;
        let mut cur: u64 = self.head.next;
        while cur != self.head_addr
            invariant
                self.wf(),
                ring == self.ring@,
                0 <= i <= ring.len(),
                identities@ == ring.take(i),
                i < ring.len() ==> cur == link_addr_of(ring[i]),
                i == ring.len() ==> cur == self.head_addr,
            decreases ring.len() - i,
        {
            proof {
                if i == ring.len() {
                    assert(false);
                }
            }
            let identity = cur - GC_OBJ_LINK_OFFSET;
            proof {
                assert(identity == ring[i]);
                assert(ring.contains(identity));
            }
            let header = self.get_object(identity);
            identities.push(identity);
            cur = header.link.next;
            proof {
                assert(header.link.next == self.succ_addr(i));
                i = i + 1;
                assert(identities@ =~= ring.take(i));
            }
        }
        proof {
            if i < ring.len() {
                assert(cur == link_addr_of(ring[i]));
                assert(false);
            }
            assert(identities@ =~= ring);
        }
        identities
    }
}

} // verus!
