//! The creation ledger: a map from object identity (header address) to the
//! backtrace captured when the object was created.
//!
//! The ledger is an explicit value handed to the recorder and the reporter;
//! a host that records from several threads keeps it behind one exclusive
//! lock and holds the lock only for the map operation itself (the backtrace
//! is captured before the ledger is touched). An entry stays for the life
//! of the ledger unless the host explicitly forgets it on object
//! destruction; a host that never does must expect a reused address to
//! carry a stale backtrace from the previous object at that address.

use vstd::prelude::*;
use std::collections::HashMap;
use crate::GC_OBJ_LINK_OFFSET;

verus! {

broadcast use {
    vstd::std_specs::hash::group_hash_axioms,
    vstd::prelude::Seq::lemma_push_to_set_commute,
};

/// A backtrace captured at one point in time, rendered as text: the ordered
/// stack frames of the call site, one snapshot, immutable once captured.
pub struct BacktraceRecord {
    text: String,
}

impl View for BacktraceRecord {
    type V = Seq<char>;

    closed spec fn view(&self) -> Seq<char> {
        self.text@
    }
}

impl Clone for BacktraceRecord {
    fn clone(&self) -> (other: Self)
        ensures
            other == *self,
    {
        BacktraceRecord { text: self.text.clone() }
    }
}

impl BacktraceRecord {
    /// Wraps an already rendered backtrace.
    pub fn new(text: String) -> (record: BacktraceRecord)
        ensures
            record@ == text@,
    {
        BacktraceRecord { text }
    }

    /// The rendered backtrace text.
    pub fn text(&self) -> (text: &String)
        ensures
            text@ == self@,
    {
        &self.text
    }
}

/// Relies on `backtrace::Backtrace::new`, which captures the call stack at
/// its call site, and on its `Debug` rendering of the captured frames.
/// What comes back depends on the call site, the build and the machine, so
/// nothing is promised of the text.
#[verifier::external_body]
fn capture_backtrace() -> String {
    let bt = backtrace::Backtrace::new();
    format!("{:?}", bt)
}

/// The process-wide record of object creations: for each identity the
/// backtrace captured when the object at that address was recorded, plus
/// the order in which identities were first recorded (the ledger's one
/// deterministic order, used when entries are listed).
pub struct CreationLedger {
    map: HashMap<u64, BacktraceRecord>,
    keys: Vec<u64>,
}

impl CreationLedger {
    /// The entries: identity to captured backtrace.
    pub closed spec fn entries(self) -> Map<u64, BacktraceRecord> {
        self.map@
    }

    /// The identities in first-recording order.
    pub closed spec fn order(self) -> Seq<u64> {
        self.keys@
    }

    /// Well-formedness: the recorded order lists each identity once and
    /// matches the entries exactly.
    pub closed spec fn wf(self) -> bool {
        &&& self.keys@.no_duplicates()
        &&& self.keys@.to_set() =~= self.map@.dom()
    }

    /// An empty ledger.
    pub fn new() -> (ledger: CreationLedger)
        ensures
            ledger.wf(),
            ledger.entries() == Map::<u64, BacktraceRecord>::empty(),
            ledger.order() == Seq::<u64>::empty(),
    {
        let ledger = CreationLedger { map: HashMap::new(), keys: Vec::new() };
        proof {
            assert(ledger.keys@.to_set() =~= ledger.map@.dom());
        }
        ledger
    }

    /// Number of recorded entries.
    pub fn len(&self) -> (n: usize)
        requires
            self.wf(),
        ensures
            n == self.entries().dom().len(),
            n == self.order().len(),
    {
        proof {
            self.keys@.unique_seq_to_set();
        }
        self.keys.len()
    }

    /// Inserts or overwrites the entry for `identity`. A repeated identity
    /// keeps its place in the recording order and its backtrace is
    /// replaced: last writer wins. No other entry changes.
    pub fn record(&mut self, identity: u64, backtrace: BacktraceRecord)
        requires
            old(self).wf(),
        ensures
            final(self).wf(),
            final(self).entries() == old(self).entries().insert(identity, backtrace),
            final(self).order() == if old(self).entries().dom().contains(identity) {
                old(self).order()
            } else {
                old(self).order().push(identity)
            },
    {
        let previous = self.map.insert(identity, backtrace);
        if previous.is_none() {
            proof {
                if self.keys@.contains(identity) {
                    assert(self.keys@.to_set().contains(identity));
                }
            }
            self.keys.push(identity);
        }
        proof {
            assert(self.keys@.to_set() =~= self.map@.dom());
        }
    }

    /// Drops the entry for `identity`, if one exists: the hook for the host
    /// to call when an object is properly freed, so that the entry does not
    /// linger as a false leak — and so that a later object allocated at the
    /// reused address does not inherit a stale backtrace. Forgetting an
    /// identity that was never recorded changes nothing.
    pub fn forget(&mut self, identity: u64)
        requires
            old(self).wf(),
        ensures
            final(self).wf(),
            final(self).entries() == old(self).entries().remove(identity),
            final(self).order() == old(self).order().remove_value(identity),
    {
        let ghost old_keys = self.keys@;
        let removed = self.map.remove(&identity);
        proof {
            old_keys.index_of_first_ensures(identity);
        }
        if removed.is_some() {
            proof {
                assert(old_keys.to_set().contains(identity));
                assert(old_keys.contains(identity));
            }
            let mut i: usize = 0;
            while i < self.keys.len() && self.keys[i] != identity
                invariant
                    self.keys@ == old_keys,
                    i <= old_keys.len(),
                    old_keys.contains(identity),
                    forall|j: int| 0 <= j < i ==> old_keys[j] != identity,
                decreases old_keys.len() - i,
            {
                i = i + 1;
            }
            proof {
                if i == old_keys.len() {
                    let w = choose|w: int| 0 <= w < old_keys.len() && old_keys[w] == identity;
                    assert(false);
                }
                // `i` is the first occurrence, so it is the one the
                // recording order loses
                let fi = old_keys.index_of_first(identity).unwrap();
                if fi < i {
                    assert(old_keys[fi] != identity);
                } else if fi > i {
                    assert(old_keys[i as int] != identity);
                }
                assert(fi == i);
            }
            self.keys.remove(i);
            proof {
                old_keys.remove_ensures(i as int);
                let new_keys = self.keys@;
                assert forall|a: int, b: int|
                    0 <= a < new_keys.len() && 0 <= b < new_keys.len() && a != b implies new_keys[a]
                    != new_keys[b] by {
                    let oa: int = if a < i { a } else { a + 1 };
                    let ob: int = if b < i { b } else { b + 1 };
                    assert(new_keys[a] == old_keys[oa] && new_keys[b] == old_keys[ob]);
                };
                assert forall|x: u64| new_keys.to_set().contains(x) implies self.map@.dom()
                    .contains(x) by {
                    assert(new_keys.contains(x));
                    let j = choose|j: int| 0 <= j < new_keys.len() && new_keys[j] == x;
                    let oj: int = if j < i {
                        j
                    } else {
                        j + 1
                    };
                    assert(old_keys[oj] == x);
                    if x == identity {
                        assert(old_keys[i as int] == identity);
                        assert(oj != i);
                        assert(false);
                    }
                    assert(old_keys.contains(x));
                    assert(old_keys.to_set().contains(x));
                };
                assert forall|x: u64| self.map@.dom().contains(x) implies new_keys.to_set()
                    .contains(x) by {
                    assert(x != identity);
                    assert(old_keys.to_set().contains(x));
                    assert(old_keys.contains(x));
                    let j = choose|j: int| 0 <= j < old_keys.len() && old_keys[j] == x;
                    assert(j != i);
                    let nj: int = if j < i {
                        j
                    } else {
                        j - 1
                    };
                    assert(new_keys[nj] == x);
                    assert(new_keys.contains(x));
                };
                assert(self.keys@.to_set() =~= self.map@.dom());
            }
        } else {
            proof {
                if old_keys.contains(identity) {
                    assert(old_keys.to_set().contains(identity));
                    assert(false);
                }
                assert(self.keys@.to_set() =~= self.map@.dom());
            }
        }
    }

    /// A well-formed ledger's recording order lists each recorded identity
    /// exactly once: its order and its entries carry the same identities.
    pub proof fn lemma_order_matches_entries(self)
        requires
            self.wf(),
        ensures
            self.order().to_set() =~= self.entries().dom(),
            self.order().no_duplicates(),
    {
    }

    /// The identities in first-recording order.
    pub fn identities(&self) -> (identities: &Vec<u64>)
        ensures
            identities@ == self.order(),
    {
        &self.keys
    }

    /// Whether a creation was recorded for `identity`.
    pub fn contains(&self, identity: u64) -> (present: bool)
        requires
            self.wf(),
        ensures
            present == self.entries().dom().contains(identity),
    {
        self.map.contains_key(&identity)
    }

    /// The backtrace recorded for `identity`, if any.
    pub fn get(&self, identity: u64) -> (backtrace: Option<&BacktraceRecord>)
        requires
            self.wf(),
        ensures
            match backtrace {
                Some(b) => self.entries().dom().contains(identity) && *b == self.entries()[
                    identity
                ],
                None => !self.entries().dom().contains(identity),
            },
    {
        self.map.get(&identity)
    }
}

/// Records the creation of a garbage-collected object, given the address of
/// the link node embedded in its header, as the host calls it right after
/// constructing the object: recovers the object's identity from the link
/// address, captures a backtrace at the call site, and stores it in the
/// ledger under that identity. Exactly one ledger entry changes; whatever
/// backtrace was captured, every other entry is preserved.
pub fn record_gc_object_creation(ledger: &mut CreationLedger, gc_object_link: u64)
    requires
        old(ledger).wf(),
        gc_object_link >= GC_OBJ_LINK_OFFSET,
    ensures
        final(ledger).wf(),
        final(ledger).entries() == old(ledger).entries().insert(
            (gc_object_link - GC_OBJ_LINK_OFFSET) as u64,
            final(ledger).entries()[(gc_object_link - GC_OBJ_LINK_OFFSET) as u64],
        ),
        final(ledger).entries().dom().contains((gc_object_link - GC_OBJ_LINK_OFFSET) as u64),
        final(ledger).order() == if old(ledger).entries().dom().contains(
            (gc_object_link - GC_OBJ_LINK_OFFSET) as u64,
        ) {
            old(ledger).order()
        } else {
            old(ledger).order().push((gc_object_link - GC_OBJ_LINK_OFFSET) as u64)
        },
{
    let identity = crate::recover_header(gc_object_link);
    let backtrace = BacktraceRecord::new(capture_backtrace());
    ledger.record(identity, backtrace);
}

/// The ledger contents after recording a sequence of identities with their
/// backtraces into `m`, one at a time, in the given order.
pub open spec fn insert_all(
    m: Map<u64, BacktraceRecord>,
    ids: Seq<u64>,
    backtraces: Seq<BacktraceRecord>,
) -> Map<u64, BacktraceRecord>
    decreases ids.len(),
{
    if ids.len() == 0 {
        m
    } else {
        insert_all(m, ids.drop_last(), backtraces.drop_last()).insert(
            ids.last(),
            backtraces.last(),
        )
    }
}

/// Recording any number of distinct identities, one at a time in any order
/// (as the ledger's exclusive lock serializes concurrent recorders), loses
/// none of them: afterwards the ledger holds exactly those identities, one
/// entry each, and each identity maps to the backtrace recorded for it.
pub proof fn lemma_distinct_recordings_all_kept(ids: Seq<u64>, backtraces: Seq<BacktraceRecord>)
    requires
        ids.no_duplicates(),
        backtraces.len() == ids.len(),
    ensures
        insert_all(Map::empty(), ids, backtraces).dom() =~= ids.to_set(),
        insert_all(Map::empty(), ids, backtraces).dom().len() == ids.len(),
        forall|i: int|
            0 <= i < ids.len() ==> insert_all(Map::empty(), ids, backtraces)[#[trigger] ids[i]]
                == backtraces[i],
    decreases ids.len(),
{
    if ids.len() == 0 {
        assert(insert_all(Map::empty(), ids, backtraces).dom() =~= ids.to_set());
    } else {
        let shorter = ids.drop_last();
        let m = insert_all(Map::empty(), shorter, backtraces.drop_last());
        lemma_distinct_recordings_all_kept(shorter, backtraces.drop_last());
        assert forall|x: u64| ids.to_set().contains(x) implies insert_all(
            Map::empty(),
            ids,
            backtraces,
        ).dom().contains(x) by {
            assert(ids.contains(x));
            let i = choose|i: int| 0 <= i < ids.len() && ids[i] == x;
            if i < ids.len() - 1 {
                assert(shorter[i] == x);
                assert(shorter.contains(x));
                assert(shorter.to_set().contains(x));
            }
        };
        assert forall|x: u64| insert_all(Map::empty(), ids, backtraces).dom().contains(
            x,
        ) implies ids.to_set().contains(x) by {
            if x == ids.last() {
                assert(ids.contains(x));
            } else {
                assert(shorter.to_set().contains(x));
                assert(shorter.contains(x));
                let i = choose|i: int| 0 <= i < shorter.len() && shorter[i] == x;
                assert(ids[i] == x);
                assert(ids.contains(x));
            }
        };
        assert(insert_all(Map::empty(), ids, backtraces).dom() =~= ids.to_set());
        // the last identity is fresh, so the insert grows the domain by one
        if shorter.to_set().contains(ids.last()) {
            assert(shorter.contains(ids.last()));
            let i = choose|i: int| 0 <= i < shorter.len() && shorter[i] == ids.last();
            assert(ids[i] == ids[ids.len() - 1]);
            assert(false);
        }
        assert(m.dom().len() == shorter.len());
        assert(insert_all(Map::empty(), ids, backtraces).dom() =~= m.dom().insert(ids.last()));
        vstd::seq_lib::seq_to_set_is_finite(shorter);
        assert(m.dom().finite());
        vstd::set::axiom_set_insert_len(m.dom(), ids.last());
        assert forall|i: int| 0 <= i < ids.len() implies insert_all(Map::empty(), ids, backtraces)[
            #[trigger] ids[i]
        ] == backtraces[i] by {
            if i < ids.len() - 1 {
                assert(ids[i] != ids.last());
                assert(shorter[i] == ids[i] && backtraces.drop_last()[i] == backtraces[i]);
            }
        };
    }
}

} // verus!
