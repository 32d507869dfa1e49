//! The leak reporter: walks the live list, diffs the creation ledger
//! against the identities found live, and returns a structured report —
//! one row per live object in list order, summary counters, and every
//! leaked entry (recorded as created, not reachable on the live list) with
//! its captured backtrace.
//!
//! The caller must keep the live list quiescent for the duration of a
//! report (a stop-the-world pause or shutdown); the list belongs to the
//! host and nothing here locks it. The set of live identities is built
//! once, so the diff is linear in list length plus ledger size.

use vstd::prelude::*;
use std::collections::HashSet;
use crate::JSGCObjectTypeEnum;
use crate::decode_type_tag;
use crate::mark_bits;
use crate::live::LiveList;
use crate::record::BacktraceRecord;
use crate::record::CreationLedger;

verus! {

broadcast use {
    vstd::std_specs::hash::group_hash_axioms,
    vstd::prelude::Seq::lemma_push_to_set_commute,
    vstd::prelude::Seq::lemma_filter_push,
    vstd::prelude::Seq::lemma_filter_len,
};

/// One row of the live listing: the object's identity and decoded header
/// fields, and the backtrace recorded for it at creation, if any.
pub struct LiveObjectEntry {
    pub identity: u64,
    pub ref_count: i32,
    pub gc_obj_type: JSGCObjectTypeEnum,
    pub mark: u8,
    pub dummy1: u8,
    pub dummy2: u16,
    pub backtrace: Option<BacktraceRecord>,
}

/// One leaked object: recorded as created, but not reachable on the live
/// list at report time.
pub struct LeakedEntry {
    pub identity: u64,
    pub backtrace: BacktraceRecord,
}

/// The full diagnostic report: the live listing in list order, the summary
/// counters, and the leaked entries in first-recording order.
pub struct LeakReport {
    pub live: Vec<LiveObjectEntry>,
    pub total_nodes: usize,
    pub with_backtrace: usize,
    pub without_backtrace: usize,
    pub ledger_total: usize,
    pub leaked: Vec<LeakedEntry>,
}

/// What the live-listing row for the object with identity `id` must hold:
/// the stored header's fields, the type tag and mark bits decoded from its
/// mark byte, and the object's own ledger entry exactly when one exists.
pub open spec fn live_entry_matches(
    list: LiveList,
    ledger: CreationLedger,
    id: u64,
    entry: LiveObjectEntry,
) -> bool {
    let header = list.header_of(id);
    &&& entry.identity == id
    &&& entry.ref_count == header.ref_count
    &&& entry.gc_obj_type == decode_type_tag(header.gc_obj_mark)
    &&& entry.mark == mark_bits(header.gc_obj_mark)
    &&& entry.dummy1 == header.dummy1
    &&& entry.dummy2 == header.dummy2
    &&& match entry.backtrace {
        Some(b) => ledger.entries().dom().contains(id) && b == ledger.entries()[id],
        None => !ledger.entries().dom().contains(id),
    }
}

/// The identities of the ledger's leaked entries: those recorded as
/// created that are not on the live list, in first-recording order.
pub open spec fn leaked_identities(ledger: CreationLedger, live: Seq<u64>) -> Seq<u64> {
    ledger.order().filter(|id: u64| !live.contains(id))
}

/// Whatever a filter keeps was in the source sequence.
proof fn lemma_filter_members_come_from_source(s: Seq<u64>, pred: spec_fn(u64) -> bool, x: u64)
    requires
        s.filter(pred).contains(x),
    ensures
        s.contains(x),
    decreases s.len(),
{
    if s.len() == 0 {
        assert(s.filter(pred).len() <= 0);
        assert(false);
    } else {
        let shorter = s.drop_last();
        assert(shorter.push(s.last()) =~= s);
        if pred(s.last()) {
            assert(s.filter(pred) == shorter.filter(pred).push(s.last()));
            if x == s.last() {
                assert(s[s.len() - 1] == x);
            } else {
                let t = choose|t: int|
                    0 <= t < s.filter(pred).len() && s.filter(pred)[t] == x;
                assert(t < s.filter(pred).len() - 1);
                assert(shorter.filter(pred)[t] == x);
                assert(shorter.filter(pred).contains(x));
                lemma_filter_members_come_from_source(shorter, pred, x);
                let j = choose|j: int| 0 <= j < shorter.len() && shorter[j] == x;
                assert(s[j] == x);
            }
        } else {
            assert(s.filter(pred) == shorter.filter(pred));
            lemma_filter_members_come_from_source(shorter, pred, x);
            let j = choose|j: int| 0 <= j < shorter.len() && shorter[j] == x;
            assert(s[j] == x);
        }
    }
}

/// Filtering a sequence of distinct elements keeps them distinct.
proof fn lemma_filter_keeps_distinctness(s: Seq<u64>, pred: spec_fn(u64) -> bool)
    requires
        s.no_duplicates(),
    ensures
        s.filter(pred).no_duplicates(),
    decreases s.len(),
{
    if s.len() > 0 {
        let shorter = s.drop_last();
        assert(shorter.no_duplicates()) by {
            assert(forall|i: int, j: int|
                0 <= i < shorter.len() && 0 <= j < shorter.len() && i != j ==> shorter[i]
                    != shorter[j]);
        }
        lemma_filter_keeps_distinctness(shorter, pred);
        assert(shorter.push(s.last()) =~= s);
        if pred(s.last()) {
            assert(s.filter(pred) == shorter.filter(pred).push(s.last()));
            if shorter.filter(pred).contains(s.last()) {
                lemma_filter_members_come_from_source(shorter, pred, s.last());
                let j = choose|j: int| 0 <= j < shorter.len() && shorter[j] == s.last();
                assert(s[j] == s[s.len() - 1]);
                assert(false);
            }
            let out = s.filter(pred);
            let base = shorter.filter(pred);
            assert forall|a: int, b: int|
                0 <= a < out.len() && 0 <= b < out.len() && a != b implies out[a] != out[b] by {
                if a < out.len() - 1 && b < out.len() - 1 {
                    assert(out[a] == base[a] && out[b] == base[b]);
                } else if a == out.len() - 1 {
                    if out[b] == s.last() {
                        assert(base.contains(out[b]));
                        assert(false);
                    }
                } else {
                    if out[a] == s.last() {
                        assert(base.contains(out[a]));
                        assert(false);
                    }
                }
            };
        } else {
            assert(s.filter(pred) == shorter.filter(pred));
        }
    }
}

/// Walks the live list and diffs the creation ledger against it.
///
/// The report lists every live object in list order with its decoded
/// header and its recorded backtrace if one exists; counts the live
/// objects with and without a recorded creation; gives the ledger's total
/// size; and lists every leaked entry — recorded but not live — with the
/// backtrace captured when it was recorded, in first-recording order.
pub fn report_leaks(list: &LiveList, ledger: &CreationLedger) -> (report: LeakReport)
    requires
        list.wf(),
        ledger.wf(),
    ensures
        report.live@.len() == list@.len(),
        forall|i: int|
            0 <= i < list@.len() ==> live_entry_matches(
                *list,
                *ledger,
                list@[i],
                #[trigger] report.live@[i],
            ),
        report.total_nodes == list@.len(),
        report.with_backtrace == list@.filter(
            |id: u64| ledger.entries().dom().contains(id),
        ).len(),
        report.without_backtrace == list@.len() - report.with_backtrace,
        report.ledger_total == ledger.entries().dom().len(),
        report.leaked@.map_values(|e: LeakedEntry| e.identity) == leaked_identities(
            *ledger,
            list@,
        ),
        report.leaked@.map_values(|e: LeakedEntry| e.identity).no_duplicates(),
        forall|j: int|
            0 <= j < report.leaked@.len() ==> {
                let e = #[trigger] report.leaked@[j];
                &&& ledger.entries().dom().contains(e.identity)
                &&& e.backtrace == ledger.entries()[e.identity]
                &&& !list@.contains(e.identity)
            },
{
    let live_ids = list.walk();

    // the set of live identities, for constant-time membership in the diff
    let mut live_set: HashSet<u64> = HashSet::new();
    let mut k: usize = 0;
    while k < live_ids.len()
        invariant
            k <= live_ids.len(),
            live_ids@ == list@,
            live_set@ == live_ids@.take(k as int).to_set(),
        decreases live_ids.len() - k,
    {
        live_set.insert(live_ids[k]);
        proof {
            assert(live_ids@.take(k + 1 as int) =~= live_ids@.take(k as int).push(
                live_ids@[k as int],
            ));
        }
        k = k + 1;
    }
    proof {
        assert(live_ids@.take(live_ids@.len() as int) =~= live_ids@);
    }

    // the live listing, in list order, with the summary counters
    let ghost recorded = |id: u64| ledger.entries().dom().contains(id);
    let mut live: Vec<LiveObjectEntry> = Vec::new();
    let mut with_backtrace: usize = 0;
    let mut i: usize = 0;
    while i < live_ids.len()
        invariant
            list.wf(),
            ledger.wf(),
            live_ids@ == list@,
            i <= live_ids.len(),
            live@.len() == i,
            forall|j: int|
                0 <= j < i ==> live_entry_matches(*list, *ledger, list@[j], #[trigger] live@[j]),
            recorded == (|id: u64| ledger.entries().dom().contains(id)),
            with_backtrace == list@.take(i as int).filter(recorded).len(),
            with_backtrace <= i,
        decreases live_ids.len() - i,
    {
        let id = live_ids[i];
        proof {
            assert(list@.contains(id));
        }
        let header = list.get_object(id);
        let backtrace: Option<BacktraceRecord> = match ledger.get(id) {
            Some(b) => Some(b.clone()),
            None => None,
        };
        let has_backtrace = backtrace.is_some();
        let entry = LiveObjectEntry {
            identity: id,
            ref_count: header.ref_count,
            gc_obj_type: header.gc_obj_type(),
            mark: header.mark(),
            dummy1: header.dummy1,
            dummy2: header.dummy2,
            backtrace,
        };
        live.push(entry);
        proof {
            assert(list@.take(i + 1 as int) =~= list@.take(i as int).push(id));
        }
        if has_backtrace {
            with_backtrace = with_backtrace + 1;
        }
        i = i + 1;
    }
    proof {
        assert(list@.take(list@.len() as int) =~= list@);
    }
    let total_nodes = live_ids.len();
    let without_backtrace = total_nodes - with_backtrace;
    let ledger_total = ledger.len();

    // the diff: every recorded identity that is not live has leaked
    let ghost leaked_pred = |id: u64| !list@.contains(id);
    let keys = ledger.identities();
    let mut leaked: Vec<LeakedEntry> = Vec::new();
    let mut j: usize = 0;
    while j < keys.len()
        invariant
            list.wf(),
            ledger.wf(),
            keys@ == ledger.order(),
            live_set@ == list@.to_set(),
            j <= keys.len(),
            leaked_pred == (|id: u64| !list@.contains(id)),
            leaked@.map_values(|e: LeakedEntry| e.identity) == ledger.order().take(
                j as int,
            ).filter(leaked_pred),
            forall|t: int|
                0 <= t < leaked@.len() ==> {
                    let e = #[trigger] leaked@[t];
                    &&& ledger.entries().dom().contains(e.identity)
                    &&& e.backtrace == ledger.entries()[e.identity]
                    &&& !list@.contains(e.identity)
                },
        decreases keys.len() - j,
    {
        let id = keys[j];
        let ghost before = leaked@.map_values(|e: LeakedEntry| e.identity);
        if !live_set.contains(&id) {
            proof {
                ledger.lemma_order_matches_entries();
                assert(ledger.order().contains(id));
                assert(ledger.order().to_set().contains(id));
                assert(ledger.entries().dom().contains(id));
                assert(!list@.to_set().contains(id));
                assert(!list@.contains(id));
            }
            let backtrace = match ledger.get(id) {
                Some(b) => b.clone(),
                None => vstd::pervasive::unreached(),
            };
            leaked.push(LeakedEntry { identity: id, backtrace });
            proof {
                assert(leaked@.map_values(|e: LeakedEntry| e.identity) =~= before.push(id));
            }
        } else {
            proof {
                assert(list@.to_set().contains(id));
                assert(list@.contains(id));
            }
        }
        proof {
            assert(ledger.order().take(j + 1 as int) =~= ledger.order().take(j as int).push(
                keys@[j as int],
            ));
        }
        j = j + 1;
    }
    proof {
        assert(ledger.order().take(ledger.order().len() as int) =~= ledger.order());
        // the recording order is duplicate-free, so no leak is listed twice
        ledger.lemma_order_matches_entries();
        lemma_filter_keeps_distinctness(ledger.order(), leaked_pred);
    }

    LeakReport { live, total_nodes, with_backtrace, without_backtrace, ledger_total, leaked }
}

/// An object that is on the live list is never classified as leaked,
/// however it was recorded: its identity is absent from the leaked
/// listing of every report over that list.
pub proof fn lemma_live_object_not_leaked(ledger: CreationLedger, live: Seq<u64>, identity: u64)
    requires
        live.contains(identity),
    ensures
        !leaked_identities(ledger, live).contains(identity),
{
    let pred = |id: u64| !live.contains(id);
    let leaked = leaked_identities(ledger, live);
    if leaked.contains(identity) {
        let t = choose|t: int| 0 <= t < leaked.len() && leaked[t] == identity;
        ledger.order().lemma_filter_pred(pred, t);
        assert(false);
    }
}

/// An identity recorded in the ledger whose object is not on the live
/// list is always classified as leaked: it appears in the leaked listing
/// of every report over that list, and the report pairs it with the
/// backtrace the ledger holds for it.
pub proof fn lemma_unlinked_recording_is_leaked(
    ledger: CreationLedger,
    live: Seq<u64>,
    identity: u64,
)
    requires
        ledger.wf(),
        ledger.entries().dom().contains(identity),
        !live.contains(identity),
    ensures
        leaked_identities(ledger, live).contains(identity),
{
    let pred = |id: u64| !live.contains(id);
    ledger.lemma_order_matches_entries();
    assert(ledger.order().to_set().contains(identity));
    assert(ledger.order().contains(identity));
    let i = choose|i: int| 0 <= i < ledger.order().len() && ledger.order()[i] == identity;
    ledger.order().lemma_filter_contains(pred, i);
}

} // verus!
