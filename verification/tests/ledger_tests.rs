use quickjs_gc::record::BacktraceRecord;
use quickjs_gc::record::CreationLedger;
use quickjs_gc::record::record_gc_object_creation;

#[test]
fn recording_distinct_identities_loses_none() {
    let mut ledger = CreationLedger::new();
    let identities = [64u64, 128, 192, 256, 320];
    for id in identities.iter() {
        // the host hands over the address of the embedded link node
        record_gc_object_creation(&mut ledger, id + 8);
    }
    assert_eq!(ledger.len(), identities.len());
    for id in identities.iter() {
        assert!(ledger.contains(*id));
        assert!(ledger.get(*id).is_some());
    }
    assert_eq!(ledger.identities(), &identities.to_vec());
}

#[test]
fn recording_captures_a_backtrace() {
    let mut ledger = CreationLedger::new();
    record_gc_object_creation(&mut ledger, 72);
    let backtrace = ledger.get(64).expect("creation was recorded");
    // the captured call stack renders to some frames, never to nothing
    assert!(!backtrace.text().is_empty());
}

#[test]
fn rerecording_an_identity_is_last_writer_wins() {
    let mut ledger = CreationLedger::new();
    ledger.record(64, BacktraceRecord::new(String::from("first site")));
    ledger.record(64, BacktraceRecord::new(String::from("second site")));
    assert_eq!(ledger.len(), 1);
    assert_eq!(ledger.get(64).unwrap().text(), "second site");
    assert_eq!(ledger.identities(), &vec![64u64]);
}

#[test]
fn entries_stay_until_forgotten() {
    let mut ledger = CreationLedger::new();
    ledger.record(64, BacktraceRecord::new(String::from("a")));
    ledger.record(128, BacktraceRecord::new(String::from("b")));
    // recording alone never drops an entry; both stay until forgotten
    assert!(ledger.contains(64));
    assert!(ledger.contains(128));
    assert_eq!(ledger.len(), 2);
    ledger.forget(64);
    assert!(!ledger.contains(64));
    assert!(ledger.contains(128));
    assert_eq!(ledger.len(), 1);
    assert_eq!(ledger.identities(), &vec![128u64]);
}

#[test]
fn forgetting_an_unrecorded_identity_changes_nothing() {
    let mut ledger = CreationLedger::new();
    ledger.record(64, BacktraceRecord::new(String::from("a")));
    ledger.forget(999);
    assert_eq!(ledger.len(), 1);
    assert!(ledger.contains(64));
    assert_eq!(ledger.get(64).unwrap().text(), "a");
}

