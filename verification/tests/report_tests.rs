use quickjs_gc::JSGCObjectTypeEnum;
use quickjs_gc::live::LiveList;
use quickjs_gc::record::BacktraceRecord;
use quickjs_gc::record::CreationLedger;
use quickjs_gc::record::record_gc_object_creation;
use quickjs_gc::report::report_leaks;

const HEAD: u64 = 1000;

#[test]
fn recorded_then_linked_object_is_live_not_leaked() {
    let mut ledger = CreationLedger::new();
    let mut list = LiveList::new(HEAD);
    record_gc_object_creation(&mut ledger, 64 + 8);
    list.link_object(64, 1, 0, 0, 0);
    let report = report_leaks(&list, &ledger);
    assert_eq!(report.total_nodes, 1);
    assert_eq!(report.live.len(), 1);
    assert_eq!(report.live[0].identity, 64);
    assert!(report.live[0].backtrace.is_some());
    assert!(report.leaked.is_empty());
}

#[test]
fn recorded_but_never_linked_object_is_leaked_with_its_backtrace() {
    let mut ledger = CreationLedger::new();
    ledger.record(77, BacktraceRecord::new(String::from("allocated at site p")));
    let list = LiveList::new(HEAD);
    let report = report_leaks(&list, &ledger);
    assert_eq!(report.total_nodes, 0);
    assert_eq!(report.leaked.len(), 1);
    assert_eq!(report.leaked[0].identity, 77);
    assert_eq!(report.leaked[0].backtrace.text(), "allocated at site p");
}

#[test]
fn live_rows_carry_the_decoded_header_and_the_recorded_backtrace() {
    let mut ledger = CreationLedger::new();
    let mut list = LiveList::new(HEAD);
    list.link_object(64, 5, 0x23, 7, 9);
    list.link_object(128, 2, 0x10, 0, 0);
    ledger.record(64, BacktraceRecord::new(String::from("site a")));
    let report = report_leaks(&list, &ledger);
    assert_eq!(report.live.len(), 2);
    let first = &report.live[0];
    assert_eq!(first.identity, 64);
    assert_eq!(first.ref_count, 5);
    assert_eq!(first.gc_obj_type, JSGCObjectTypeEnum::VarRef);
    assert_eq!(first.mark, 2);
    assert_eq!(first.dummy1, 7);
    assert_eq!(first.dummy2, 9);
    assert_eq!(first.backtrace.as_ref().unwrap().text(), "site a");
    let second = &report.live[1];
    assert_eq!(second.identity, 128);
    assert_eq!(second.gc_obj_type, JSGCObjectTypeEnum::JsObject);
    assert_eq!(second.mark, 1);
    assert!(second.backtrace.is_none());
    assert_eq!(report.with_backtrace, 1);
    assert_eq!(report.without_backtrace, 1);
}

#[test]
fn three_live_one_unlinked_recording_yields_one_leak() {
    let a: u64 = 64;
    let b: u64 = 128;
    let c: u64 = 192;
    let d: u64 = 256;
    let mut ledger = CreationLedger::new();
    let mut list = LiveList::new(HEAD);
    for id in [a, b, c] {
        record_gc_object_creation(&mut ledger, id + 8);
        list.link_object(id, 1, 0, 0, 0);
    }
    record_gc_object_creation(&mut ledger, d + 8);
    let report = report_leaks(&list, &ledger);
    assert_eq!(report.total_nodes, 3);
    assert_eq!(report.with_backtrace, 3);
    assert_eq!(report.without_backtrace, 0);
    assert_eq!(report.ledger_total, 4);
    assert_eq!(report.leaked.len(), 1);
    assert_eq!(report.leaked[0].identity, d);
    assert_eq!(
        report.leaked[0].backtrace.text(),
        ledger.get(d).expect("the leak was recorded").text()
    );
}

#[test]
fn leaked_entries_come_in_first_recording_order() {
    let mut ledger = CreationLedger::new();
    for id in [300u64, 100, 200] {
        ledger.record(id, BacktraceRecord::new(String::from("site")));
    }
    let list = LiveList::new(HEAD);
    let report = report_leaks(&list, &ledger);
    let leaked: Vec<u64> = report.leaked.iter().map(|e| e.identity).collect();
    assert_eq!(leaked, vec![300, 100, 200]);
    let again: Vec<u64> = report_leaks(&list, &ledger).leaked.iter().map(|e| e.identity).collect();
    assert_eq!(leaked, again);
}
