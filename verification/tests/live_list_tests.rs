use quickjs_gc::live::LiveList;

const HEAD: u64 = 1000;

#[test]
fn empty_list_walk_yields_nothing() {
    let list = LiveList::new(HEAD);
    assert_eq!(list.walk(), Vec::<u64>::new());
    assert_eq!(list.len(), 0);
}

#[test]
fn walker_visits_every_node_once_in_list_order() {
    let mut list = LiveList::new(HEAD);
    let identities = [64u64, 128, 192, 256, 320];
    for (k, id) in identities.iter().enumerate() {
        list.link_object(*id, k as i32, 0, 0, 0);
    }
    let walked = list.walk();
    assert_eq!(walked, identities.to_vec());
    assert_eq!(list.len(), identities.len());
    // distinct: no identity appears twice
    for i in 0..walked.len() {
        for j in 0..walked.len() {
            if i != j {
                assert_ne!(walked[i], walked[j]);
            }
        }
    }
}

#[test]
fn repeated_walks_of_an_unmodified_list_agree() {
    let mut list = LiveList::new(HEAD);
    list.link_object(64, 1, 0, 0, 0);
    list.link_object(128, 1, 0, 0, 0);
    assert_eq!(list.walk(), list.walk());
}

#[test]
fn linked_objects_keep_their_payload() {
    let mut list = LiveList::new(HEAD);
    list.link_object(64, 3, 0x21, 7, 9);
    list.link_object(128, 4, 0x15, 2, 11);
    let first = list.get_object(64);
    assert_eq!(first.ref_count, 3);
    assert_eq!(first.gc_obj_mark, 0x21);
    assert_eq!(first.dummy1, 7);
    assert_eq!(first.dummy2, 9);
    let second = list.get_object(128);
    assert_eq!(second.ref_count, 4);
    assert_eq!(second.gc_obj_mark, 0x15);
    assert!(list.contains(64));
    assert!(list.contains(128));
    assert!(!list.contains(192));
}
