use quickjs_gc::list::List;

#[test]
fn new_list_yields_nothing() {
    let list: List<u32> = List::new();
    let mut iter = list.iter();
    assert!(iter.next().is_none());
    assert!(iter.next().is_none());
}

#[test]
fn push_puts_the_newest_element_at_the_head() {
    let mut list: List<u32> = List::new();
    list.push(1);
    list.push(2);
    list.push(3);
    let mut iter = list.iter();
    assert_eq!(iter.next(), Some(&3));
    assert_eq!(iter.next(), Some(&2));
    assert_eq!(iter.next(), Some(&1));
    assert_eq!(iter.next(), None);
}

#[test]
fn iteration_is_idempotent_while_the_list_is_unmodified() {
    let mut list: List<&str> = List::new();
    list.push("old");
    list.push("new");
    let first: Vec<&&str> = collect_all(&list);
    let second: Vec<&&str> = collect_all(&list);
    assert_eq!(first, second);
}

fn collect_all<'a, T>(list: &'a List<T>) -> Vec<&'a T> {
    let mut out = Vec::new();
    let mut iter = list.iter();
    while let Some(item) = iter.next() {
        out.push(item);
    }
    out
}
