use nadir::cache::CacheError;
use nadir::group_list::GroupList;
use nadir::message_group::MessageGroup;
use nadir::model;

fn meta(id: &str, importance: i32) -> model::MessageGroup {
    model::MessageGroup {
        id: id.to_owned(),
        importance,
        title: id.to_owned(),
        capacity: 10,
        pinned_capacity: 5,
    }
}

fn group(id: &str, importance: i32) -> MessageGroup {
    MessageGroup::new(meta(id, importance)).unwrap()
}

fn ordered_ids(list: &GroupList) -> Vec<String> {
    list.iter().iter().map(|g| g.id().to_owned()).collect()
}

#[test]
fn equal_importance_orders_by_id_ascending() {
    // Two groups with importance 5 and ids "b" and "a": ordered iteration
    // yields "a" before "b".
    let mut list = GroupList::new();
    list.add_group(group("b", 5));
    list.add_group(group("a", 5));
    assert_eq!(ordered_ids(&list), vec!["a".to_owned(), "b".to_owned()]);
}

#[test]
fn higher_importance_comes_first() {
    let mut list = GroupList::new();
    list.add_group(group("low", 1));
    list.add_group(group("high", 7));
    list.add_group(group("mid", 3));
    assert_eq!(
        ordered_ids(&list),
        vec!["high".to_owned(), "mid".to_owned(), "low".to_owned()]
    );
}

#[test]
fn add_group_replaces_same_id() {
    let mut list = GroupList::new();
    let mut g = group("g", 1);
    g.set_counter(42);
    list.add_group(g);
    list.add_group(group("g", 2));
    assert_eq!(list.len(), 1);
    let stored = list.get_group(&"g".to_owned()).unwrap();
    // The replacement is a fresh group, not the old contents under new
    // metadata.
    assert_eq!(stored.counter(), 0);
    assert_eq!(stored.meta().importance, 2);
}

#[test]
fn add_groups_applies_in_list_order() {
    let mut list = GroupList::new();
    list.add_groups(vec![group("a", 1), group("b", 2), group("a", 3)]);
    assert_eq!(list.len(), 2);
    let a = list.get_group(&"a".to_owned()).unwrap();
    assert_eq!(a.meta().importance, 3);
}

#[test]
fn remove_group_returns_it_and_tolerates_absent() {
    let mut list = GroupList::new();
    list.add_group(group("g", 1));
    let removed = list.remove_group(&"g".to_owned());
    assert_eq!(removed.unwrap().id(), "g");
    assert!(list.remove_group(&"g".to_owned()).is_none());
    assert!(list.is_empty());
}

#[test]
fn remove_groups_removes_each() {
    let mut list = GroupList::new();
    list.add_groups(vec![group("a", 1), group("b", 2), group("c", 3)]);
    list.remove_groups(&vec!["a".to_owned(), "c".to_owned(), "zz".to_owned()]);
    assert_eq!(ordered_ids(&list), vec!["b".to_owned()]);
}

#[test]
fn set_group_meta_reorders_by_new_importance() {
    let mut list = GroupList::new();
    list.add_group(group("a", 1));
    list.add_group(group("b", 2));
    assert_eq!(ordered_ids(&list), vec!["b".to_owned(), "a".to_owned()]);
    let r = list.set_group_meta(&"a".to_owned(), meta("a", 9));
    assert_eq!(r, Ok(true));
    assert_eq!(ordered_ids(&list), vec!["a".to_owned(), "b".to_owned()]);
}

#[test]
fn set_group_meta_unknown_id_changes_nothing() {
    let mut list = GroupList::new();
    list.add_group(group("a", 1));
    let r = list.set_group_meta(&"zz".to_owned(), meta("zz", 9));
    assert_eq!(r, Ok(false));
    assert_eq!(ordered_ids(&list), vec!["a".to_owned()]);
}

#[test]
fn set_group_meta_zero_capacity_is_rejected() {
    let mut list = GroupList::new();
    list.add_group(group("a", 1));
    let mut bad = meta("a", 9);
    bad.capacity = 0;
    let r = list.set_group_meta(&"a".to_owned(), bad);
    assert_eq!(r, Err(CacheError::ZeroCapacity));
    let stored = list.get_group(&"a".to_owned()).unwrap();
    assert_eq!(stored.meta().importance, 1);
}

#[test]
fn set_group_meta_keeps_contents() {
    let mut list = GroupList::new();
    list.add_group(group("a", 1));
    let items = vec![model::Message {
        id: "m".to_owned(),
        counter: None,
        tags: Vec::new(),
        body: "hello".to_owned(),
        time: None,
    }];
    assert!(list.add_messages_to(&"a".to_owned(), &items));
    list.set_counter_of(&"a".to_owned(), 5);
    let r = list.set_group_meta(&"a".to_owned(), meta("a", 9));
    assert_eq!(r, Ok(true));
    let stored = list.get_group(&"a".to_owned()).unwrap();
    assert_eq!(stored.counter(), 5);
    assert_eq!(stored.msgs().len(), 1);
}
