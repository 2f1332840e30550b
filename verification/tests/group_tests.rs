use nadir::cache::CacheError;
use nadir::message_group::MessageGroup;
use nadir::model;

fn meta(id: &str, importance: i32, capacity: u32, pinned_capacity: u32) -> model::MessageGroup {
    model::MessageGroup {
        id: id.to_owned(),
        importance,
        title: id.to_owned(),
        capacity,
        pinned_capacity,
    }
}

fn msg(id: &str) -> model::Message {
    model::Message {
        id: id.to_owned(),
        counter: None,
        tags: Vec::new(),
        body: String::new(),
        time: None,
    }
}

fn regular_ids(group: &MessageGroup) -> Vec<String> {
    group.msgs().iter_by_recency().iter().map(|e| e.0.clone()).collect()
}

#[test]
fn new_group_starts_empty() {
    let group = MessageGroup::new(meta("g", 0, 10, 5)).unwrap();
    assert_eq!(group.counter(), 0);
    assert_eq!(group.id(), "g");
    assert_eq!(group.cap(), 10);
    assert_eq!(group.cap_pinned(), 5);
    assert_eq!(group.msgs().len(), 0);
    assert_eq!(group.pinned_msgs().len(), 0);
}

#[test]
fn new_group_rejects_zero_capacity() {
    match MessageGroup::new(meta("g", 0, 0, 5)) {
        Err(CacheError::ZeroCapacity) => {}
        _ => panic!("a zero regular capacity must be rejected"),
    }
    match MessageGroup::new(meta("g", 0, 10, 0)) {
        Err(CacheError::ZeroCapacity) => {}
        _ => panic!("a zero pinned capacity must be rejected"),
    }
}

#[test]
fn capacity_clamped_to_hard_maximum() {
    let group = MessageGroup::new(meta("g", 0, 100000, 100000)).unwrap();
    assert_eq!(group.cap(), 400);
    assert_eq!(group.cap_pinned(), 400);
}

#[test]
fn add_messages_in_list_order() {
    let mut group = MessageGroup::new(meta("g", 0, 10, 5)).unwrap();
    group.add_messages(&vec![msg("m1"), msg("m2"), msg("m3")]);
    assert_eq!(
        regular_ids(&group),
        vec!["m1".to_owned(), "m2".to_owned(), "m3".to_owned()]
    );
}

#[test]
fn remove_messages_tolerates_missing_ids() {
    let mut group = MessageGroup::new(meta("g", 0, 10, 5)).unwrap();
    group.add_messages(&vec![msg("m1"), msg("m2")]);
    group.remove_msg(&vec!["m1".to_owned(), "absent".to_owned()]);
    assert_eq!(regular_ids(&group), vec!["m2".to_owned()]);
}

#[test]
fn pinned_store_is_independent() {
    let mut group = MessageGroup::new(meta("g", 0, 10, 5)).unwrap();
    group.add_pinned_message(msg("p1"));
    group.add_pinned_messages(&vec![msg("p2")]);
    group.add_message(msg("m1"));
    assert_eq!(group.pinned_msgs().len(), 2);
    assert_eq!(group.msgs().len(), 1);
    group.remove_pinned_msg(&vec!["p1".to_owned()]);
    assert_eq!(group.pinned_msgs().len(), 1);
}

#[test]
fn set_meta_zero_capacity_leaves_group_untouched() {
    let mut group = MessageGroup::new(meta("g", 0, 10, 5)).unwrap();
    group.add_messages(&vec![msg("m1"), msg("m2")]);
    group.set_counter(9);
    let r = group.set_meta(meta("g", 3, 0, 5));
    assert_eq!(r, Err(CacheError::ZeroCapacity));
    assert_eq!(group.meta().importance, 0);
    assert_eq!(group.cap(), 10);
    assert_eq!(group.counter(), 9);
    assert_eq!(regular_ids(&group), vec!["m1".to_owned(), "m2".to_owned()]);
}

#[test]
fn set_meta_shrink_evicts_least_recent() {
    let mut group = MessageGroup::new(meta("g", 0, 10, 5)).unwrap();
    group.add_messages(&vec![msg("m1"), msg("m2"), msg("m3")]);
    let r = group.set_meta(meta("g", 1, 2, 5));
    assert_eq!(r, Ok(()));
    assert_eq!(group.cap(), 2);
    assert_eq!(group.meta().importance, 1);
    assert_eq!(regular_ids(&group), vec!["m2".to_owned(), "m3".to_owned()]);
}

#[test]
fn inc_counter_saturates_at_zero() {
    let mut group = MessageGroup::new(meta("g", 0, 10, 5)).unwrap();
    group.set_counter(5);
    group.inc_counter(-9);
    assert_eq!(group.counter(), 0);
}

#[test]
fn inc_counter_saturates_at_max() {
    let mut group = MessageGroup::new(meta("g", 0, 10, 5)).unwrap();
    group.set_counter(u64::MAX - 1);
    group.inc_counter(5);
    assert_eq!(group.counter(), u64::MAX);
}

#[test]
fn inc_counter_handles_extreme_deltas() {
    let mut group = MessageGroup::new(meta("g", 0, 10, 5)).unwrap();
    group.set_counter(7);
    group.inc_counter(i64::MIN);
    assert_eq!(group.counter(), 0);
    group.set_counter(u64::MAX);
    group.inc_counter(i64::MIN);
    assert_eq!(group.counter(), u64::MAX - 9223372036854775808);
    group.set_counter(3);
    group.inc_counter(i64::MAX);
    assert_eq!(group.counter(), 9223372036854775810);
}
