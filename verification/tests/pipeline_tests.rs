use nadir::group_list::GroupList;
use nadir::message::{AddMsg, ApiMessage, PutGroupMsg, RemoveMsg, SetGroupCounterMsg};
use nadir::model;
use nadir::pipeline::{IngestionPipeline, PipelineState};
use nadir::util::DirtyCheckLock;

fn meta(id: &str, importance: i32, capacity: u32, pinned_capacity: u32) -> model::MessageGroup {
    model::MessageGroup {
        id: id.to_owned(),
        importance,
        title: id.to_owned(),
        capacity,
        pinned_capacity,
    }
}

fn msg(id: &str) -> model::Message {
    model::Message {
        id: id.to_owned(),
        counter: None,
        tags: Vec::new(),
        body: String::new(),
        time: None,
    }
}

fn registry_ids(guard: &mut DirtyCheckLock<GroupList>) -> Vec<String> {
    guard.read(false).iter().iter().map(|g| g.id().to_owned()).collect()
}

#[test]
fn add_command_respects_group_capacity() {
    // A group with capacity 2 receiving Add{items: [m1, m2, m3]} holds
    // m2 and m3: the items are applied in list order, and m1 is evicted
    // when m3 arrives.
    let mut guard = DirtyCheckLock::new(GroupList::new());
    let mut pipeline = IngestionPipeline::new();
    pipeline.on_command(ApiMessage::PutGroup(PutGroupMsg { group: meta("g", 0, 2, 1) }));
    pipeline.on_command(ApiMessage::Add(AddMsg {
        group: "g".to_owned(),
        items: vec![msg("m1"), msg("m2"), msg("m3")],
    }));
    pipeline.flush(&mut guard);
    let reg = guard.read(true);
    let group = reg.get_group(&"g".to_owned()).unwrap();
    let ids: Vec<String> = group.msgs().iter_by_recency().iter().map(|e| e.0.clone()).collect();
    assert_eq!(ids, vec!["m2".to_owned(), "m3".to_owned()]);
}

#[test]
fn set_counter_on_unknown_group_is_dropped() {
    // SetCounter on a group id absent from the registry leaves the registry
    // unchanged and panics nowhere.
    let mut guard = DirtyCheckLock::new(GroupList::new());
    let mut pipeline = IngestionPipeline::new();
    pipeline.on_command(ApiMessage::PutGroup(PutGroupMsg { group: meta("g", 0, 2, 1) }));
    pipeline.flush(&mut guard);
    pipeline.on_command(ApiMessage::SetGroupCounter(SetGroupCounterMsg {
        group: "x".to_owned(),
        counter: 7,
    }));
    pipeline.flush(&mut guard);
    assert_eq!(registry_ids(&mut guard), vec!["g".to_owned()]);
    let reg = guard.read(false);
    assert_eq!(reg.get_group(&"g".to_owned()).unwrap().counter(), 0);
    assert!(reg.get_group(&"x".to_owned()).is_none());
}

#[test]
fn commands_apply_in_arrival_order() {
    let mut guard = DirtyCheckLock::new(GroupList::new());
    let mut pipeline = IngestionPipeline::new();
    pipeline.on_command(ApiMessage::PutGroup(PutGroupMsg { group: meta("g", 0, 10, 5) }));
    pipeline.on_command(ApiMessage::Add(AddMsg {
        group: "g".to_owned(),
        items: vec![msg("m1"), msg("m2")],
    }));
    pipeline.on_command(ApiMessage::Remove(RemoveMsg {
        group: "g".to_owned(),
        items: vec!["m1".to_owned()],
    }));
    pipeline.on_command(ApiMessage::SetGroupCounter(SetGroupCounterMsg {
        group: "g".to_owned(),
        counter: 3,
    }));
    pipeline.flush(&mut guard);
    let reg = guard.read(true);
    let group = reg.get_group(&"g".to_owned()).unwrap();
    assert_eq!(group.counter(), 3);
    let ids: Vec<String> = group.msgs().iter_by_recency().iter().map(|e| e.0.clone()).collect();
    assert_eq!(ids, vec!["m2".to_owned()]);
}

#[test]
fn zero_capacity_put_group_is_dropped_and_batch_proceeds() {
    let mut guard = DirtyCheckLock::new(GroupList::new());
    let mut pipeline = IngestionPipeline::new();
    pipeline.on_command(ApiMessage::PutGroup(PutGroupMsg { group: meta("bad", 0, 0, 1) }));
    pipeline.on_command(ApiMessage::PutGroup(PutGroupMsg { group: meta("good", 0, 2, 1) }));
    pipeline.flush(&mut guard);
    assert_eq!(registry_ids(&mut guard), vec!["good".to_owned()]);
}

#[test]
fn put_group_replaces_existing_group() {
    let mut guard = DirtyCheckLock::new(GroupList::new());
    let mut pipeline = IngestionPipeline::new();
    pipeline.on_command(ApiMessage::PutGroup(PutGroupMsg { group: meta("g", 0, 10, 5) }));
    pipeline.on_command(ApiMessage::Add(AddMsg {
        group: "g".to_owned(),
        items: vec![msg("m1")],
    }));
    pipeline.flush(&mut guard);
    pipeline.on_command(ApiMessage::PutGroup(PutGroupMsg { group: meta("g", 2, 10, 5) }));
    pipeline.flush(&mut guard);
    let reg = guard.read(false);
    let group = reg.get_group(&"g".to_owned()).unwrap();
    assert_eq!(group.meta().importance, 2);
    assert_eq!(group.msgs().len(), 0);
}

#[test]
fn pipeline_states_and_buffering() {
    let mut guard = DirtyCheckLock::new(GroupList::new());
    let mut pipeline = IngestionPipeline::new();
    assert_eq!(pipeline.state(), PipelineState::Idle);
    assert_eq!(pipeline.buffered(), 0);
    pipeline.on_command(ApiMessage::Config);
    assert_eq!(pipeline.state(), PipelineState::Draining);
    assert_eq!(pipeline.buffered(), 1);
    pipeline.on_quiescence(&mut guard);
    assert_eq!(pipeline.state(), PipelineState::Idle);
    assert_eq!(pipeline.buffered(), 0);
}

#[test]
fn idle_quiescence_leaves_dirty_flag_alone() {
    let mut guard = DirtyCheckLock::new(GroupList::new());
    let mut pipeline = IngestionPipeline::new();
    guard.clear_dirty();
    pipeline.on_quiescence(&mut guard);
    assert!(!guard.is_dirty());
}

#[test]
fn flush_marks_registry_dirty() {
    let mut guard = DirtyCheckLock::new(GroupList::new());
    let mut pipeline = IngestionPipeline::new();
    guard.clear_dirty();
    pipeline.on_command(ApiMessage::PutGroup(PutGroupMsg { group: meta("g", 0, 2, 1) }));
    pipeline.on_quiescence(&mut guard);
    assert!(guard.is_dirty());
}

#[test]
fn dirty_flag_protocol_on_guard() {
    // A consuming read immediately following any write observes dirty; two
    // consecutive consuming reads with no intervening write observe a clean
    // flag on the second.
    let mut guard = DirtyCheckLock::new(7u64);
    assert!(guard.is_dirty());
    guard.clear_dirty();
    assert!(!guard.is_dirty());
    {
        let value = guard.write();
        *value = 8;
    }
    assert!(guard.is_dirty());
    assert_eq!(*guard.read(true), 8);
    assert!(!guard.is_dirty());
    assert_eq!(*guard.read(true), 8);
    assert!(!guard.is_dirty());
    // A write that mutates nothing still sets the flag.
    let _ = guard.write();
    assert!(guard.is_dirty());
    // An ordinary read never clears it.
    assert_eq!(*guard.read(false), 8);
    assert!(guard.is_dirty());
}

#[test]
fn rw_lock_guard_tracks_writes() {
    let mut guard = nadir::util::DirtyCheckRwLock::new(1u32);
    assert!(guard.is_dirty());
    guard.clear_dirty();
    {
        let value = guard.write();
        *value = 2;
    }
    assert!(guard.is_dirty());
    guard.set_dirty(false);
    {
        let value = guard.try_write();
        *value = 3;
    }
    assert!(guard.is_dirty());
    guard.clear_dirty();
    let from_lock = nadir::util::DirtyCheckRwLock::from_lock(9u32);
    assert!(from_lock.is_dirty());
}
