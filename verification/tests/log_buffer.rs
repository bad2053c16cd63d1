use deferred_rc::plan::barriers::log_buffer::{
    GlobalLogBuffer, LogBuffer, LoggedObject, EDGES_WORK_BUFFER_SIZE,
};
use deferred_rc::util::address::{Address, ObjectReference};

fn object(raw: usize) -> ObjectReference {
    ObjectReference::from_raw_address(Address::from_usize(raw)).unwrap()
}

fn groups_in(entries: &[Address]) -> Vec<(ObjectReference, Vec<ObjectReference>)> {
    let mut iter = LogBuffer::iter_object_groups_in(entries);
    let mut groups = Vec::new();
    while let Some(logged) = iter.next() {
        groups.push((logged.object, logged.children()));
    }
    groups
}

#[test]
fn log_buffer_tags_object_starts() {
    let obj = object(0x1000);
    let child = object(0x2000);
    let mut buffer = LogBuffer::new();

    buffer.push_object(obj);
    buffer.push_child(child);

    let entries = buffer.as_slice();
    assert_eq!(entries.len(), 2);
    assert!(LogBuffer::is_object_start(entries[0]));
    assert!(!LogBuffer::is_object_start(entries[1]));
    assert_eq!(LogBuffer::decode_object(entries[0]), obj);
    assert_eq!(LogBuffer::decode_object(entries[1]), child);
    assert_eq!(entries[0].as_usize(), obj.to_raw_address().as_usize() | 1);
    assert_eq!(entries[1].as_usize(), child.to_raw_address().as_usize());
}

#[test]
fn taking_log_buffer_drains_entries() {
    let mut buffer = LogBuffer::new();
    buffer.push_object(object(0x1000));
    buffer.push_child(object(0x2000));

    let entries = buffer.take();

    assert_eq!(entries.len(), 2);
    assert!(buffer.is_empty());
}

#[test]
fn log_buffer_iterates_object_groups() {
    let obj1 = object(0x1000);
    let child1 = object(0x2000);
    let child2 = object(0x3000);
    let obj2 = object(0x4000);
    let child3 = object(0x5000);
    let mut buffer = LogBuffer::new();

    buffer.push_object(obj1);
    buffer.push_child(child1);
    buffer.push_child(child2);
    buffer.push_object(obj2);
    buffer.push_child(child3);

    let mut iter = buffer.iter_object_groups();
    let mut groups: Vec<LoggedObject> = Vec::new();
    while let Some(group) = iter.next() {
        groups.push(group);
    }

    assert_eq!(groups.len(), 2);
    assert_eq!(groups[0].object, obj1);
    assert_eq!(groups[0].children(), vec![child1, child2]);
    assert_eq!(groups[1].object, obj2);
    assert_eq!(groups[1].children(), vec![child3]);
}

#[test]
fn null_is_no_object() {
    assert!(ObjectReference::from_raw_address(Address::from_usize(0)).is_none());
    assert_eq!(object(0x18).to_raw_address(), Address::from_usize(0x18));
}

#[test]
fn a_log_that_starts_with_a_child_has_no_groups() {
    let mut buffer = LogBuffer::default();
    buffer.push_child(object(0x2000));
    buffer.push_object(object(0x1000));
    let mut iter = buffer.iter_object_groups();
    assert!(iter.next().is_none());
    assert!(iter.next().is_none());
}

#[test]
fn objects_without_children_are_groups_of_their_own() {
    let mut buffer = LogBuffer::new();
    buffer.push_object(object(0x1000));
    buffer.push_object(object(0x2000));
    assert_eq!(
        groups_in(buffer.as_slice()),
        vec![(object(0x1000), vec![]), (object(0x2000), vec![])]
    );
}

#[test]
fn encoded_children_are_untagged() {
    let mut buffer = LogBuffer::new();
    buffer.push_object(object(0x1000));
    buffer.push_child(object(0x2000));
    let mut iter = buffer.iter_object_groups();
    let logged = iter.next().unwrap();
    assert_eq!(logged.encoded_children(), &[Address::from_usize(0x2000)]);
}

#[test]
fn a_buffer_is_full_at_the_capacity() {
    let mut buffer = LogBuffer::new();
    buffer.push_object(object(0x1000));
    for _ in 2..EDGES_WORK_BUFFER_SIZE {
        buffer.push_child(object(0x2000));
    }
    assert_eq!(buffer.len(), EDGES_WORK_BUFFER_SIZE - 1);
    assert!(!buffer.is_full());
    buffer.push_child(object(0x2000));
    assert!(buffer.is_full());
}

#[test]
fn combining_keeps_the_groups_of_both_buffers() {
    let mut first = LogBuffer::new();
    first.push_object(object(0x1000));
    first.push_child(object(0x2000));
    let mut second = LogBuffer::new();
    second.push_object(object(0x3000));
    second.push_child(object(0x1000));
    second.push_child(object(0x1000));
    let mut expected = groups_in(first.as_slice());
    expected.extend(groups_in(second.as_slice()));

    let mut global = GlobalLogBuffer::new();
    assert!(global.is_empty());
    global.combine(first.take());
    global.combine(Vec::new());
    global.combine(second.take());
    assert_eq!(global.len(), 5);
    let entries = global.take();
    assert!(global.is_empty());
    assert_eq!(groups_in(&entries), expected);
    assert_eq!(GlobalLogBuffer::default().len(), 0);
}

#[test]
fn groups_are_logged_as_they_were_read() {
    let mut buffer = LogBuffer::new();
    buffer.push_object(object(0x1000));
    buffer.push_child(object(0x2000));
    buffer.push_child(object(0x2000));
    buffer.push_object(object(0x3000));
    buffer.push_object(object(0x2000));
    buffer.push_child(object(0x1000));
    let mut again = LogBuffer::new();
    for (logged, children) in groups_in(buffer.as_slice()) {
        again.push_object(logged);
        for child in children {
            again.push_child(child);
        }
    }
    assert_eq!(again.as_slice(), buffer.as_slice());
}
