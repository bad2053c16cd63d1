use atomic::Ordering;

use deferred_rc::util::address::{Address, ObjectReference, ObjectSet};
use deferred_rc::util::metadata::reference_count::{
    fetch_order_for_update, VMLocalReferenceCountSpec,
};
use deferred_rc::util::metadata::MetadataSpec;
use deferred_rc::vm::heap::Heap;
use deferred_rc::vm::VMBinding;

fn object(raw: usize) -> ObjectReference {
    ObjectReference::from_raw_address(Address::from_usize(raw)).unwrap()
}

#[test]
fn inc_returns_false_without_wrapping_when_ref_count_overflows() {
    let spec = VMLocalReferenceCountSpec::in_header(0, 1);
    let mut heap = Heap::new();
    let object = object(0x1000);
    heap.set_word(object, 0, 0b10);

    assert!(spec.inc(&mut heap, object, Ordering::SeqCst));
    assert_eq!(heap.word(object, 0), 0b11);
    assert!(!spec.inc(&mut heap, object, Ordering::SeqCst));
    assert_eq!(heap.word(object, 0), 0b11);
}

#[test]
fn dec_returns_false_without_wrapping_when_ref_count_underflows() {
    let spec = VMLocalReferenceCountSpec::in_header(0, 1);
    let mut heap = Heap::new();
    let object = object(0x1000);
    heap.set_word(object, 0, 0b01);

    assert!(spec.dec(&mut heap, object, Ordering::SeqCst));
    assert_eq!(heap.word(object, 0), 0);
    assert!(!spec.dec(&mut heap, object, Ordering::SeqCst));
    assert_eq!(heap.word(object, 0), 0);
}

#[test]
fn load_and_store_use_configured_ref_count_width() {
    let spec = VMLocalReferenceCountSpec::in_header(0, 2);
    let mut heap = Heap::new();
    let object = object(0x1000);

    spec.store(&mut heap, object, 3, Ordering::SeqCst);

    assert_eq!(spec.load(&heap, object, Ordering::SeqCst), 3);
    assert_eq!(heap.word(object, 0), 3);
}

#[test]
fn counts_of_every_width_reach_their_maximum() {
    for bits in [1, 2, 7, 8, 9, 16, 17, 32, 33, 63, 64] {
        let spec = VMLocalReferenceCountSpec::in_header(0, bits);
        let max = spec.max_value();
        assert_eq!(max, usize::MAX >> (64 - bits));
        let mut heap = Heap::new();
        let object = object(0x1000);
        spec.store(&mut heap, object, max - 1, Ordering::Release);
        assert!(spec.inc(&mut heap, object, Ordering::AcqRel));
        assert_eq!(spec.load(&heap, object, Ordering::Acquire), max);
        assert!(!spec.inc(&mut heap, object, Ordering::Release));
        assert_eq!(spec.load(&heap, object, Ordering::Relaxed), max);
        assert!(spec.dec(&mut heap, object, Ordering::Relaxed));
        assert_eq!(spec.load(&heap, object, Ordering::SeqCst), max - 1);
    }
}

#[test]
fn a_count_leaves_the_other_bits_of_the_header_alone() {
    let spec = VMLocalReferenceCountSpec::in_header(64 + 4, 3);
    let mut heap = Heap::new();
    let object = object(0x1000);
    heap.set_word(object, 1, 0xf0f);
    heap.set_word(object, 0, 0x77);
    assert_eq!(spec.load(&heap, object, Ordering::SeqCst), 0);
    assert!(spec.inc(&mut heap, object, Ordering::SeqCst));
    assert_eq!(heap.word(object, 1), 0xf1f);
    spec.store(&mut heap, object, 7, Ordering::SeqCst);
    assert_eq!(heap.word(object, 1), 0xf7f);
    assert_eq!(heap.word(object, 0), 0x77);
}

#[test]
fn dec_undoes_inc() {
    let spec = VMLocalReferenceCountSpec::in_header(5, 4);
    let mut heap = Heap::new();
    let object = object(0x1000);
    heap.set_word(object, 0, 0xdead_beef);
    assert!(spec.inc(&mut heap, object, Ordering::SeqCst));
    assert_ne!(heap.word(object, 0), 0xdead_beef);
    assert!(spec.dec(&mut heap, object, Ordering::SeqCst));
    assert_eq!(heap.word(object, 0), 0xdead_beef);
}

#[test]
fn updates_read_with_the_load_part_of_their_order() {
    assert_eq!(fetch_order_for_update(Ordering::Release), Ordering::Relaxed);
    assert_eq!(fetch_order_for_update(Ordering::AcqRel), Ordering::Acquire);
    assert_eq!(fetch_order_for_update(Ordering::Relaxed), Ordering::Relaxed);
    assert_eq!(fetch_order_for_update(Ordering::Acquire), Ordering::Acquire);
    assert_eq!(fetch_order_for_update(Ordering::SeqCst), Ordering::SeqCst);
}

#[test]
fn compare_exchange_changes_only_what_was_expected() {
    let spec = MetadataSpec { bit_offset: 3, num_of_bits: 2 };
    let mut heap = Heap::new();
    let object = object(0x1000);
    spec.store_atomic::<Heap, u8>(&mut heap, object, 2, Ordering::SeqCst);
    let order = Ordering::SeqCst;
    assert_eq!(
        spec.compare_exchange_metadata::<Heap, u8>(&mut heap, object, 1, 3, order, order),
        Err(2)
    );
    assert_eq!(heap.word(object, 0), 0b10_000);
    assert_eq!(
        spec.compare_exchange_metadata::<Heap, u8>(&mut heap, object, 2, 3, order, order),
        Ok(2)
    );
    assert_eq!(heap.word(object, 0), 0b11_000);
}

#[test]
fn the_count_and_the_unlog_bit_of_a_heap_share_no_bit() {
    let mut heap = Heap::new();
    let object = object(0x1000);
    let count = Heap::local_reference_count_spec();
    let bit = Heap::global_log_bit_spec().spec;
    count.store(&mut heap, object, count.max_value(), Ordering::SeqCst);
    assert_eq!(bit.load::<Heap, u8>(&heap, object), 0);
    bit.store_atomic::<Heap, u8>(&mut heap, object, 1, Ordering::SeqCst);
    assert_eq!(count.load(&heap, object, Ordering::SeqCst), count.max_value());
    assert_eq!(bit.load::<Heap, u8>(&heap, object), 1);
}

#[test]
fn object_sets_hold_each_object_once() {
    let mut set = ObjectSet::new();
    assert!(set.insert(object(0x1000)));
    assert!(!set.insert(object(0x1000)));
    assert!(set.contains(&object(0x1000)));
    assert!(!set.contains(&object(0x2000)));
}
