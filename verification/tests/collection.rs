use atomic::Ordering;

use deferred_rc::plan::barriers::Barrier;
use deferred_rc::plan::barriers::BarrierSelector;
use deferred_rc::plan::deferred_reference_counting::gc_work::{
    mark_live, reset_log_bit, CommonWork, DRCProcessEdges, EdgesWork,
    FinishDeferredReferenceCounting, ProcessDeferredReferenceCounts, WorkBucketStage,
};
use deferred_rc::plan::deferred_reference_counting::global::{
    drc_constraints, CreateGeneralPlanArgs, DRCWork, DeferredReferenceCounting, EndOfGCStep,
    GCWorkScheduler, PlanConstraints, PlanFeatures, WorkBucket,
};
use deferred_rc::plan::deferred_reference_counting::mutator::{
    create_drc_mutator, drc_mutator_prepare, drc_mutator_release, reserved_allocators,
    MutatorStep, SpaceId,
};
use deferred_rc::plan::deferred_reference_counting::zero_counts::{
    cascade_zero_counts, cascade_zero_counts_with_children, decrement, increment, ref_count,
    scan_object_children, ScanFields,
};
use deferred_rc::plan::MMTK;
use deferred_rc::policy::{MarkSweepSpace, SpaceArgs};
use deferred_rc::util::address::{Address, ObjectReference};
use deferred_rc::util::allocators::{AllocationSemantics, AllocatorMapping, AllocatorSelector};
use deferred_rc::vm::heap::Heap;
use deferred_rc::vm::{Slot, VMBinding, VMMutatorThread, VMThread, VMWorkerThread};

fn object(raw: usize) -> ObjectReference {
    ObjectReference::from_raw_address(Address::from_usize(raw)).unwrap()
}

fn slot(raw: usize) -> Slot {
    Slot(Address::from_usize(raw))
}

fn set_count(heap: &mut Heap, object: ObjectReference, count: usize) {
    Heap::local_reference_count_spec().store(heap, object, count, Ordering::SeqCst);
}

fn unlogged(heap: &Heap, object: ObjectReference) -> bool {
    Heap::global_log_bit_spec().spec.load::<Heap, u8>(heap, object) != 0
}

/// Gives `object` one field per child.
fn set_children(heap: &mut Heap, object: ObjectReference, children: &[ObjectReference]) {
    let start = object.to_raw_address().as_usize() + 8;
    let mut slots = Vec::new();
    for (i, child) in children.iter().enumerate() {
        let slot = slot(start + 8 * i);
        heap.store_slot(slot, *child);
        slots.push(slot);
    }
    heap.set_fields(object, slots);
}

const WORKER: VMWorkerThread = VMWorkerThread(VMThread(7));

fn features(malloc_mark_sweep: bool, eager_sweeping: bool) -> PlanFeatures {
    PlanFeatures { malloc_mark_sweep, eager_sweeping }
}

fn defaults(needs_prepare_mutator: bool) -> PlanConstraints {
    PlanConstraints {
        moves_objects: true,
        max_non_los_default_alloc_bytes: 1,
        needs_log_bit: false,
        barrier: BarrierSelector::NoBarrier,
        may_trace_duplicate_edges: false,
        needs_prepare_mutator,
    }
}

fn space_args(name: &'static str) -> SpaceArgs {
    SpaceArgs {
        name,
        zeroed: true,
        permission_exec: false,
        unlog_allocated_object: true,
        unlog_traced_object: false,
        discontiguous: false,
    }
}

fn plan(malloc_mark_sweep: bool) -> DeferredReferenceCounting {
    let mut common_mapping = AllocatorMapping::new();
    common_mapping.assign(AllocationSemantics::Los, AllocatorSelector::LargeObject(0));
    common_mapping.assign(AllocationSemantics::Default, AllocatorSelector::BumpPointer(3));
    DeferredReferenceCounting::new(CreateGeneralPlanArgs {
        features: features(malloc_mark_sweep, false),
        max_object_size: 8192,
        default_constraints: defaults(false),
        common_mapping,
        common_spaces: vec![space_args("immortal"), space_args("los")],
    })
}

fn mmtk() -> MMTK<Heap, DeferredReferenceCounting> {
    MMTK { vm: Heap::new(), plan: plan(false) }
}

#[test]
fn zero_count_cascade_processes_a_binary_tree() {
    let mut heap = Heap::new();
    let root = object(0x1000);
    let left = object(0x2000);
    let right = object(0x3000);
    let left_left = object(0x4000);
    let left_right = object(0x5000);
    let right_left = object(0x6000);
    let right_right = object(0x7000);

    set_count(&mut heap, root, 1);
    for object in [left, right, left_left, left_right, right_left, right_right] {
        set_count(&mut heap, object, 1);
    }

    assert!(decrement(&mut heap, root));
    set_children(&mut heap, root, &[left, right]);
    set_children(&mut heap, left, &[left_left, left_right]);
    set_children(&mut heap, right, &[right_left, right_right]);
    let processed = cascade_zero_counts_with_children(&mut heap, vec![root], &ScanFields);

    for object in [root, left, right, left_left, left_right, right_left, right_right] {
        assert!(processed.contains(&object));
        assert_eq!(ref_count(&heap, object), 0);
    }
}

#[test]
fn a_cascade_stops_at_counted_objects() {
    let mut heap = Heap::new();
    let (a, b, c, d) = (object(0x1000), object(0x2000), object(0x3000), object(0x4000));
    set_children(&mut heap, a, &[b, b, c]);
    set_children(&mut heap, b, &[d]);
    set_children(&mut heap, c, &[d]);
    set_count(&mut heap, b, 2);
    set_count(&mut heap, c, 2);
    set_count(&mut heap, d, 2);
    let dead = cascade_zero_counts(&mut heap, vec![a]);
    assert!(dead.contains(&a));
    assert!(dead.contains(&b));
    assert!(!dead.contains(&c));
    assert!(!dead.contains(&d));
    assert_eq!(ref_count(&heap, b), 0);
    assert_eq!(ref_count(&heap, c), 1);
    assert_eq!(ref_count(&heap, d), 1);
}

#[test]
fn the_order_of_the_queue_does_not_matter() {
    for order in [[0, 1, 2], [2, 1, 0], [1, 2, 0]] {
        let mut heap = Heap::new();
        let objects = [object(0x1000), object(0x2000), object(0x3000)];
        set_children(&mut heap, objects[0], &[objects[1]]);
        set_children(&mut heap, objects[1], &[objects[2], objects[1]]);
        set_count(&mut heap, objects[1], 1);
        set_count(&mut heap, objects[2], 2);
        let queue: Vec<ObjectReference> = order.iter().map(|i| objects[*i]).collect();
        let dead = cascade_zero_counts(&mut heap, queue);
        assert!(dead.contains(&objects[0]));
        assert!(dead.contains(&objects[1]));
        assert!(!dead.contains(&objects[2]));
        assert_eq!(ref_count(&heap, objects[2]), 1);
    }
}

#[test]
fn a_child_without_a_count_does_not_die_unless_it_is_looked_at() {
    let mut heap = Heap::new();
    let (a, b) = (object(0x1000), object(0x2000));
    set_children(&mut heap, a, &[b]);
    let dead = cascade_zero_counts(&mut heap, vec![a]);
    assert!(dead.contains(&a));
    assert!(!dead.contains(&b));
    let mut heap = Heap::new();
    set_children(&mut heap, a, &[b]);
    let dead = cascade_zero_counts(&mut heap, vec![a, b, a]);
    assert!(dead.contains(&b));
}

#[test]
fn counts_go_up_and_down() {
    let mut heap = Heap::new();
    let a = object(0x1000);
    assert!(!decrement(&mut heap, a));
    assert!(increment(&mut heap, a));
    assert_eq!(ref_count(&heap, a), 1);
    set_count(&mut heap, a, 0xffff);
    assert!(!increment(&mut heap, a));
    assert_eq!(ref_count(&heap, a), 0xffff);
}

#[test]
fn scanning_skips_null_fields_either_way() {
    let mut heap = Heap::new();
    let (a, b) = (object(0x1000), object(0x2000));
    heap.set_fields(a, vec![slot(8), slot(16), slot(24)]);
    heap.store_slot(slot(8), b);
    heap.store_slot(slot(24), a);
    assert_eq!(scan_object_children(&heap, a), vec![b, a]);
    heap.trace_edges_of(a);
    assert!(!heap.support_slot_enqueuing(WORKER, a));
    assert_eq!(scan_object_children(&heap, a), vec![b, a]);
    assert_eq!(scan_object_children(&heap, b), vec![]);
}

#[test]
fn roots_are_counted_and_remembered() {
    let mut mmtk = mmtk();
    let a = object(0x1000);
    mmtk.vm.store_slot(slot(8), a);
    let work = DRCProcessEdges::new(vec![slot(8), slot(16)], true, WorkBucketStage::Prepare);
    work.process_slot(&mut mmtk, slot(8));
    work.process_slot(&mut mmtk, slot(16));
    assert_eq!(ref_count(&mmtk.vm, a), 1);
    assert_eq!(work.trace_object(&mut mmtk.vm, a), a);
    assert_eq!(ref_count(&mmtk.vm, a), 2);
    let edges = DRCProcessEdges::new(vec![slot(8)], false, WorkBucketStage::Closure);
    edges.process_slot(&mut mmtk, slot(8));
    assert_eq!(ref_count(&mmtk.vm, a), 3);
    assert!(!edges.base().roots);
    assert_eq!(work.base().slots.len(), 2);
    assert!(work.create_scan_work(vec![a]).is_none());
    assert_eq!(mmtk.plan.take_old_roots(), vec![]);
    mmtk.plan.install_new_roots_as_old_roots();
    assert_eq!(mmtk.plan.take_old_roots(), vec![a]);
}

#[test]
fn processing_brings_counts_up_to_date_with_the_log() {
    let mut mmtk = mmtk();
    let (a, b, c, r) = (object(0x1000), object(0x2000), object(0x3000), object(0x4000));
    set_count(&mut mmtk.vm, b, 2);
    set_count(&mut mmtk.vm, r, 1);
    mmtk.plan.add_new_root(r);
    mmtk.plan.install_new_roots_as_old_roots();
    set_children(&mut mmtk.vm, a, &[c, c, b]);
    let start = Address::from_usize(0x1001);
    mmtk.plan.log_buffer_mut().combine(vec![start, b.to_raw_address(), b.to_raw_address()]);
    ProcessDeferredReferenceCounts::new().do_work(&mut mmtk);
    assert_eq!(ref_count(&mmtk.vm, b), 1);
    assert_eq!(ref_count(&mmtk.vm, c), 2);
    assert_eq!(ref_count(&mmtk.vm, r), 0);
    assert!(mmtk.plan.log_buffer_mut().is_empty());
    assert_eq!(mmtk.plan.take_old_roots(), vec![]);
}

#[test]
fn finishing_marks_the_survivors_and_lets_the_rest_die() {
    let mut mmtk = mmtk();
    let (a, b, c, d) = (object(0x1000), object(0x2000), object(0x3000), object(0x4000));
    mmtk.plan.ms_space_mut().add_object(a, 1);
    mmtk.plan.ms_space_mut().add_object(b, 2);
    mmtk.plan.common_mut().space_mut(1).add_object(c, 3);
    mmtk.plan.common_mut().space_mut(0).add_object(d, 4);
    assert_eq!(mmtk.plan.get_used_pages(), 10);
    set_children(&mut mmtk.vm, a, &[c]);
    set_count(&mut mmtk.vm, b, 1);
    set_count(&mut mmtk.vm, c, 1);
    set_count(&mut mmtk.vm, d, 5);
    mmtk.plan.prepare(WORKER);
    mmtk.plan.add_new_root(b);
    FinishDeferredReferenceCounting::new().do_work(&mut mmtk);
    assert!(!mmtk.plan.ms_space().is_marked(a));
    assert!(mmtk.plan.ms_space().is_marked(b));
    assert!(!mmtk.plan.common().space(1).is_marked(c));
    assert!(mmtk.plan.common().space(0).is_marked(d));
    assert!(unlogged(&mmtk.vm, b));
    assert!(unlogged(&mmtk.vm, d));
    assert!(!unlogged(&mmtk.vm, a));
    assert_eq!(ref_count(&mmtk.vm, c), 0);
    mmtk.plan.release(WORKER);
    assert_eq!(mmtk.plan.ms_space().enumerate_objects(), &vec![b]);
    assert!(mmtk.plan.common().space(1).enumerate_objects().is_empty());
    assert_eq!(mmtk.plan.common().space(0).enumerate_objects(), &vec![d]);
    assert_eq!(mmtk.plan.take_old_roots(), vec![b]);
}

fn collect(mmtk: &mut MMTK<Heap, DeferredReferenceCounting>, roots: &[Slot]) {
    mmtk.plan.prepare(WORKER);
    let work = DRCProcessEdges::new(roots.to_vec(), true, WorkBucketStage::Prepare);
    for slot in roots {
        work.process_slot(mmtk, *slot);
    }
    ProcessDeferredReferenceCounts::new().do_work(mmtk);
    FinishDeferredReferenceCounting::new().do_work(mmtk);
    mmtk.plan.release(WORKER);
}

#[test]
fn collections_keep_what_roots_reach_and_reclaim_the_rest() {
    let mut mmtk = mmtk();
    let tls = VMMutatorThread(VMThread(1));
    let mut mutator = create_drc_mutator(tls, &mmtk, Vec::new());
    let (a, b, c) = (object(0x1000), object(0x2000), object(0x3000));
    for o in [a, b, c] {
        mmtk.plan.ms_space_mut().add_object(o, 1);
        reset_log_bit(&mut mmtk.vm, o);
        let start = o.to_raw_address().as_usize() + 8;
        mmtk.vm.set_fields(o, vec![slot(start), slot(start + 8)]);
    }
    let root = slot(8);
    mmtk.vm.store_slot(root, a);
    mutator.barrier.object_reference_write(&mut mmtk, a, slot(0x1008), b);
    mutator.barrier.object_reference_write(&mut mmtk, b, slot(0x2008), c);
    mutator.barrier.flush(&mut mmtk);
    collect(&mut mmtk, &[root]);
    assert_eq!(mmtk.plan.ms_space().enumerate_objects(), &vec![a, b, c]);
    for o in [a, b, c] {
        assert_eq!(ref_count(&mmtk.vm, o), 1);
        assert!(unlogged(&mmtk.vm, o));
    }

    mutator.barrier.object_reference_write(&mut mmtk, a, slot(0x1008), a);
    mutator.barrier.object_reference_write(&mut mmtk, a, slot(0x1010), a);
    assert_eq!(mutator.barrier.log_buffer().len(), 2);
    mutator.barrier.flush(&mut mmtk);
    collect(&mut mmtk, &[root]);
    assert_eq!(mmtk.plan.ms_space().enumerate_objects(), &vec![a]);
    assert_eq!(ref_count(&mmtk.vm, a), 3);
    assert_eq!(ref_count(&mmtk.vm, b), 0);
    assert_eq!(ref_count(&mmtk.vm, c), 0);

    collect(&mut mmtk, &[root]);
    assert_eq!(ref_count(&mmtk.vm, a), 3);
}

#[test]
fn a_collection_is_scheduled_in_two_parts() {
    let mut scheduler = GCWorkScheduler { common_work: None, closure: WorkBucket::new() };
    plan(false).schedule_collection::<Heap>(&mut scheduler);
    assert_eq!(
        scheduler.common_work,
        Some(CommonWork { default_edges: EdgesWork::Count, pinning_edges: EdgesWork::Count })
    );
    assert_eq!(
        scheduler.closure.packets,
        vec![DRCWork::ProcessCounts(ProcessDeferredReferenceCounts::new())]
    );
    assert_eq!(
        scheduler.closure.sentinel,
        Some(DRCWork::Finish(FinishDeferredReferenceCounting::new()))
    );
}

#[test]
fn the_plan_is_set_up_as_its_features_say() {
    let plan_ = plan(false);
    let constraints = plan_.constraints();
    assert!(!constraints.moves_objects);
    assert_eq!(constraints.max_non_los_default_alloc_bytes, 8192);
    assert!(constraints.needs_log_bit);
    assert!(constraints.barrier.equals(BarrierSelector::LogBufferBarrier));
    assert!(constraints.may_trace_duplicate_edges);
    assert!(constraints.needs_prepare_mutator);
    assert!(!plan_.current_gc_may_move_object());
    let args = plan_.ms_space().args();
    assert_eq!(args.name, "drc_ms");
    assert!(args.zeroed && !args.permission_exec && args.discontiguous);
    assert!(args.unlog_allocated_object && args.unlog_traced_object);
    assert_eq!(plan_.common().len(), 2);
    assert_eq!(plan_.common().space(1).args().name, "los");
    for (malloc, eager, default, expected) in [
        (false, false, false, true),
        (true, false, false, false),
        (false, true, false, false),
        (true, true, true, true),
    ] {
        let constraints = drc_constraints(features(malloc, eager), 1, defaults(default));
        assert_eq!(constraints.needs_prepare_mutator, expected);
    }
}

#[test]
fn the_default_allocator_serves_the_mark_sweep_space() {
    for (malloc, selector) in [
        (false, AllocatorSelector::FreeList(0)),
        (true, AllocatorSelector::Malloc(0)),
    ] {
        let plan = plan(malloc);
        let mapping = plan.get_allocator_mapping();
        assert_eq!(mapping.select(AllocationSemantics::Default), selector);
        assert_eq!(
            mapping.select(AllocationSemantics::Los),
            AllocatorSelector::LargeObject(0)
        );
        assert_eq!(
            mapping.select(AllocationSemantics::NonMoving),
            AllocatorSelector::Absent
        );
        let reserved = reserved_allocators(features(malloc, false));
        assert_eq!(reserved.n_malloc, malloc as u8);
        assert_eq!(reserved.n_free_list, !malloc as u8);
        assert_eq!(reserved.n_immix, 0);

        let mmtk = MMTK { vm: Heap::new(), plan };
        let tls = VMMutatorThread(VMThread(1));
        let common = (AllocatorSelector::LargeObject(0), SpaceId::Common(1));
        let mutator = create_drc_mutator(tls, &mmtk, vec![common]);
        assert_eq!(
            mutator.config.space_mapping,
            vec![common, (selector, SpaceId::MarkSweep)]
        );
        assert_eq!(
            mutator.config.allocator_mapping.select(AllocationSemantics::Default),
            selector
        );
        assert_eq!(
            mutator.config.allocator_mapping.select(AllocationSemantics::Los),
            AllocatorSelector::LargeObject(0)
        );
        assert_eq!(mutator.mutator_tls, tls);
        assert!(mutator.barrier.log_buffer().is_empty());
        let mut prepare = vec![MutatorStep::PrepareCommon(WORKER)];
        let mut release = vec![MutatorStep::ReleaseCommon(WORKER)];
        if !malloc {
            prepare.insert(0, MutatorStep::PrepareFreeList(0));
            release.insert(0, MutatorStep::ReleaseFreeList(0));
        }
        assert_eq!(drc_mutator_prepare(&mutator, WORKER), prepare);
        assert_eq!(drc_mutator_release(&mutator, WORKER), release);
    }
}

#[test]
fn spaces_forget_marks_only_for_the_full_heap() {
    let mut space = MarkSweepSpace::new(space_args("some"));
    let (a, b) = (object(0x1000), object(0x2000));
    space.add_object(a, 1);
    space.add_object(b, 1);
    space.add_object(a, 0);
    assert!(space.trace_object(a));
    assert!(!space.trace_object(a));
    space.prepare(false);
    assert!(space.is_marked(a));
    space.release();
    assert_eq!(space.enumerate_objects(), &vec![a, a]);
    space.prepare(true);
    assert!(!space.is_marked(a));
    mark_live(&mut space, b);
    space.release();
    assert!(space.enumerate_objects().is_empty());
    assert_eq!(space.reserved_pages(), 2);
}

#[test]
fn a_duplicate_of_a_mapping_is_independent() {
    let mut mapping = AllocatorMapping::new();
    mapping.assign(AllocationSemantics::Los, AllocatorSelector::LargeObject(2));
    let copy = mapping.duplicate();
    mapping.assign(AllocationSemantics::Los, AllocatorSelector::Immix(1));
    assert_eq!(copy.select(AllocationSemantics::Los), AllocatorSelector::LargeObject(2));
    assert_eq!(mapping.select(AllocationSemantics::Los), AllocatorSelector::Immix(1));
    for semantics in [
        AllocationSemantics::Default,
        AllocationSemantics::Immortal,
        AllocationSemantics::Code,
        AllocationSemantics::ReadOnly,
        AllocationSemantics::LargeCode,
        AllocationSemantics::NonMoving,
    ] {
        assert_eq!(mapping.select(semantics), AllocatorSelector::Absent);
    }
}

#[test]
fn an_object_in_several_slots_is_counted_for_each() {
    let mut mmtk = mmtk();
    let (a, b) = (object(0x1000), object(0x2000));
    mmtk.vm.store_slot(slot(8), a);
    mmtk.vm.store_slot(slot(16), b);
    mmtk.vm.store_slot(slot(32), a);
    let slots = vec![slot(8), slot(16), slot(24), slot(32)];
    let work = DRCProcessEdges::new(slots.clone(), true, WorkBucketStage::Prepare);
    for slot in slots {
        work.process_slot(&mut mmtk, slot);
    }
    assert_eq!(ref_count(&mmtk.vm, a), 2);
    assert_eq!(ref_count(&mmtk.vm, b), 1);
    mmtk.plan.install_new_roots_as_old_roots();
    assert_eq!(mmtk.plan.take_old_roots(), vec![a, b, a]);
}

#[test]
fn garbage_in_a_cycle_stays() {
    let mut mmtk = mmtk();
    let mut mutator = create_drc_mutator(VMMutatorThread(VMThread(1)), &mmtk, Vec::new());
    let (a, b) = (object(0x1000), object(0x2000));
    for (o, field) in [(a, 0x1008), (b, 0x2008)] {
        mmtk.plan.ms_space_mut().add_object(o, 1);
        mmtk.vm.set_fields(o, vec![slot(field)]);
        reset_log_bit(&mut mmtk.vm, o);
    }
    mutator.barrier.object_reference_write(&mut mmtk, a, slot(0x1008), b);
    mutator.barrier.object_reference_write(&mut mmtk, b, slot(0x2008), a);
    mutator.barrier.flush(&mut mmtk);
    collect(&mut mmtk, &[]);
    assert_eq!(mmtk.plan.ms_space().enumerate_objects(), &vec![a, b]);
    assert_eq!(ref_count(&mmtk.vm, a), 1);
    assert_eq!(ref_count(&mmtk.vm, b), 1);
}

#[test]
fn objects_die_when_their_roots_go() {
    let mut mmtk = mmtk();
    let a = object(0x1000);
    mmtk.plan.ms_space_mut().add_object(a, 1);
    mmtk.vm.store_slot(slot(8), a);
    collect(&mut mmtk, &[slot(8)]);
    assert_eq!(mmtk.plan.ms_space().enumerate_objects(), &vec![a]);
    collect(&mut mmtk, &[]);
    assert!(mmtk.plan.ms_space().enumerate_objects().is_empty());
}

#[test]
fn a_collection_ends_in_the_mark_sweep_space_first() {
    assert_eq!(
        plan(false).end_of_gc(WORKER),
        vec![EndOfGCStep::MarkSweep, EndOfGCStep::Common(WORKER)]
    );
}
