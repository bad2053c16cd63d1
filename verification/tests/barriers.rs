use deferred_rc::plan::barriers::log_attempt::{log_step, try_log, LogAction, LogEvent};
use deferred_rc::plan::barriers::log_barrier::LogBufferBarrier;
use deferred_rc::plan::barriers::log_buffer::EDGES_WORK_BUFFER_SIZE;
use deferred_rc::plan::barriers::object_barrier::{BarrierSemantics, ObjectBarrier, SATBBarrier};
use deferred_rc::plan::barriers::{Barrier, BarrierSelector, NoBarrier};
use deferred_rc::plan::deferred_reference_counting::gc_work::reset_log_bit;
use deferred_rc::plan::deferred_reference_counting::global::{
    CreateGeneralPlanArgs, DeferredReferenceCounting, PlanConstraints, PlanFeatures,
};
use deferred_rc::plan::deferred_reference_counting::mutator::DRCBarrierSemantics;
use deferred_rc::plan::{Moment, MMTK};
use deferred_rc::util::address::{Address, ObjectReference};
use deferred_rc::util::allocators::AllocatorMapping;
use deferred_rc::util::metadata::MetadataSpec;
use deferred_rc::vm::heap::Heap;
use deferred_rc::vm::{MemorySlice, Slot, VMBinding, VMMutatorThread, VMThread};

fn object(raw: usize) -> ObjectReference {
    ObjectReference::from_raw_address(Address::from_usize(raw)).unwrap()
}

fn slot(raw: usize) -> Slot {
    Slot(Address::from_usize(raw))
}

fn slice(raw: usize, slots: usize) -> MemorySlice {
    MemorySlice { start: Address::from_usize(raw), slots }
}

fn unlogged(heap: &Heap, object: ObjectReference) -> bool {
    Heap::global_log_bit_spec().spec.load::<Heap, u8>(heap, object) != 0
}

/// What a slow path was told.
#[derive(Debug, PartialEq)]
enum Call {
    Flush,
    Write(ObjectReference, Slot, Option<ObjectReference>),
    Copy(MemorySlice, MemorySlice),
    Probable(ObjectReference),
    Weak(ObjectReference),
}

/// A slow path that writes down in the plan what it is told.
struct Recorder;

type RecorderAt = Moment<Recorder, Vec<Call>>;

impl BarrierSemantics for Recorder {
    type VM = Heap;
    type Plan = Vec<Call>;

    fn unlog_bit() -> MetadataSpec {
        unreachable!()
    }

    fn flushed(_: RecorderAt, _: RecorderAt) -> bool {
        unreachable!()
    }

    fn write_handled(
        _: RecorderAt,
        _: ObjectReference,
        _: Slot,
        _: Option<ObjectReference>,
        _: RecorderAt,
    ) -> bool {
        unreachable!()
    }

    fn region_copied(_: RecorderAt, _: MemorySlice, _: MemorySlice, _: RecorderAt) -> bool {
        unreachable!()
    }

    fn probable_write_handled(_: RecorderAt, _: ObjectReference, _: RecorderAt) -> bool {
        unreachable!()
    }

    fn weak_reference_loaded(_: RecorderAt, _: ObjectReference, _: RecorderAt) -> bool {
        unreachable!()
    }

    fn unlog_bit_spec() -> MetadataSpec {
        Heap::global_log_bit_spec().spec
    }

    fn flush(&mut self, mmtk: &mut MMTK<Heap, Vec<Call>>) {
        mmtk.plan.push(Call::Flush);
    }

    fn object_reference_write_slow(
        &mut self,
        mmtk: &mut MMTK<Heap, Vec<Call>>,
        src: ObjectReference,
        slot: Slot,
        target: Option<ObjectReference>,
    ) {
        mmtk.plan.push(Call::Write(src, slot, target));
    }

    fn memory_region_copy_slow(
        &mut self,
        mmtk: &mut MMTK<Heap, Vec<Call>>,
        src: MemorySlice,
        dst: MemorySlice,
    ) {
        mmtk.plan.push(Call::Copy(src, dst));
    }

    fn object_probable_write_slow(
        &mut self,
        mmtk: &mut MMTK<Heap, Vec<Call>>,
        obj: ObjectReference,
    ) {
        mmtk.plan.push(Call::Probable(obj));
    }

    fn load_weak_reference(&mut self, mmtk: &mut MMTK<Heap, Vec<Call>>, o: ObjectReference) {
        mmtk.plan.push(Call::Weak(o));
    }
}

fn mmtk() -> MMTK<Heap, Vec<Call>> {
    MMTK { vm: Heap::new(), plan: Vec::new() }
}

fn drc() -> MMTK<Heap, DeferredReferenceCounting> {
    let plan = DeferredReferenceCounting::new(CreateGeneralPlanArgs {
        features: PlanFeatures { malloc_mark_sweep: false, eager_sweeping: false },
        max_object_size: 8192,
        default_constraints: PlanConstraints {
            moves_objects: true,
            max_non_los_default_alloc_bytes: 1,
            needs_log_bit: false,
            barrier: BarrierSelector::NoBarrier,
            may_trace_duplicate_edges: false,
            needs_prepare_mutator: true,
        },
        common_mapping: AllocatorMapping::new(),
        common_spaces: Vec::new(),
    });
    MMTK { vm: Heap::new(), plan }
}

fn log_barrier() -> LogBufferBarrier<DRCBarrierSemantics<Heap>> {
    LogBufferBarrier::new(DRCBarrierSemantics::new(), VMMutatorThread(VMThread(1)))
}

#[test]
fn selectors_equal_themselves_alone() {
    let all = [
        BarrierSelector::NoBarrier,
        BarrierSelector::ObjectBarrier,
        BarrierSelector::SATBBarrier,
        BarrierSelector::LogBufferBarrier,
    ];
    for (i, a) in all.iter().enumerate() {
        for (j, b) in all.iter().enumerate() {
            assert_eq!(a.equals(*b), i == j);
        }
    }
}

#[test]
fn an_attempt_to_log_decides_by_the_bit_and_the_exchange() {
    assert_eq!(log_step(LogEvent::Begin), LogAction::Load);
    assert_eq!(log_step(LogEvent::Loaded(0)), LogAction::Finish(false));
    assert_eq!(log_step(LogEvent::Loaded(1)), LogAction::Exchange);
    assert_eq!(log_step(LogEvent::Exchanged(true)), LogAction::Finish(true));
    assert_eq!(log_step(LogEvent::Exchanged(false)), LogAction::Load);
}

#[test]
fn an_object_is_logged_once() {
    let mut heap = Heap::new();
    let a = object(0x1000);
    let bit = Heap::global_log_bit_spec().spec;
    assert!(!try_log(&mut heap, bit, a));
    reset_log_bit(&mut heap, a);
    assert!(try_log(&mut heap, bit, a));
    assert!(!unlogged(&heap, a));
    assert!(!try_log(&mut heap, bit, a));
}

#[test]
fn no_barrier_only_writes() {
    let mut mmtk: MMTK<Heap, ()> = MMTK { vm: Heap::new(), plan: () };
    let (a, b) = (object(0x1000), object(0x2000));
    let mut barrier = NoBarrier;
    barrier.object_reference_write(&mut mmtk, a, slot(8), b);
    assert_eq!(mmtk.vm.load_slot(slot(8)), Some(b));
    barrier.memory_region_copy(&mut mmtk, slice(8, 1), slice(16, 1));
    assert_eq!(mmtk.vm.load_slot(slot(16)), Some(b));
    barrier.object_probable_write(&mut mmtk, a);
    barrier.flush(&mut mmtk);
}

#[test]
fn the_log_barrier_logs_former_children_before_the_first_write() {
    let mut mmtk = drc();
    let (a, b, c) = (object(0x1000), object(0x2000), object(0x3000));
    mmtk.vm.set_fields(a, vec![slot(8), slot(16)]);
    mmtk.vm.store_slot(slot(16), b);
    reset_log_bit(&mut mmtk.vm, a);
    let mut barrier = log_barrier();
    barrier.object_reference_write(&mut mmtk, a, slot(16), c);
    assert_eq!(mmtk.vm.load_slot(slot(16)), Some(c));
    let expected = vec![Address::from_usize(0x1001), Address::from_usize(0x2000)];
    assert_eq!(barrier.log_buffer().as_slice(), expected.as_slice());
    assert!(!unlogged(&mmtk.vm, a));
    barrier.object_reference_write(&mut mmtk, a, slot(8), c);
    barrier.object_probable_write(&mut mmtk, a);
    barrier.object_reference_write_slow(&mut mmtk, a, slot(8), None);
    assert_eq!(barrier.log_buffer().len(), 2);
    assert!(mmtk.plan.log_buffer_mut().is_empty());
    barrier.flush(&mut mmtk);
    barrier.flush(&mut mmtk);
    assert!(barrier.log_buffer().is_empty());
    assert_eq!(mmtk.plan.log_buffer_mut().take(), expected);
    reset_log_bit(&mut mmtk.vm, a);
    barrier.object_probable_write(&mut mmtk, a);
    assert_eq!(barrier.log_buffer().len(), 3);
}

#[test]
fn a_full_log_buffer_is_flushed() {
    let mut mmtk = drc();
    let mut barrier = log_barrier();
    for i in 1..EDGES_WORK_BUFFER_SIZE {
        let o = object(i * 16);
        reset_log_bit(&mut mmtk.vm, o);
        barrier.object_reference_write_pre(&mut mmtk, o, slot(8), None);
    }
    assert_eq!(barrier.log_buffer().len(), EDGES_WORK_BUFFER_SIZE - 1);
    assert!(mmtk.plan.log_buffer_mut().is_empty());
    let last = object(EDGES_WORK_BUFFER_SIZE * 16);
    reset_log_bit(&mut mmtk.vm, last);
    barrier.object_reference_write_pre(&mut mmtk, last, slot(8), None);
    assert!(barrier.log_buffer().is_empty());
    assert_eq!(mmtk.plan.log_buffer_mut().len(), EDGES_WORK_BUFFER_SIZE);
}

#[test]
fn the_log_barrier_logs_nothing_for_copies() {
    let mut mmtk = drc();
    let mut barrier = log_barrier();
    mmtk.vm.store_slot(slot(8), object(0x1000));
    barrier.memory_region_copy(&mut mmtk, slice(8, 2), slice(16, 2));
    assert!(barrier.log_buffer().is_empty());
    assert!(mmtk.plan.log_buffer_mut().is_empty());
    assert_eq!(mmtk.vm.load_slot(slot(16)), Some(object(0x1000)));
    assert_eq!(mmtk.vm.load_slot(slot(24)), None);
}

#[test]
fn overlapping_copies_read_before_they_write() {
    let mut heap = Heap::new();
    for (raw, target) in [(8, 0x1000), (16, 0x2000), (24, 0x3000)] {
        heap.store_slot(slot(raw), object(target));
    }
    heap.copy_slots(slice(8, 3), slice(16, 3));
    assert_eq!(heap.load_slot(slot(8)), Some(object(0x1000)));
    assert_eq!(heap.load_slot(slot(16)), Some(object(0x1000)));
    assert_eq!(heap.load_slot(slot(24)), Some(object(0x2000)));
    assert_eq!(heap.load_slot(slot(32)), Some(object(0x3000)));
}

#[test]
fn the_object_barrier_acts_after_the_first_write() {
    let mut mmtk = mmtk();
    let (a, b) = (object(0x1000), object(0x2000));
    let mut barrier = ObjectBarrier::new(Recorder);
    barrier.object_reference_write(&mut mmtk, a, slot(8), b);
    assert!(mmtk.plan.is_empty());
    reset_log_bit(&mut mmtk.vm, a);
    barrier.object_reference_write_pre(&mut mmtk, a, slot(8), Some(b));
    assert!(unlogged(&mmtk.vm, a));
    barrier.object_reference_write(&mut mmtk, a, slot(8), b);
    barrier.object_reference_write(&mut mmtk, a, slot(8), b);
    assert_eq!(mmtk.plan, vec![Call::Write(a, slot(8), Some(b))]);
    assert!(!unlogged(&mmtk.vm, a));
}

#[test]
fn the_object_barrier_passes_probable_writes_of_unlogged_objects_on() {
    let mut mmtk = mmtk();
    let a = object(0x1000);
    let mut barrier = ObjectBarrier::new(Recorder);
    barrier.object_probable_write(&mut mmtk, a);
    assert!(mmtk.plan.is_empty());
    reset_log_bit(&mut mmtk.vm, a);
    barrier.object_probable_write(&mut mmtk, a);
    assert!(unlogged(&mmtk.vm, a));
    barrier.load_weak_reference(&mut mmtk, a);
    barrier.memory_region_copy(&mut mmtk, slice(8, 1), slice(16, 1));
    barrier.flush(&mut mmtk);
    assert_eq!(
        mmtk.plan,
        vec![Call::Probable(a), Call::Copy(slice(8, 1), slice(16, 1)), Call::Flush]
    );
}

#[test]
fn the_satb_barrier_acts_before_every_write_to_an_unlogged_object() {
    let mut mmtk = mmtk();
    let (a, b) = (object(0x1000), object(0x2000));
    let mut barrier = SATBBarrier::new(Recorder);
    barrier.object_reference_write_pre(&mut mmtk, a, slot(8), Some(b));
    assert!(mmtk.plan.is_empty());
    reset_log_bit(&mut mmtk.vm, a);
    barrier.object_reference_write_pre(&mut mmtk, a, slot(8), Some(b));
    barrier.object_reference_write_slow(&mut mmtk, b, slot(16), None);
    barrier.memory_region_copy_pre(&mut mmtk, slice(8, 1), slice(16, 1));
    barrier.object_probable_write(&mut mmtk, b);
    barrier.flush(&mut mmtk);
    assert!(unlogged(&mmtk.vm, a));
    assert_eq!(
        mmtk.plan,
        vec![
            Call::Write(a, slot(8), Some(b)),
            Call::Write(b, slot(16), None),
            Call::Copy(slice(8, 1), slice(16, 1)),
            Call::Probable(b),
            Call::Flush,
        ]
    );
}

#[test]
fn the_satb_barrier_sees_weak_references_while_it_is_told_to() {
    let mut mmtk = mmtk();
    let a = object(0x1000);
    let mut barrier = SATBBarrier::new(Recorder);
    barrier.load_weak_reference(&mut mmtk, a);
    barrier.set_weak_ref_barrier_enabled(true);
    barrier.load_weak_reference(&mut mmtk, a);
    barrier.set_weak_ref_barrier_enabled(false);
    barrier.load_weak_reference(&mut mmtk, a);
    assert_eq!(mmtk.plan, vec![Call::Weak(a)]);
}

/// Lets two attempts take turns as the bits of `schedule` say, until both are over, and tells which
/// of them logged the object.
///
/// The first exchanges fail as the bits of `disturbances` say, while other bits of the header word
/// change.
fn race(mut unlogged: bool, mut schedule: u32, mut disturbances: u32) -> [bool; 2] {
    let mut actions = [log_step(LogEvent::Begin); 2];
    let mut logged = [None; 2];
    while logged.contains(&None) {
        let turn = (schedule & 1) as usize;
        schedule = (schedule >> 1) | ((schedule & 1) ^ 1) << 31;
        match actions[turn] {
            LogAction::Load => actions[turn] = log_step(LogEvent::Loaded(unlogged as u8)),
            LogAction::Exchange => {
                if disturbances & 1 == 1 {
                    actions[turn] = log_step(LogEvent::Exchanged(false));
                } else {
                    actions[turn] = log_step(LogEvent::Exchanged(unlogged));
                    unlogged = false;
                }
                disturbances >>= 1;
            }
            LogAction::Finish(won) => logged[turn] = Some(won),
        }
    }
    assert!(!unlogged);
    [logged[0].unwrap(), logged[1].unwrap()]
}

#[test]
fn one_of_two_racing_attempts_logs() {
    for schedule in 0..0x400 {
        let [first, second] = race(true, schedule, 0);
        assert!(first != second);
        assert_eq!(race(false, schedule, 0), [false, false]);
    }
}

#[test]
fn one_of_two_racing_attempts_logs_despite_failed_exchanges() {
    for schedule in 0..0x100 {
        for disturbances in 0..0x20 {
            let [first, second] = race(true, schedule, disturbances);
            assert!(first != second);
        }
    }
}

#[test]
fn mutators_share_the_unlog_bits() {
    let mut mmtk = drc();
    let (a, b, c) = (object(0x1000), object(0x2000), object(0x3000));
    for (o, field) in [(a, 0x1008), (b, 0x2008)] {
        mmtk.vm.set_fields(o, vec![slot(field)]);
        mmtk.vm.store_slot(slot(field), c);
        reset_log_bit(&mut mmtk.vm, o);
    }
    let mut first = log_barrier();
    let mut second = log_barrier();
    first.object_reference_write(&mut mmtk, a, slot(0x1008), b);
    second.object_reference_write(&mut mmtk, a, slot(0x1008), a);
    second.object_reference_write(&mut mmtk, b, slot(0x2008), a);
    assert_eq!(first.log_buffer().len(), 2);
    assert_eq!(second.log_buffer().len(), 2);
    second.flush(&mut mmtk);
    first.flush(&mut mmtk);
    let entries: Vec<usize> =
        mmtk.plan.log_buffer_mut().take().iter().map(|entry| entry.as_usize()).collect();
    assert_eq!(entries, vec![0x2001, 0x3000, 0x1001, 0x3000]);
}

#[test]
fn after_a_probable_write_fields_change_without_a_barrier() {
    let mut mmtk = drc();
    let (a, b, c) = (object(0x1000), object(0x2000), object(0x3000));
    mmtk.vm.set_fields(a, vec![slot(0x1008)]);
    mmtk.vm.store_slot(slot(0x1008), b);
    reset_log_bit(&mut mmtk.vm, a);
    let mut barrier = log_barrier();
    barrier.object_probable_write(&mut mmtk, a);
    mmtk.vm.store_slot(slot(0x1008), c);
    barrier.object_reference_write(&mut mmtk, a, slot(0x1008), a);
    let expected = [Address::from_usize(0x1001), Address::from_usize(0x2000)];
    assert_eq!(barrier.log_buffer().as_slice(), &expected);
}

#[test]
fn a_large_object_does_not_leave_the_buffer_full() {
    let mut mmtk = drc();
    let a = object(0x1000);
    let fields: Vec<Slot> = (1..EDGES_WORK_BUFFER_SIZE + 8).map(|i| slot(0x1000 + 8 * i)).collect();
    for field in &fields {
        mmtk.vm.store_slot(*field, a);
    }
    mmtk.vm.set_fields(a, fields);
    reset_log_bit(&mut mmtk.vm, a);
    let mut barrier = log_barrier();
    barrier.object_reference_write(&mut mmtk, a, slot(0x1008), a);
    assert!(barrier.log_buffer().is_empty());
    assert_eq!(mmtk.plan.log_buffer_mut().len(), EDGES_WORK_BUFFER_SIZE + 8);
}

#[test]
fn copies_to_a_logged_object_are_covered_by_its_log() {
    let mut mmtk = drc();
    let (a, b, c) = (object(0x1000), object(0x2000), object(0x3000));
    mmtk.vm.set_fields(a, vec![slot(0x1008), slot(0x1010)]);
    mmtk.vm.store_slot(slot(0x1008), b);
    mmtk.vm.store_slot(slot(0x4000), c);
    reset_log_bit(&mut mmtk.vm, a);
    let mut barrier = log_barrier();
    barrier.object_probable_write(&mut mmtk, a);
    barrier.memory_region_copy(&mut mmtk, slice(0x4000, 2), slice(0x1008, 2));
    assert_eq!(mmtk.vm.load_slot(slot(0x1008)), Some(c));
    let expected = [Address::from_usize(0x1001), Address::from_usize(0x2000)];
    assert_eq!(barrier.log_buffer().as_slice(), &expected);
}
