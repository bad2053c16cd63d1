//! The work of a deferred reference counting collection.
//!
//! A collection counts the references from roots, then takes back those of the last collection and
//! brings the counts of logged objects up to date, and at last lets go of the objects whose count
//! is zero.

use std::marker::PhantomData;

use atomic::Ordering;
use vstd::prelude::*;

use crate::plan::barriers::log_attempt::is_unlogged;
use crate::plan::barriers::log_buffer::{
    all_decodable, logged_groups, Group, LogBuffer, LogBufferObjectIter, LoggedObject,
};
use crate::plan::deferred_reference_counting::cascade::{
    is_death_order, law_the_dead_are_unique, law_the_dead_die_in_order, law_the_dead_exist,
    law_the_dead_have_no_count, references, Cascade,
};
use crate::plan::deferred_reference_counting::global::{
    law_the_objects_of_a_plan, objects_in, DRCView, DeferredReferenceCounting,
};
use crate::plan::deferred_reference_counting::zero_counts::{
    after_death, cascade_in, cascade_zero_counts, count_of, decrement, increment,
    law_what_a_cascade_leaves, ref_count, scan_object_children, ScanChildren,
    ScanFields,
};
use crate::plan::MMTK;
use crate::policy::{MarkSweepSpace, SpaceView};
use crate::util::address::{Address, ObjectReference, ObjectSet};
use crate::util::metadata::reference_count::law_counts_never_wrap;
use crate::util::metadata::{
    law_metadata_overwrite, law_metadata_write, lemma_low_mask, MetadataSpec,
};
use crate::vm::{Memory, Slot, VMBinding};

verus! {

/// The memory after the count of each of `objects` was decremented, one after the other.
pub open spec fn all_decremented<VM: VMBinding>(
    memory: Memory,
    objects: Seq<ObjectReference>,
) -> Memory
    decreases objects.len(),
{
    if objects.len() == 0 {
        memory
    } else {
        VM::count_spec().decremented(
            all_decremented::<VM>(memory, objects.drop_last()),
            objects.last(),
        )
    }
}

/// The memory after the count of each of `objects` was incremented, one after the other.
pub open spec fn all_incremented<VM: VMBinding>(
    memory: Memory,
    objects: Seq<ObjectReference>,
) -> Memory
    decreases objects.len(),
{
    if objects.len() == 0 {
        memory
    } else {
        VM::count_spec().incremented(
            all_incremented::<VM>(memory, objects.drop_last()),
            objects.last(),
        )
    }
}

/// The memory after the counts were brought up to date with one logged object: its former children
/// were decremented, and then its present ones were incremented.
pub open spec fn group_counted<VM: VMBinding>(memory: Memory, group: Group) -> Memory {
    let without = all_decremented::<VM>(memory, group.children);
    all_incremented::<VM>(without, without.children(group.object))
}

/// The memory after the counts were brought up to date with the given logged objects, one after the
/// other.
pub open spec fn groups_counted<VM: VMBinding>(memory: Memory, groups: Seq<Group>) -> Memory
    decreases groups.len(),
{
    if groups.len() == 0 {
        memory
    } else {
        group_counted::<VM>(groups_counted::<VM>(memory, groups.drop_last()), groups.last())
    }
}

/// Decrements the count of each of the given objects.
fn decrement_all<VM: VMBinding>(vm: &mut VM, objects: &Vec<ObjectReference>)
    ensures
        final(vm)@ == all_decremented::<VM>(old(vm)@, objects@),
{
    let mut i: usize = 0;
    while i < objects.len()
        invariant
            i <= objects@.len(),
            vm@ == all_decremented::<VM>(old(vm)@, objects@.take(i as int)),
        decreases objects@.len() - i,
    {
        decrement::<VM>(vm, objects[i]);
        i = i + 1;
        assert(objects@.take(i as int).drop_last() =~= objects@.take(i - 1));
    }
    assert(objects@.take(i as int) =~= objects@);
}

/// Increments the count of each of the given objects.
fn increment_all<VM: VMBinding>(vm: &mut VM, objects: &Vec<ObjectReference>)
    ensures
        final(vm)@ == all_incremented::<VM>(old(vm)@, objects@),
{
    let mut i: usize = 0;
    while i < objects.len()
        invariant
            i <= objects@.len(),
            vm@ == all_incremented::<VM>(old(vm)@, objects@.take(i as int)),
        decreases objects@.len() - i,
    {
        increment::<VM>(vm, objects[i]);
        i = i + 1;
        assert(objects@.take(i as int).drop_last() =~= objects@.take(i - 1));
    }
    assert(objects@.take(i as int) =~= objects@);
}

/// What is done to the slots that a collection finds.
#[derive(Clone, Copy, PartialEq, Eq, Structural, Debug)]
pub enum EdgesWork {
    /// Their references are counted.
    Count,
    /// Their referents are traced.
    Trace,
}

/// Work on slots.
pub trait ProcessEdgesWork {
    /// What the work does to its slots.
    spec fn does() -> EdgesWork;

    /// What the work does to its slots.
    fn edges_work() -> (work: EdgesWork)
        ensures
            work == Self::does(),
    ;
}

/// The work that collections of all plans have in common, as a plan wants it done.
#[derive(Clone, Copy, PartialEq, Eq, Structural, Debug)]
pub struct CommonWork {
    /// What is done to the slots that hold roots and references.
    pub default_edges: EdgesWork,
    /// What is done to the slots whose referents must not move.
    pub pinning_edges: EdgesWork,
}

/// The types of work that a collection of the plan is made of.
pub trait GCWorkContext {
    /// The runtime.
    type VM: VMBinding;

    /// The plan.
    type PlanType;

    /// What is done to the slots that hold roots and references.
    type DefaultProcessEdges: ProcessEdgesWork;

    /// What is done to the slots whose referents must not move.
    type PinningProcessEdges: ProcessEdgesWork;
}

/// The common work in a context.
pub open spec fn common_work_in<C: GCWorkContext>() -> CommonWork {
    CommonWork {
        default_edges: C::DefaultProcessEdges::does(),
        pinning_edges: C::PinningProcessEdges::does(),
    }
}

/// The types of work that a collection of this plan is made of.
pub struct DRCGCWorkContext<VM: VMBinding> {
    runtime: PhantomData<VM>,
}

impl<VM: VMBinding> GCWorkContext for DRCGCWorkContext<VM> {
    type VM = VM;

    type PlanType = DeferredReferenceCounting;

    type DefaultProcessEdges = DRCProcessEdges;

    type PinningProcessEdges = DRCProcessEdges;
}

/// The stages of a collection that work on slots.
#[derive(Clone, Copy, PartialEq, Eq, Structural, Debug)]
pub enum WorkBucketStage {
    Prepare,
    Closure,
    Release,
}

/// Slots whose referents are processed together.
pub struct ProcessEdgesBase {
    /// The slots.
    pub slots: Vec<Slot>,
    /// The slots are roots.
    pub roots: bool,
    /// The stage that the work belongs to.
    pub bucket: WorkBucketStage,
}

/// Objects to be scanned for more references.
pub struct ScanObjects {
    /// The objects.
    pub nodes: Vec<ObjectReference>,
}

/// Counts the references in slots, and remembers the objects that roots refer to.
pub struct DRCProcessEdges {
    base: ProcessEdgesBase,
}

/// The memory after the reference in `slot` was counted.
pub open spec fn slot_counted<VM: VMBinding>(memory: Memory, slot: Slot) -> Memory {
    match memory.slot(slot) {
        Some(object) => VM::count_spec().incremented(memory, object),
        None => memory,
    }
}

impl ProcessEdgesWork for DRCProcessEdges {
    open spec fn does() -> EdgesWork {
        EdgesWork::Count
    }

    fn edges_work() -> (work: EdgesWork) {
        EdgesWork::Count
    }
}

impl DRCProcessEdges {
    /// The slots are roots.
    pub closed spec fn are_roots(self) -> bool {
        self.base.roots
    }

    /// The slots.
    pub closed spec fn slots(self) -> Seq<Slot> {
        self.base.slots@
    }

    /// The stage that the work belongs to.
    pub closed spec fn bucket(self) -> WorkBucketStage {
        self.base.bucket
    }

    /// The work on the given slots.
    pub fn new(slots: Vec<Slot>, roots: bool, bucket: WorkBucketStage) -> (work: Self)
        ensures
            work.slots() == slots@,
            work.are_roots() == roots,
            work.bucket() == bucket,
    {
        DRCProcessEdges { base: ProcessEdgesBase { slots, roots, bucket } }
    }

    /// The slots, what they are and when they are processed.
    pub fn base(&self) -> (base: &ProcessEdgesBase)
        ensures
            base.slots@ == self.slots(),
            base.roots == self.are_roots(),
            base.bucket == self.bucket(),
    {
        &self.base
    }

    /// Counts a reference to an object, which stays where it is.
    pub fn trace_object<VM: VMBinding>(&self, vm: &mut VM, object: ObjectReference) -> (moved_to:
        ObjectReference)
        ensures
            moved_to == object,
            final(vm)@ == VM::count_spec().incremented(old(vm)@, object),
            VM::count_spec().spec.sequentially_read(*old(vm), object),
            if count_of::<VM>(old(vm)@, object) < VM::count_spec().greatest() {
                VM::count_spec().spec.sequentially_written(*old(vm), object, *final(vm))
            } else {
                *final(vm) == *old(vm)
            },
    {
        increment::<VM>(vm, object);
        object
    }

    /// Counts the reference in a slot, if it holds one, and remembers the object if the slot is a
    /// root.
    pub fn process_slot<VM: VMBinding>(
        &self,
        mmtk: &mut MMTK<VM, DeferredReferenceCounting>,
        slot: Slot,
    )
        ensures
            final(mmtk).vm@ == slot_counted::<VM>(old(mmtk).vm@, slot),
            match old(mmtk).vm@.slot(slot) {
                Some(object) => final(mmtk).plan@ == if self.are_roots() {
                    DRCView {
                        new_roots: old(mmtk).plan@.new_roots.push(object),
                        ..old(mmtk).plan@
                    }
                } else {
                    old(mmtk).plan@
                },
                None => final(mmtk).plan@ == old(mmtk).plan@,
            },
            final(mmtk).plan.plan_constraints() == old(mmtk).plan.plan_constraints(),
            final(mmtk).plan.mapping() == old(mmtk).plan.mapping(),
    {
        match mmtk.vm.load_slot(slot) {
            None => {},
            Some(object) => {
                self.trace_object::<VM>(&mut mmtk.vm, object);
                if self.base.roots {
                    mmtk.plan.add_new_root(object);
                }
            },
        }
    }

    /// Processed objects are not scanned: references from objects are counted by way of the log.
    pub fn create_scan_work(&self, nodes: Vec<ObjectReference>) -> (work: Option<ScanObjects>)
        ensures
            work is None,
    {
        None
    }
}

/// Brings the counts up to date with what mutators did since the last collection.
#[derive(Clone, Copy, PartialEq, Eq, Structural, Debug)]
pub struct ProcessDeferredReferenceCounts;

impl ProcessDeferredReferenceCounts {
    /// The work packet.
    pub fn new() -> (work: Self)
        ensures
            work == ProcessDeferredReferenceCounts,
    {
        ProcessDeferredReferenceCounts
    }

    /// Takes back the counts of the last collection's roots, and brings the counts up to date with
    /// the logged objects.
    pub fn do_work<VM: VMBinding>(&self, mmtk: &mut MMTK<VM, DeferredReferenceCounting>)
        requires
            all_decodable(old(mmtk).plan@.log),
        ensures
            final(mmtk).vm@ == groups_counted::<VM>(
                all_decremented::<VM>(old(mmtk).vm@, old(mmtk).plan@.old_roots),
                logged_groups(old(mmtk).plan@.log),
            ),
            final(mmtk).plan@ == (DRCView {
                old_roots: Seq::empty(),
                log: Seq::empty(),
                ..old(mmtk).plan@
            }),
            final(mmtk).plan.plan_constraints() == old(mmtk).plan.plan_constraints(),
            final(mmtk).plan.mapping() == old(mmtk).plan.mapping(),
    {
        let old_roots: Vec<ObjectReference> = mmtk.plan.take_old_roots();
        decrement_all::<VM>(&mut mmtk.vm, &old_roots);
        let ghost memory = mmtk.vm@;
        let entries: Vec<Address> = mmtk.plan.log_buffer_mut().take();
        let mut groups: LogBufferObjectIter = LogBuffer::iter_object_groups_in(entries.as_slice());
        let ghost mut done: Seq<Group> = Seq::empty();
        let ghost drained = mmtk.plan;
        assert(done + logged_groups(entries@) =~= logged_groups(entries@));
        loop
            invariant
                all_decodable(groups.remaining()),
                done + logged_groups(groups.remaining()) == logged_groups(entries@),
                mmtk.vm@ == groups_counted::<VM>(memory, done),
                mmtk.plan == drained,
            ensures
                done == logged_groups(entries@),
                mmtk.vm@ == groups_counted::<VM>(memory, done),
                mmtk.plan == drained,
            decreases groups.remaining().len(),
        {
            let ghost remaining = groups.remaining();
            let next: Option<LoggedObject> = groups.next();
            match next {
                None => {
                    assert(done + Seq::<Group>::empty() =~= done);
                    break ;
                },
                Some(logged_object) => {
                    let old_children: Vec<ObjectReference> = logged_object.children();
                    decrement_all::<VM>(&mut mmtk.vm, &old_children);
                    let children: Vec<ObjectReference> = scan_object_children::<VM>(
                        &mmtk.vm,
                        logged_object.object,
                    );
                    increment_all::<VM>(&mut mmtk.vm, &children);
                    proof {
                        let group = logged_object.group();
                        let rest = logged_groups(groups.remaining());
                        assert(done + (seq![group] + rest) =~= done.push(group) + rest);
                        assert(done.push(group).drop_last() =~= done);
                        done = done.push(group);
                    }
                },
            }
        }
    }
}

/// The memory after the unlog bit of each of `objects` was set.
pub open spec fn with_unlogged(
    memory: Memory,
    bit: MetadataSpec,
    objects: Set<ObjectReference>,
) -> Memory {
    Memory {
        headers: |object: ObjectReference, index: usize|
            if objects.contains(object) {
                memory.with_metadata(bit, object, 1).word(object, index)
            } else {
                memory.word(object, index)
            },
        ..memory
    }
}

/// Setting one more unlog bit.
proof fn lemma_unlog_one(
    memory: Memory,
    bit: MetadataSpec,
    objects: Set<ObjectReference>,
    object: ObjectReference,
)
    requires
        bit.wf(),
        bit.num_of_bits == 1,
    ensures
        with_unlogged(memory, bit, objects).with_metadata(bit, object, 1) == with_unlogged(
            memory,
            bit,
            objects.insert(object),
        ),
{
    lemma_low_mask(bit.num_of_bits);
    let before = with_unlogged(memory, bit, objects);
    let result = before.with_metadata(bit, object, 1);
    let expected = with_unlogged(memory, bit, objects.insert(object));
    let once = memory.with_metadata(bit, object, 1);
    law_metadata_overwrite(memory, bit, object, 1, 1);
    assert forall|o: ObjectReference, i: usize| #[trigger]
        (result.headers)(o, i) == (expected.headers)(o, i) by {
        if o == object && objects.contains(o) {
            assert(once.with_metadata(bit, object, 1).word(o, i) == once.word(o, i));
        }
    }
    assert(result.headers =~= expected.headers);
}

/// Setting unlog bits sets those and no others, and changes no count.
pub proof fn law_unlogging<VM: VMBinding>(
    memory: Memory,
    objects: Set<ObjectReference>,
    object: ObjectReference,
)
    ensures
        objects.contains(object) ==> is_unlogged(
            with_unlogged(memory, VM::log_spec().spec, objects),
            VM::log_spec().spec,
            object,
        ),
        !objects.contains(object) ==> is_unlogged(
            with_unlogged(memory, VM::log_spec().spec, objects),
            VM::log_spec().spec,
            object,
        ) == is_unlogged(memory, VM::log_spec().spec, object),
        count_of::<VM>(with_unlogged(memory, VM::log_spec().spec, objects), object) == count_of::<
            VM,
        >(memory, object),
{
    VM::layout_is_valid();
    let bit = VM::log_spec().spec;
    lemma_low_mask(bit.num_of_bits);
    law_metadata_write(memory, bit, object, 1, VM::count_spec().spec, object);
    law_metadata_write(memory, bit, object, 1, bit, object);
}

/// The objects among `objects` that have a count.
pub open spec fn counted<VM: VMBinding>(
    memory: Memory,
    objects: Seq<ObjectReference>,
) -> Set<ObjectReference> {
    objects.to_set().filter(|object: ObjectReference| count_of::<VM>(memory, object) != 0)
}

/// The objects among `objects` that have no count.
pub open spec fn uncounted<VM: VMBinding>(
    memory: Memory,
    objects: Seq<ObjectReference>,
) -> Set<ObjectReference> {
    objects.to_set().filter(|object: ObjectReference| count_of::<VM>(memory, object) == 0)
}

/// Marks an object in the space that holds it.
pub fn mark_live(space: &mut MarkSweepSpace, object: ObjectReference)
    ensures
        final(space)@ == (SpaceView { marked: old(space)@.marked.insert(object), ..old(space)@ }),
{
    space.trace_object(object);
}

/// Sets the unlog bit of an object, so that its next modification is logged.
pub fn reset_log_bit<VM: VMBinding>(vm: &mut VM, object: ObjectReference)
    ensures
        final(vm)@ == old(vm)@.with_metadata(VM::log_spec().spec, object, 1),
        VM::log_spec().spec.sequentially_stored(*old(vm), object, *final(vm)),
{
    proof {
        VM::layout_is_valid();
        lemma_low_mask(VM::log_spec().spec.num_of_bits);
    }
    VM::global_log_bit_spec().spec.store_atomic::<VM, u8>(vm, object, 1, Ordering::SeqCst);
}

/// Marks the objects of a space that have a count, and sets their unlog bits.
fn keep_counted<VM: VMBinding>(vm: &mut VM, space: &mut MarkSweepSpace)
    ensures
        final(vm)@ == with_unlogged(
            old(vm)@,
            VM::log_spec().spec,
            counted::<VM>(old(vm)@, old(space)@.objects),
        ),
        final(space)@ == old(space)@.marking(counted::<VM>(old(vm)@, old(space)@.objects)),
{
    let ghost memory = vm@;
    let ghost bit = VM::log_spec().spec;
    let ghost objects = space@.objects;
    let mut i: usize = 0;
    proof {
        VM::layout_is_valid();
        assert(counted::<VM>(memory, objects.take(0)) =~= Set::empty());
        assert(with_unlogged(memory, bit, Set::empty()) =~= memory);
        assert(space@.marked.union(Set::empty()) =~= space@.marked);
    }
    while i < space.enumerate_objects().len()
        invariant
            memory == old(vm)@,
            bit == VM::log_spec().spec,
            bit.wf(),
            bit.num_of_bits == 1,
            objects == old(space)@.objects,
            i <= objects.len(),
            vm@ == with_unlogged(memory, bit, counted::<VM>(memory, objects.take(i as int))),
            space@ == (SpaceView {
                marked: old(space)@.marked.union(counted::<VM>(memory, objects.take(i as int))),
                ..old(space)@
            }),
        decreases objects.len() - i,
    {
        let object: ObjectReference = space.enumerate_objects()[i];
        let ghost seen = counted::<VM>(memory, objects.take(i as int));
        let ghost now = counted::<VM>(memory, objects.take(i + 1));
        proof {
            law_unlogging::<VM>(memory, seen, object);
            lemma_unlog_one(memory, bit, seen, object);
            assert(objects.take(i + 1) =~= objects.take(i as int).push(object));
            objects.take(i as int).lemma_push_to_set_commute(object);
            if count_of::<VM>(memory, object) != 0 {
                assert(now =~= seen.insert(object));
                assert(old(space)@.marked.union(seen).insert(object) =~= old(space)@.marked.union(
                    now,
                ));
            } else {
                assert(now =~= seen);
            }
        }
        if ref_count::<VM>(vm, object) != 0 {
            mark_live(space, object);
            reset_log_bit::<VM>(vm, object);
        }
        i = i + 1;
    }
    proof {
        assert(objects.take(i as int) =~= objects);
        let live = counted::<VM>(memory, objects);
        assert(live.intersect(objects.to_set()) =~= live);
    }
}

/// Setting unlog bits in two rounds sets them all, and the second round finds the same counts.
proof fn lemma_unlog_more<VM: VMBinding>(
    memory: Memory,
    first: Set<ObjectReference>,
    objects: Seq<ObjectReference>,
)
    ensures
        ({
            let bit = VM::log_spec().spec;
            let between = with_unlogged(memory, bit, first);
            let second = counted::<VM>(memory, objects);
            &&& counted::<VM>(between, objects) == second
            &&& with_unlogged(between, bit, second) == with_unlogged(
                memory,
                bit,
                first.union(second),
            )
        }),
{
    VM::layout_is_valid();
    let bit = VM::log_spec().spec;
    lemma_low_mask(bit.num_of_bits);
    let between = with_unlogged(memory, bit, first);
    let second = counted::<VM>(memory, objects);
    assert forall|o: ObjectReference| counted::<VM>(between, objects).contains(o)
        == second.contains(o) by {
        law_unlogging::<VM>(memory, first, o);
    }
    assert(counted::<VM>(between, objects) =~= second);
    let result = with_unlogged(between, bit, second);
    let expected = with_unlogged(memory, bit, first.union(second));
    assert forall|o: ObjectReference, i: usize| #[trigger]
        (result.headers)(o, i) == (expected.headers)(o, i) by {
        if first.contains(o) && second.contains(o) {
            let once = memory.with_metadata(bit, o, 1);
            law_metadata_overwrite(memory, bit, o, 1, 1);
            assert(once.with_metadata(bit, o, 1).word(o, i) == once.word(o, i));
        }
    }
    assert(result.headers =~= expected.headers);
}

/// Adds the objects of a space that have no count to `queue`.
fn enqueue_uncounted<VM: VMBinding>(
    vm: &VM,
    space: &MarkSweepSpace,
    queue: &mut Vec<ObjectReference>,
)
    ensures
        final(queue)@.to_set() == old(queue)@.to_set().union(
            uncounted::<VM>(vm@, space@.objects),
        ),
{
    let ghost objects = space@.objects;
    let mut i: usize = 0;
    assert(old(queue)@.to_set() =~= old(queue)@.to_set().union(
        uncounted::<VM>(vm@, objects.take(0)),
    ));
    while i < space.enumerate_objects().len()
        invariant
            objects == space@.objects,
            i <= objects.len(),
            queue@.to_set() == old(queue)@.to_set().union(
                uncounted::<VM>(vm@, objects.take(i as int)),
            ),
        decreases objects.len() - i,
    {
        let object: ObjectReference = space.enumerate_objects()[i];
        let ghost before = queue@;
        if ref_count::<VM>(vm, object) == 0 {
            queue.push(object);
        }
        proof {
            before.lemma_push_to_set_commute(object);
            assert(objects.take(i + 1) =~= objects.take(i as int).push(object));
            objects.take(i as int).lemma_push_to_set_commute(object);
            assert(queue@.to_set() =~= old(queue)@.to_set().union(
                uncounted::<VM>(vm@, objects.take(i + 1)),
            ));
        }
        i = i + 1;
    }
    assert(objects.take(i as int) =~= objects);
}

/// The objects of a plan that have no count, as a cascade finds them.
pub open spec fn final_cascade<VM: VMBinding>(memory: Memory, plan: DRCView) -> Cascade {
    cascade_in::<VM, ScanFields>(ScanFields, memory, uncounted::<VM>(memory, plan.objects()))
}

/// The memory once the objects without a count have died.
pub open spec fn final_counts<VM: VMBinding>(memory: Memory, plan: DRCView) -> Memory {
    let cascade = final_cascade::<VM>(memory, plan);
    after_death::<VM>(memory, cascade, cascade.dead())
}

/// The objects that survive: those of the plan that have a count once the others have died.
pub open spec fn survivors<VM: VMBinding>(memory: Memory, plan: DRCView) -> Set<ObjectReference> {
    counted::<VM>(final_counts::<VM>(memory, plan), plan.objects())
}

/// Lets the objects without a count die, and marks the survivors.
#[derive(Clone, Copy, PartialEq, Eq, Structural, Debug)]
pub struct FinishDeferredReferenceCounting;

impl FinishDeferredReferenceCounting {
    /// The work packet.
    pub fn new() -> (work: Self)
        ensures
            work == FinishDeferredReferenceCounting,
    {
        FinishDeferredReferenceCounting
    }

    /// Lets the objects without a count die, marks the survivors, and makes the roots of this
    /// collection those of the last one.
    pub fn do_work<VM: VMBinding>(&self, mmtk: &mut MMTK<VM, DeferredReferenceCounting>)
        ensures
            final(mmtk).vm@ == with_unlogged(
                final_counts::<VM>(old(mmtk).vm@, old(mmtk).plan@),
                VM::log_spec().spec,
                survivors::<VM>(old(mmtk).vm@, old(mmtk).plan@),
            ),
            final(mmtk).plan@ == (DRCView {
                old_roots: old(mmtk).plan@.new_roots,
                new_roots: Seq::empty(),
                ..old(mmtk).plan@.marking(survivors::<VM>(old(mmtk).vm@, old(mmtk).plan@))
            }),
            forall|o: ObjectReference| #[trigger]
                old(mmtk).plan@.ms.objects.contains(o) ==> (final(mmtk).plan@.ms.marked.contains(o)
                    <==> old(mmtk).plan@.ms.marked.contains(o) || VM::count_spec().count(
                    final(mmtk).vm@,
                    o,
                ) > 0),
            forall|i: int, o: ObjectReference|
                0 <= i < old(mmtk).plan@.common.len()
                    && #[trigger] old(mmtk).plan@.common[i].objects.contains(o) ==> (
                final(mmtk).plan@.common[i].marked.contains(o)
                    <==> old(mmtk).plan@.common[i].marked.contains(o) || VM::count_spec().count(
                    final(mmtk).vm@,
                    o,
                ) > 0),
            final(mmtk).plan.plan_constraints() == old(mmtk).plan.plan_constraints(),
            final(mmtk).plan.mapping() == old(mmtk).plan.mapping(),
    {
        let ghost before = mmtk.vm@;
        let ghost plan = mmtk.plan@;
        let ghost common = plan.common;
        let mut zero_queue: Vec<ObjectReference> = Vec::new();
        enqueue_uncounted::<VM>(&mmtk.vm, mmtk.plan.ms_space(), &mut zero_queue);
        let mut i: usize = 0;
        proof {
            assert(objects_in(common.take(0)) =~= Seq::<ObjectReference>::empty());
            assert(zero_queue@.to_set() =~= uncounted::<VM>(
                before,
                plan.ms.objects + objects_in(common.take(0)),
            ));
        }
        while i < mmtk.plan.common().len()
            invariant
                *mmtk == *old(mmtk),
                before == mmtk.vm@,
                plan == mmtk.plan@,
                common == plan.common,
                i <= common.len(),
                zero_queue@.to_set() == uncounted::<VM>(
                    before,
                    plan.ms.objects + objects_in(common.take(i as int)),
                ),
            decreases common.len() - i,
        {
            enqueue_uncounted::<VM>(&mmtk.vm, mmtk.plan.common().space(i), &mut zero_queue);
            i = i + 1;
            proof {
                assert(common.take(i as int).drop_last() =~= common.take(i - 1));
                lemma_more_objects(
                    plan.ms.objects + objects_in(common.take(i - 1)),
                    common[i - 1].objects,
                );
                assert(plan.ms.objects + objects_in(common.take(i as int)) =~= (plan.ms.objects
                    + objects_in(common.take(i - 1))) + common[i - 1].objects);
                assert(zero_queue@.to_set() =~= uncounted::<VM>(
                    before,
                    plan.ms.objects + objects_in(common.take(i as int)),
                ));
            }
        }
        let ghost cascade = final_cascade::<VM>(before, plan);
        assert(common.take(i as int) =~= common);
        let dead: ObjectSet = cascade_zero_counts::<VM>(&mut mmtk.vm, zero_queue);
        proof {
            law_the_dead_exist(cascade);
            law_the_dead_are_unique(cascade, dead@, cascade.dead());
        }
        let ghost memory = mmtk.vm@;
        let ghost bit = VM::log_spec().spec;
        let ghost live = survivors::<VM>(before, plan);
        keep_counted::<VM>(&mut mmtk.vm, mmtk.plan.ms_space_mut());
        proof {
            assert(counted::<VM>(memory, plan.ms.objects).intersect(plan.ms.objects.to_set())
                =~= live.intersect(plan.ms.objects.to_set())) by {
                lemma_more_objects(plan.ms.objects, objects_in(common));
            }
            assert(plan.ms.objects + objects_in(common.take(0)) =~= plan.ms.objects);
        }
        let mut j: usize = 0;
        while j < mmtk.plan.common().len()
            invariant
                bit == VM::log_spec().spec,
                common == plan.common,
                live == counted::<VM>(memory, plan.objects()),
                j <= common.len(),
                mmtk.plan@.common.len() == common.len(),
                forall|k: int| 0 <= k < j ==> #[trigger] mmtk.plan@.common[k]
                    == common[k].marking(live),
                forall|k: int| j <= k < common.len() ==> #[trigger] mmtk.plan@.common[k]
                    == common[k],
                mmtk.plan@ == (DRCView {
                    ms: plan.ms.marking(live),
                    common: mmtk.plan@.common,
                    ..plan
                }),
                mmtk.plan.plan_constraints() == old(mmtk).plan.plan_constraints(),
                mmtk.plan.mapping() == old(mmtk).plan.mapping(),
                mmtk.vm@ == with_unlogged(
                    memory,
                    bit,
                    counted::<VM>(memory, plan.ms.objects + objects_in(common.take(j as int))),
                ),
            decreases common.len() - j,
        {
            let ghost so_far = plan.ms.objects + objects_in(common.take(j as int));
            let ghost here = common[j as int].objects;
            keep_counted::<VM>(&mut mmtk.vm, mmtk.plan.common_mut().space_mut(j));
            proof {
                lemma_unlog_more::<VM>(memory, counted::<VM>(memory, so_far), here);
                lemma_more_objects(so_far, here);
                assert(common.take(j + 1).drop_last() =~= common.take(j as int));
                let next = plan.ms.objects + objects_in(common.take(j + 1));
                assert(next =~= so_far + here);
                assert(counted::<VM>(memory, so_far).union(counted::<VM>(memory, here))
                    =~= counted::<VM>(memory, next));
                lemma_objects_in(common, j as int);
                lemma_more_objects(plan.ms.objects, objects_in(common));
                assert(counted::<VM>(memory, here).intersect(here.to_set()) =~= live.intersect(
                    here.to_set(),
                ));
            }
            j = j + 1;
        }
        proof {
            assert(common.take(j as int) =~= common);
            assert(mmtk.plan@.common =~= plan.marking(live).common);
        }
        mmtk.plan.install_new_roots_as_old_roots();
        proof {
            law_what_finishing_leaves::<VM>(before, plan);
            assert forall|o: ObjectReference| #[trigger]
                plan.ms.objects.contains(o) implies (mmtk.plan@.ms.marked.contains(o)
                <==> plan.ms.marked.contains(o) || VM::count_spec().count(mmtk.vm@, o) > 0) by {
                law_the_objects_of_a_plan(plan, o);
                assert(live.contains(o) <==> plan.objects().contains(o) && VM::count_spec().count(
                    mmtk.vm@,
                    o,
                ) > 0);
            }
            assert forall|i: int, o: ObjectReference|
                0 <= i < plan.common.len()
                    && #[trigger] plan.common[i].objects.contains(o) implies (
            mmtk.plan@.common[i].marked.contains(o) <==> plan.common[i].marked.contains(o)
                || VM::count_spec().count(mmtk.vm@, o) > 0) by {
                law_the_objects_of_a_plan(plan, o);
                assert(live.contains(o) <==> plan.objects().contains(o) && VM::count_spec().count(
                    mmtk.vm@,
                    o,
                ) > 0);
            }
        }
    }
}

/// The objects of two sequences together.
proof fn lemma_more_objects(first: Seq<ObjectReference>, second: Seq<ObjectReference>)
    ensures
        (first + second).to_set() == first.to_set().union(second.to_set()),
{
    assert forall|o: ObjectReference| (first + second).to_set().contains(o)
        == first.to_set().union(second.to_set()).contains(o) by {
        if first.contains(o) {
            let i = choose|i: int| 0 <= i < first.len() && first[i] == o;
            assert((first + second)[i] == o);
        }
        if second.contains(o) {
            let i = choose|i: int| 0 <= i < second.len() && second[i] == o;
            assert((first + second)[first.len() + i] == o);
        }
    }
    assert((first + second).to_set() =~= first.to_set().union(second.to_set()));
}

/// What one of several spaces holds, the spaces hold.
proof fn lemma_objects_in(spaces: Seq<SpaceView>, i: int)
    requires
        0 <= i < spaces.len(),
    ensures
        spaces[i].objects.to_set().subset_of(objects_in(spaces).to_set()),
    decreases spaces.len(),
{
    lemma_more_objects(objects_in(spaces.drop_last()), spaces.last().objects);
    if i < spaces.len() - 1 {
        lemma_objects_in(spaces.drop_last(), i);
    }
}

/// In a collection of this plan the references in slots are counted, of all kinds of slots.
pub proof fn law_slots_are_counted<VM: VMBinding>()
    ensures
        common_work_in::<DRCGCWorkContext<VM>>().default_edges == EdgesWork::Count,
        common_work_in::<DRCGCWorkContext<VM>>().pinning_edges == EdgesWork::Count,
{
}

/// Setting unlog bits sets those of the given objects and changes nothing else: no other bit of a
/// header, no slot and no field.
pub proof fn law_unlogging_sets_bits_alone(
    memory: Memory,
    bit: MetadataSpec,
    objects: Set<ObjectReference>,
    object: ObjectReference,
    other_spec: MetadataSpec,
)
    requires
        bit.wf(),
        bit.num_of_bits == 1,
        other_spec.wf(),
    ensures
        with_unlogged(memory, bit, objects).metadata(bit, object) == if objects.contains(object) {
            1
        } else {
            memory.metadata(bit, object)
        },
        bit.disjoint(other_spec) ==> with_unlogged(memory, bit, objects).metadata(
            other_spec,
            object,
        ) == memory.metadata(other_spec, object),
        with_unlogged(memory, bit, objects) == (Memory {
            headers: with_unlogged(memory, bit, objects).headers,
            ..memory
        }),
{
    lemma_low_mask(bit.num_of_bits);
    law_metadata_write(memory, bit, object, 1, other_spec, object);
}

/// What the end of a collection leaves behind. The objects of the plan that have no count die, in
/// whichever of its spaces they are, and then one after the other whatever counted references from
/// the dead alone; no more can die. From every count the references from the dead are gone. The
/// objects of the plan that have a count then are the survivors, and they alone: no object of any
/// space survives without a count. Their unlog bits are set, and nothing else has changed.
pub proof fn law_what_finishing_leaves<VM: VMBinding>(memory: Memory, plan: DRCView)
    ensures
        ({
            let end = with_unlogged(
                final_counts::<VM>(memory, plan),
                VM::log_spec().spec,
                survivors::<VM>(memory, plan),
            );
            let heap = Cascade {
                children: |o: ObjectReference| memory.children(o),
                counts: |o: ObjectReference| VM::count_spec().count(memory, o),
                initial: Set::new(
                    |o: ObjectReference|
                        plan.objects().contains(o) && VM::count_spec().count(memory, o) == 0,
                ),
            };
            &&& exists|order: Seq<ObjectReference>|
                {
                    &&& #[trigger] is_death_order(heap, order)
                    &&& forall|o: ObjectReference|
                        {
                            let count = VM::count_spec().count(memory, o);
                            let lost = references(heap.children, order.to_set(), o);
                            &&& (#[trigger] VM::count_spec().count(end, o)) == if count > lost {
                                count - lost
                            } else {
                                0
                            }
                            &&& order.contains(o) ==> count <= lost
                            &&& !order.contains(o) && (plan.objects().contains(o) || count > 0)
                                ==> count > lost
                        }
                }
            &&& forall|o: ObjectReference| #[trigger]
                survivors::<VM>(memory, plan).contains(o) <==> plan.objects().contains(o)
                    && VM::count_spec().count(end, o) > 0
            &&& forall|o: ObjectReference| #[trigger]
                end.metadata(VM::log_spec().spec, o) == if plan.objects().contains(o)
                    && VM::count_spec().count(end, o) > 0 {
                    1
                } else {
                    memory.metadata(VM::log_spec().spec, o)
                }
            &&& end == (Memory { headers: end.headers, ..memory })
        }),
{
    let spec = VM::count_spec();
    let bit = VM::log_spec().spec;
    let cascade = final_cascade::<VM>(memory, plan);
    let dead = cascade.dead();
    let initial = uncounted::<VM>(memory, plan.objects());
    let counts = final_counts::<VM>(memory, plan);
    let live = survivors::<VM>(memory, plan);
    let end = with_unlogged(counts, bit, live);
    let heap = Cascade {
        children: |o: ObjectReference| memory.children(o),
        counts: |o: ObjectReference| VM::count_spec().count(memory, o),
        initial: Set::new(
            |o: ObjectReference|
                plan.objects().contains(o) && VM::count_spec().count(memory, o) == 0,
        ),
    };
    VM::layout_is_valid();
    law_the_dead_exist(cascade);
    assert(heap.initial =~= cascade.initial);
    assert(heap.children =~= cascade.children);
    assert(heap.counts =~= cascade.counts);
    law_the_dead_die_in_order(cascade, dead, arbitrary());
    let order = choose|order: Seq<ObjectReference>| #[trigger]
        is_death_order(cascade, order) && order.to_set() == dead;
    assert(is_death_order(heap, order));
    assert forall|o: ObjectReference|
        {
            let count = VM::count_spec().count(memory, o);
            let lost = references(heap.children, order.to_set(), o);
            &&& (#[trigger] VM::count_spec().count(end, o)) == if count > lost {
                count - lost
            } else {
                0
            }
            &&& order.contains(o) ==> count <= lost
            &&& !order.contains(o) && (plan.objects().contains(o) || count > 0) ==> count > lost
            &&& live.contains(o) <==> plan.objects().contains(o) && VM::count_spec().count(end, o)
                > 0
        } by {
        lemma_finished::<VM>(memory, plan, o);
        assert(order.contains(o) <==> order.to_set().contains(o));
    }
    assert forall|o: ObjectReference| #[trigger] live.contains(o) <==> plan.objects().contains(o)
        && VM::count_spec().count(end, o) > 0 by {
        lemma_finished::<VM>(memory, plan, o);
    }
    assert forall|o: ObjectReference| #[trigger]
        end.metadata(VM::log_spec().spec, o) == if plan.objects().contains(o)
            && VM::count_spec().count(end, o) > 0 {
            1
        } else {
            memory.metadata(VM::log_spec().spec, o)
        } by {
        lemma_finished::<VM>(memory, plan, o);
    }
    lemma_finished::<VM>(memory, plan, arbitrary());
}

/// The same for one object, in terms of the dead.
proof fn lemma_finished<VM: VMBinding>(memory: Memory, plan: DRCView, object: ObjectReference)
    ensures
        ({
            let live = survivors::<VM>(memory, plan);
            let end = with_unlogged(final_counts::<VM>(memory, plan), VM::log_spec().spec, live);
            let dead = final_cascade::<VM>(memory, plan).dead();
            let count = VM::count_spec().count(memory, object);
            let lost = references(final_cascade::<VM>(memory, plan).children, dead, object);
            &&& VM::count_spec().count(end, object) == if count > lost {
                count - lost
            } else {
                0
            }
            &&& dead.contains(object) ==> count <= lost
            &&& !dead.contains(object) && (plan.objects().contains(object) || count > 0) ==> count
                > lost
            &&& live.contains(object) <==> plan.objects().contains(object)
                && VM::count_spec().count(end, object) > 0
            &&& end.metadata(VM::log_spec().spec, object) == if live.contains(object) {
                1
            } else {
                memory.metadata(VM::log_spec().spec, object)
            }
            &&& end == (Memory { headers: end.headers, ..memory })
        }),
{
    VM::layout_is_valid();
    let spec = VM::count_spec();
    let bit = VM::log_spec().spec;
    let cascade = final_cascade::<VM>(memory, plan);
    let dead = cascade.dead();
    let initial = uncounted::<VM>(memory, plan.objects());
    let counts = final_counts::<VM>(memory, plan);
    let live = survivors::<VM>(memory, plan);
    law_the_dead_exist(cascade);
    law_what_a_cascade_leaves::<VM, ScanFields>(ScanFields, memory, initial, dead, object, bit);
    law_the_dead_have_no_count(cascade, dead, object);
    law_unlogging::<VM>(counts, live, object);
    law_unlogging_sets_bits_alone(counts, bit, live, object, bit);
    law_counts_never_wrap(spec, memory, object, object);
    assert(cascade.children =~= (|o: ObjectReference|
        <ScanFields as ScanChildren<VM>>::children(&ScanFields, memory, o)));
}

}
