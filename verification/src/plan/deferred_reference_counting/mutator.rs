//! The mutators of the deferred reference counting plan.

use std::marker::PhantomData;

use vstd::prelude::*;

use crate::plan::barriers::log_attempt::is_unlogged;
use crate::plan::barriers::log_barrier::{
    law_first_write_logs_former_children, law_recording_adds_one_group, LogBufferBarrier,
    LogBufferBarrierSemantics,
};
use crate::plan::barriers::log_buffer::{law_combining_keeps_groups, well_grouped, Group};
use crate::plan::barriers::Barrier;
use crate::plan::deferred_reference_counting::global::{
    DRCView, DeferredReferenceCounting, PlanFeatures,
};
use crate::plan::{Moment, MMTK};
use crate::util::address::{Address, ObjectReference};
use crate::util::allocators::{
    AllocationSemantics, AllocatorMapping, AllocatorSelector, ReservedAllocators,
};
use crate::util::metadata::{law_metadata_write, lemma_low_mask, MetadataSpec};
use crate::vm::{MemorySlice, Slot, VMBinding, VMMutatorThread, VMWorkerThread};

verus! {

/// The allocators that the plan keeps for itself: one, of the kind that its mark-sweep space uses.
pub open spec fn reserved_for(features: PlanFeatures) -> ReservedAllocators {
    if features.malloc_mark_sweep {
        ReservedAllocators { n_malloc: 1, ..ReservedAllocators::none_reserved() }
    } else {
        ReservedAllocators { n_free_list: 1, ..ReservedAllocators::none_reserved() }
    }
}

/// The allocators that the plan keeps for itself.
pub fn reserved_allocators(features: PlanFeatures) -> (reserved: ReservedAllocators)
    ensures
        reserved == reserved_for(features),
{
    if features.malloc_mark_sweep {
        ReservedAllocators { n_malloc: 1, ..ReservedAllocators::default() }
    } else {
        ReservedAllocators { n_free_list: 1, ..ReservedAllocators::default() }
    }
}

/// The allocator for ordinary objects: the one that the plan keeps for itself.
pub open spec fn default_allocator(features: PlanFeatures) -> AllocatorSelector {
    if features.malloc_mark_sweep {
        AllocatorSelector::Malloc(0)
    } else {
        AllocatorSelector::FreeList(0)
    }
}

/// The allocators of the plan, where `common` are those for the spaces that all plans have.
pub open spec fn drc_mapping(
    common: spec_fn(AllocationSemantics) -> AllocatorSelector,
    features: PlanFeatures,
) -> spec_fn(AllocationSemantics) -> AllocatorSelector {
    |semantics: AllocationSemantics|
        if semantics == AllocationSemantics::Default {
            default_allocator(features)
        } else {
            common(semantics)
        }
}

/// The allocators of the plan, where `common` are those for the spaces that all plans have.
pub fn allocator_mapping(common: AllocatorMapping, features: PlanFeatures) -> (mapping:
    AllocatorMapping)
    ensures
        mapping@ == drc_mapping(common@, features),
        forall|semantics: AllocationSemantics|
            semantics != AllocationSemantics::Default ==> #[trigger] (mapping@)(semantics) == (
            common@)(semantics),
        (mapping@)(AllocationSemantics::Default) == if features.malloc_mark_sweep {
            AllocatorSelector::Malloc(0)
        } else {
            AllocatorSelector::FreeList(0)
        },
{
    let mut map: AllocatorMapping = common;
    let selector: AllocatorSelector = if features.malloc_mark_sweep {
        AllocatorSelector::Malloc(0)
    } else {
        AllocatorSelector::FreeList(0)
    };
    map.assign(AllocationSemantics::Default, selector);
    assert(map@ =~= drc_mapping(common@, features));
    map
}

/// A space of the plan, by its place in the plan.
#[derive(Clone, Copy, PartialEq, Eq, Structural, Debug)]
pub enum SpaceId {
    /// The mark-sweep space.
    MarkSweep,
    /// One of the spaces that all plans have.
    Common(usize),
}

/// Which space each allocator takes its memory from, where `common` tells it of the allocators for
/// the spaces that all plans have.
pub fn create_space_mapping(
    common: Vec<(AllocatorSelector, SpaceId)>,
    plan: &DeferredReferenceCounting,
) -> (mapping: Vec<(AllocatorSelector, SpaceId)>)
    ensures
        mapping@ == common@.push(
            ((plan.mapping())(AllocationSemantics::Default), SpaceId::MarkSweep),
        ),
{
    let mut mapping: Vec<(AllocatorSelector, SpaceId)> = common;
    mapping.push(
        (
            plan.get_allocator_mapping().select(AllocationSemantics::Default),
            SpaceId::MarkSweep,
        ),
    );
    mapping
}

/// The slow path of the plan's barrier: what mutators have logged is combined in the plan.
pub struct DRCBarrierSemantics<VM: VMBinding> {
    runtime: PhantomData<VM>,
}

impl<VM: VMBinding> DRCBarrierSemantics<VM> {
    /// The slow path of the plan's barrier.
    pub fn new() -> (semantics: Self)
        ensures
            semantics == Self::only(),
    {
        DRCBarrierSemantics { runtime: PhantomData }
    }

    /// The one value of this type.
    pub closed spec fn only() -> Self {
        DRCBarrierSemantics { runtime: PhantomData }
    }
}

impl<VM: VMBinding> LogBufferBarrierSemantics for DRCBarrierSemantics<VM> {
    type VM = VM;

    type Plan = DeferredReferenceCounting;

    open spec fn unlog_bit() -> MetadataSpec {
        VM::log_spec().spec
    }

    open spec fn flushed(
        pre: Moment<Self, DeferredReferenceCounting>,
        entries: Seq<Address>,
        post: Moment<Self, DeferredReferenceCounting>,
    ) -> bool {
        &&& post.actor == pre.actor
        &&& post.memory == pre.memory
        &&& post.plan@ == (DRCView { log: pre.plan@.log + entries, ..pre.plan@ })
        &&& post.plan.plan_constraints() == pre.plan.plan_constraints()
        &&& post.plan.mapping() == pre.plan.mapping()
    }

    open spec fn region_copied(
        pre: Moment<Self, DeferredReferenceCounting>,
        src: MemorySlice,
        dst: MemorySlice,
        post: Moment<Self, DeferredReferenceCounting>,
    ) -> bool {
        post == pre
    }

    fn unlog_bit_spec() -> (spec: MetadataSpec) {
        proof {
            VM::layout_is_valid();
        }
        VM::global_log_bit_spec().spec
    }

    fn flush(&mut self, mmtk: &mut MMTK<VM, DeferredReferenceCounting>, entries: Vec<Address>) {
        mmtk.plan.log_buffer_mut().combine(entries);
    }

    fn memory_region_copy_slow(
        &mut self,
        mmtk: &mut MMTK<VM, DeferredReferenceCounting>,
        src: MemorySlice,
        dst: MemorySlice,
    ) {
    }
}

/// How a mutator allocates.
pub struct MutatorConfig {
    /// The allocator for each kind of allocation.
    pub allocator_mapping: AllocatorMapping,
    /// The space that each allocator takes its memory from.
    pub space_mapping: Vec<(AllocatorSelector, SpaceId)>,
}

/// A mutator of the plan.
pub struct Mutator<VM: VMBinding> {
    /// The thread that the mutator runs on.
    pub mutator_tls: VMMutatorThread,
    /// The barrier that the mutator runs.
    pub barrier: LogBufferBarrier<DRCBarrierSemantics<VM>>,
    /// How the mutator allocates.
    pub config: MutatorConfig,
}

/// Something to be done to a mutator's allocators before or after a collection.
#[derive(Clone, Copy, PartialEq, Eq, Structural, Debug)]
pub enum MutatorStep {
    /// Prepare the free-list allocator with this number.
    PrepareFreeList(u8),
    /// Release the free-list allocator with this number.
    ReleaseFreeList(u8),
    /// Prepare what the mutators of all plans have.
    PrepareCommon(VMWorkerThread),
    /// Release what the mutators of all plans have.
    ReleaseCommon(VMWorkerThread),
}

impl<VM: VMBinding> Mutator<VM> {
    /// The allocator for ordinary objects.
    pub open spec fn default_allocator(self) -> AllocatorSelector {
        (self.config.allocator_mapping@)(AllocationSemantics::Default)
    }

    /// Ordinary objects come from a free list or from `malloc`.
    pub open spec fn wf(self) -> bool {
        self.default_allocator() is FreeList || self.default_allocator() is Malloc
    }
}

/// The number of the free-list allocator that serves ordinary objects, unless `malloc` does.
fn free_list_number<VM: VMBinding>(mutator: &Mutator<VM>) -> (number: Option<u8>)
    requires
        mutator.wf(),
    ensures
        number == match mutator.default_allocator() {
            AllocatorSelector::FreeList(n) => Some(n),
            _ => None,
        },
{
    match mutator.config.allocator_mapping.select(AllocationSemantics::Default) {
        AllocatorSelector::FreeList(n) => Some(n),
        _ => None,
    }
}

/// What is done to a mutator before a collection, in order.
pub fn drc_mutator_prepare<VM: VMBinding>(mutator: &Mutator<VM>, tls: VMWorkerThread) -> (steps: Vec<
    MutatorStep,
>)
    requires
        mutator.wf(),
    ensures
        steps@ == match mutator.default_allocator() {
            AllocatorSelector::FreeList(n) => seq![
                MutatorStep::PrepareFreeList(n),
                MutatorStep::PrepareCommon(tls),
            ],
            _ => seq![MutatorStep::PrepareCommon(tls)],
        },
{
    let mut steps: Vec<MutatorStep> = Vec::new();
    if let Some(n) = free_list_number(mutator) {
        steps.push(MutatorStep::PrepareFreeList(n));
    }
    steps.push(MutatorStep::PrepareCommon(tls));
    steps
}

/// What is done to a mutator after a collection, in order.
pub fn drc_mutator_release<VM: VMBinding>(mutator: &Mutator<VM>, tls: VMWorkerThread) -> (steps: Vec<
    MutatorStep,
>)
    requires
        mutator.wf(),
    ensures
        steps@ == match mutator.default_allocator() {
            AllocatorSelector::FreeList(n) => seq![
                MutatorStep::ReleaseFreeList(n),
                MutatorStep::ReleaseCommon(tls),
            ],
            _ => seq![MutatorStep::ReleaseCommon(tls)],
        },
{
    let mut steps: Vec<MutatorStep> = Vec::new();
    if let Some(n) = free_list_number(mutator) {
        steps.push(MutatorStep::ReleaseFreeList(n));
    }
    steps.push(MutatorStep::ReleaseCommon(tls));
    steps
}

/// A mutator that allocates as the plan says and logs what it overwrites, where `common` tells
/// which space each allocator for the spaces that all plans have takes its memory from.
pub fn create_drc_mutator<VM: VMBinding>(
    mutator_tls: VMMutatorThread,
    mmtk: &MMTK<VM, DeferredReferenceCounting>,
    common: Vec<(AllocatorSelector, SpaceId)>,
) -> (mutator: Mutator<VM>)
    ensures
        mutator.mutator_tls == mutator_tls,
        mutator.config.allocator_mapping@ == mmtk.plan.mapping(),
        mutator.config.space_mapping@ == common@.push(
            (mutator.default_allocator(), SpaceId::MarkSweep),
        ),
        mutator.barrier.slow_path() == DRCBarrierSemantics::<VM>::only(),
        mutator.barrier.thread() == mutator_tls,
        mutator.barrier.entries() == Seq::<Address>::empty(),
        mmtk.plan.wf() ==> mutator.wf(),
{
    let config: MutatorConfig = MutatorConfig {
        allocator_mapping: mmtk.plan.get_allocator_mapping().duplicate(),
        space_mapping: create_space_mapping(common, &mmtk.plan),
    };
    Mutator {
        mutator_tls,
        barrier: LogBufferBarrier::new(DRCBarrierSemantics::new(), mutator_tls),
        config,
    }
}

/// What a mutator has logged is never lost: what it has handed to the plan, followed by what it
/// still holds, grows by the logged object and its children when an object is logged, and stays the
/// same when the mutator is flushed. An object is logged by whichever entry point the runtime
/// calls: before a write, on the slow path, or when it announces a write.
pub proof fn law_logging_loses_nothing<VM: VMBinding>(
    pre: Moment<LogBufferBarrier<DRCBarrierSemantics<VM>>, DeferredReferenceCounting>,
    object: ObjectReference,
    slot: Slot,
    target: Option<ObjectReference>,
    post: Moment<LogBufferBarrier<DRCBarrierSemantics<VM>>, DeferredReferenceCounting>,
)
    ensures
        LogBufferBarrier::<DRCBarrierSemantics<VM>>::flushed(pre, post) ==> post.plan@.log
            + post.actor.entries() == pre.plan@.log + pre.actor.entries(),
        ({
            ||| LogBufferBarrier::<DRCBarrierSemantics<VM>>::write_prepared(
                pre,
                object,
                slot,
                target,
                post,
            )
            ||| LogBufferBarrier::<DRCBarrierSemantics<VM>>::write_handled(
                pre,
                object,
                slot,
                target,
                post,
            )
            ||| LogBufferBarrier::<DRCBarrierSemantics<VM>>::write_expected(pre, object, post)
        }) ==> post.plan@.log + post.actor.entries() == if pre.memory.metadata(
            VM::log_spec().spec,
            object,
        ) != 0 {
            pre.plan@.log + pre.actor.entries() + (Group {
                object,
                children: pre.memory.children(object),
            }).entries()
        } else {
            pre.plan@.log + pre.actor.entries()
        },
{
    let group = Group { object, children: pre.memory.children(object) };
    let then = LogBufferBarrier::<DRCBarrierSemantics<VM>>::slow_moment(post);
    assert(then.plan == post.plan);
    if LogBufferBarrier::<DRCBarrierSemantics<VM>>::flushed(pre, post) {
        assert(post.plan@.log + post.actor.entries() =~= pre.plan@.log + pre.actor.entries());
    }
    if LogBufferBarrier::<DRCBarrierSemantics<VM>>::logged(pre, object, post) && is_unlogged(
        pre.memory,
        VM::log_spec().spec,
        object,
    ) {
        law_first_write_logs_former_children::<DRCBarrierSemantics<VM>>(
            pre,
            object,
            slot,
            target,
            post,
        );
        assert(post.plan@.log + post.actor.entries() =~= pre.plan@.log + pre.actor.entries()
            + group.entries());
    }
}

/// Mutators change nothing of the plan but its log, to which they append, and nothing of the memory
/// but unlog bits, which they clear: not when they log an object, not when they are flushed, and
/// not before a copy, for which they do not even log.
pub proof fn law_mutators_append_to_the_log_alone<VM: VMBinding>(
    pre: Moment<LogBufferBarrier<DRCBarrierSemantics<VM>>, DeferredReferenceCounting>,
    object: ObjectReference,
    slot: Slot,
    target: Option<ObjectReference>,
    src: MemorySlice,
    dst: MemorySlice,
    post: Moment<LogBufferBarrier<DRCBarrierSemantics<VM>>, DeferredReferenceCounting>,
)
    requires
        ({
            ||| LogBufferBarrier::<DRCBarrierSemantics<VM>>::flushed(pre, post)
            ||| LogBufferBarrier::<DRCBarrierSemantics<VM>>::write_prepared(
                pre,
                object,
                slot,
                target,
                post,
            )
            ||| LogBufferBarrier::<DRCBarrierSemantics<VM>>::write_handled(
                pre,
                object,
                slot,
                target,
                post,
            )
            ||| LogBufferBarrier::<DRCBarrierSemantics<VM>>::write_expected(pre, object, post)
            ||| LogBufferBarrier::<DRCBarrierSemantics<VM>>::copy_prepared(pre, src, dst, post)
        }),
    ensures
        post.plan@.ms == pre.plan@.ms,
        post.plan@.common == pre.plan@.common,
        post.plan@.old_roots == pre.plan@.old_roots,
        post.plan@.new_roots == pre.plan@.new_roots,
        post.plan.plan_constraints() == pre.plan.plan_constraints(),
        post.plan.mapping() == pre.plan.mapping(),
        pre.plan@.log.is_prefix_of(post.plan@.log),
        post.memory == pre.memory || post.memory == pre.memory.with_metadata(
            VM::log_spec().spec,
            object,
            0,
        ),
        LogBufferBarrier::<DRCBarrierSemantics<VM>>::flushed(pre, post) ==> post.memory
            == pre.memory && post.actor.entries().len() == 0,
        LogBufferBarrier::<DRCBarrierSemantics<VM>>::copy_prepared(pre, src, dst, post)
            ==> post.memory == pre.memory && post.plan == pre.plan && post.actor.entries()
            == pre.actor.entries(),
        !LogBufferBarrier::<DRCBarrierSemantics<VM>>::flushed(pre, post)
            && !LogBufferBarrier::<DRCBarrierSemantics<VM>>::copy_prepared(pre, src, dst, post)
            ==> post.memory.metadata(VM::log_spec().spec, object) == 0,
        DRCBarrierSemantics::<VM>::unlog_bit() == VM::log_spec().spec,
{
    VM::layout_is_valid();
    let bit = VM::log_spec().spec;
    lemma_low_mask(bit.num_of_bits);
    law_metadata_write(pre.memory, bit, object, 0, bit, object);
    let then = LogBufferBarrier::<DRCBarrierSemantics<VM>>::slow_moment(post);
    assert(then.plan == post.plan && then.memory == post.memory);
}

/// What mutators log stays made of whole groups, in their own buffers and in the plan: so it can
/// always be decoded.
pub proof fn law_logs_stay_well_grouped<VM: VMBinding>(
    pre: Moment<LogBufferBarrier<DRCBarrierSemantics<VM>>, DeferredReferenceCounting>,
    object: ObjectReference,
    slot: Slot,
    target: Option<ObjectReference>,
    post: Moment<LogBufferBarrier<DRCBarrierSemantics<VM>>, DeferredReferenceCounting>,
)
    requires
        well_grouped(pre.plan@.log),
        well_grouped(pre.actor.entries()),
        ({
            ||| LogBufferBarrier::<DRCBarrierSemantics<VM>>::flushed(pre, post)
            ||| LogBufferBarrier::<DRCBarrierSemantics<VM>>::write_prepared(
                pre,
                object,
                slot,
                target,
                post,
            )
            ||| LogBufferBarrier::<DRCBarrierSemantics<VM>>::write_handled(
                pre,
                object,
                slot,
                target,
                post,
            )
            ||| LogBufferBarrier::<DRCBarrierSemantics<VM>>::write_expected(pre, object, post)
        }),
    ensures
        well_grouped(post.plan@.log),
        well_grouped(post.actor.entries()),
{
    assert(LogBufferBarrier::<DRCBarrierSemantics<VM>>::slow_moment(post).plan == post.plan);
    if LogBufferBarrier::<DRCBarrierSemantics<VM>>::flushed(pre, post) {
        law_combining_keeps_groups(pre.plan@.log, pre.actor.entries());
    } else if is_unlogged(pre.memory, VM::log_spec().spec, object) {
        let group = Group { object, children: pre.memory.children(object) };
        law_first_write_logs_former_children::<DRCBarrierSemantics<VM>>(
            pre,
            object,
            slot,
            target,
            post,
        );
        law_recording_adds_one_group(pre.actor.entries(), group);
        law_combining_keeps_groups(pre.plan@.log, pre.actor.entries() + group.entries());
    }
}

/// The plan takes over ordinary objects alone: every other kind of allocation keeps the allocator
/// that it has for all plans. Ordinary objects go to the one allocator that the plan keeps for
/// itself, which is of the kind that its mark-sweep space uses.
pub proof fn law_the_plan_takes_over_ordinary_objects_alone(
    common: spec_fn(AllocationSemantics) -> AllocatorSelector,
    features: PlanFeatures,
    semantics: AllocationSemantics,
)
    ensures
        semantics != AllocationSemantics::Default ==> drc_mapping(common, features)(semantics)
            == common(semantics),
        features.malloc_mark_sweep ==> drc_mapping(common, features)(AllocationSemantics::Default)
            == AllocatorSelector::Malloc(0),
        !features.malloc_mark_sweep ==> drc_mapping(common, features)(
            AllocationSemantics::Default,
        ) == AllocatorSelector::FreeList(0),
        reserved_for(features).n_malloc == if features.malloc_mark_sweep {
            1int
        } else {
            0int
        },
        reserved_for(features).n_free_list == if features.malloc_mark_sweep {
            0int
        } else {
            1int
        },
        reserved_for(features).n_bump_pointer == 0,
        reserved_for(features).n_large_object == 0,
        reserved_for(features).n_immix == 0,
        reserved_for(features).n_mark_compact == 0,
{
}

}
