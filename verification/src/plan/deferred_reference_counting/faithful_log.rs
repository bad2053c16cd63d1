//! Why the log is right: what mutators log between two collections is what counting needs to know.
//!
//! Counting relies on a log that holds every object whose fields have changed since the last
//! collection, once, with the children that it had then. The barrier keeps the log that way with
//! every write, and a collection that ends starts a new one.

use vstd::prelude::*;

use crate::plan::barriers::log_attempt::{is_unlogged, with_logged};
use crate::plan::barriers::log_barrier::{
    law_first_write_logs_former_children, law_recording_adds_one_group, LogBufferBarrier,
};
use crate::plan::barriers::log_buffer::{
    law_combining_keeps_groups, logged_groups, well_grouped, Group,
};
use crate::plan::barriers::Barrier;
use crate::plan::deferred_reference_counting::cascade::occurrences;
use crate::plan::deferred_reference_counting::exactness::{
    collected, counts_exact, kept, law_a_collection_keeps_counts_exact,
    law_a_collection_keeps_what_roots_reach, law_increments_add_up, logged_faithfully,
    logged_objects, present_references,
};
use crate::plan::deferred_reference_counting::gc_work::all_incremented;
use crate::plan::deferred_reference_counting::global::{DRCView, DeferredReferenceCounting};
use crate::plan::deferred_reference_counting::mutator::{
    law_logging_loses_nothing, law_logs_stay_well_grouped, DRCBarrierSemantics,
};
use crate::plan::deferred_reference_counting::zero_counts::count_of;
use crate::plan::Moment;
use crate::util::address::ObjectReference;
use crate::util::metadata::{law_metadata_write, lemma_low_mask};
use crate::vm::{referents, Memory, MemorySlice, Slot, VMBinding};

verus! {

/// `groups` tell all that has happened to the objects in `heap` between `before`, when the last
/// collection ended, and `memory`: they log every object at most once and with its former children,
/// the logged objects are those whose unlog bit is clear, and the others have the children that
/// they had. No count has changed.
pub open spec fn log_covers<VM: VMBinding>(
    before: Memory,
    heap: Set<ObjectReference>,
    memory: Memory,
    groups: Seq<Group>,
) -> bool {
    &&& logged_faithfully(before, groups)
    &&& logged_objects(groups).subset_of(heap)
    &&& forall|o: ObjectReference|
        heap.contains(o) ==> (#[trigger] is_unlogged(memory, VM::log_spec().spec, o)
            <==> !logged_objects(groups).contains(o))
    &&& forall|o: ObjectReference|
        heap.contains(o) && !logged_objects(groups).contains(o) ==> #[trigger] memory.children(o)
            == before.children(o)
    &&& forall|o: ObjectReference| #[trigger]
        count_of::<VM>(memory, o) == count_of::<VM>(before, o)
}

/// What the plan has in its log, followed by what a mutator has not handed in yet.
pub open spec fn logged_so_far<VM: VMBinding>(
    at: Moment<LogBufferBarrier<DRCBarrierSemantics<VM>>, DeferredReferenceCounting>,
) -> Seq<Group> {
    logged_groups(at.plan@.log) + logged_groups(at.actor.entries())
}

/// A group is added to a log that does not have its object.
proof fn lemma_one_more_group(before: Memory, first: Seq<Group>, group: Group, second: Seq<Group>)
    requires
        logged_faithfully(before, first + second),
        group.children == before.children(group.object),
        !logged_objects(first + second).contains(group.object),
    ensures
        logged_faithfully(before, first.push(group) + second),
        logged_objects(first.push(group) + second) == logged_objects(first + second).insert(
            group.object,
        ),
{
    let old_groups = first + second;
    let groups = first.push(group) + second;
    let n = first.len() as int;
    let old_names = old_groups.map_values(|g: Group| g.object);
    let names = groups.map_values(|g: Group| g.object);
    let place = |i: int| if i < n { i } else { i - 1 };
    assert forall|i: int| 0 <= i < groups.len() && i != n implies #[trigger] groups[i]
        == old_groups[place(i)] by {}
    assert(groups[n] == group);
    assert forall|i: int| 0 <= i < old_groups.len() implies old_names.contains(
        #[trigger] old_groups[i].object,
    ) by {
        assert(old_names[i] == old_groups[i].object);
    }
    assert forall|i: int, j: int| 0 <= i < j < groups.len() implies (#[trigger] groups[i]).object
        != (#[trigger] groups[j]).object by {
        if i == n {
            assert(groups[j] == old_groups[place(j)]);
            assert(old_names.contains(old_groups[place(j)].object));
        } else if j == n {
            assert(groups[i] == old_groups[place(i)]);
            assert(old_names.contains(old_groups[place(i)].object));
        } else {
            assert(groups[i] == old_groups[place(i)]);
            assert(groups[j] == old_groups[place(j)]);
        }
    }
    assert forall|o: ObjectReference| logged_objects(groups).contains(o) == logged_objects(
        old_groups,
    ).insert(group.object).contains(o) by {
        if names.contains(o) {
            let i = choose|i: int| 0 <= i < names.len() && names[i] == o;
            if i != n {
                assert(groups[i] == old_groups[place(i)]);
                assert(old_names.contains(old_groups[place(i)].object));
            }
        }
        if old_names.contains(o) {
            let i = choose|i: int| 0 <= i < old_names.len() && old_names[i] == o;
            let k = if i < n { i } else { i + 1 };
            assert(names[k] == o);
        }
        if o == group.object {
            assert(names[n] == o);
        }
    }
    assert(logged_objects(groups) =~= logged_objects(old_groups).insert(group.object));
}

/// Logging an object keeps the log right, and leaves the object logged, whichever entry point of
/// the barrier the runtime calls. `others` are the groups that other mutators hold.
pub proof fn law_logging_keeps_the_log_right<VM: VMBinding>(
    before: Memory,
    heap: Set<ObjectReference>,
    others: Seq<Group>,
    pre: Moment<LogBufferBarrier<DRCBarrierSemantics<VM>>, DeferredReferenceCounting>,
    object: ObjectReference,
    slot: Slot,
    target: Option<ObjectReference>,
    post: Moment<LogBufferBarrier<DRCBarrierSemantics<VM>>, DeferredReferenceCounting>,
)
    requires
        well_grouped(pre.plan@.log),
        well_grouped(pre.actor.entries()),
        log_covers::<VM>(before, heap, pre.memory, logged_so_far::<VM>(pre) + others),
        heap.contains(object),
        ({
            ||| LogBufferBarrier::<DRCBarrierSemantics<VM>>::write_prepared(
                pre,
                object,
                slot,
                target,
                post,
            )
            ||| LogBufferBarrier::<DRCBarrierSemantics<VM>>::write_handled(
                pre,
                object,
                slot,
                target,
                post,
            )
            ||| LogBufferBarrier::<DRCBarrierSemantics<VM>>::write_expected(pre, object, post)
        }),
    ensures
        well_grouped(post.plan@.log),
        well_grouped(post.actor.entries()),
        log_covers::<VM>(before, heap, post.memory, logged_so_far::<VM>(post) + others),
        logged_objects(logged_so_far::<VM>(post) + others).contains(object),
        post.memory == (Memory { headers: post.memory.headers, ..pre.memory }),
{
    VM::layout_is_valid();
    let bit = VM::log_spec().spec;
    lemma_low_mask(bit.num_of_bits);
    law_logs_stay_well_grouped::<VM>(pre, object, slot, target, post);
    if is_unlogged(pre.memory, bit, object) {
        let group = Group { object, children: pre.memory.children(object) };
        let entries = pre.plan@.log + pre.actor.entries();
        let memory = with_logged(pre.memory, bit, object);
        law_first_write_logs_former_children::<DRCBarrierSemantics<VM>>(
            pre,
            object,
            slot,
            target,
            post,
        );
        law_logging_loses_nothing::<VM>(pre, object, slot, target, post);
        law_combining_keeps_groups(pre.plan@.log, pre.actor.entries());
        law_combining_keeps_groups(post.plan@.log, post.actor.entries());
        law_recording_adds_one_group(entries, group);
        assert(logged_so_far::<VM>(post) == logged_so_far::<VM>(pre).push(group));
        lemma_one_more_group(before, logged_so_far::<VM>(pre), group, others);
        assert(LogBufferBarrier::<DRCBarrierSemantics<VM>>::slow_moment(post).memory
            == post.memory);
        assert(post.memory == memory);
        assert forall|o: ObjectReference| heap.contains(o) implies (#[trigger] is_unlogged(
            post.memory,
            bit,
            o,
        ) <==> !logged_objects(logged_so_far::<VM>(post) + others).contains(o)) by {
            law_metadata_write(pre.memory, bit, object, 0, bit, o);
            assert(is_unlogged(pre.memory, bit, o) <==> !logged_objects(
                logged_so_far::<VM>(pre) + others,
            ).contains(o));
        }
        assert forall|o: ObjectReference| #[trigger]
            count_of::<VM>(post.memory, o) == count_of::<VM>(before, o) by {
            law_metadata_write(pre.memory, bit, object, 0, VM::count_spec().spec, o);
            assert(count_of::<VM>(pre.memory, o) == count_of::<VM>(before, o));
        }
        assert forall|o: ObjectReference|
            heap.contains(o) && !logged_objects(logged_so_far::<VM>(post) + others).contains(
                o,
            ) implies #[trigger] post.memory.children(o) == before.children(o) by {
            assert(pre.memory.children(o) == before.children(o));
        }
    }
}

/// What slots refer to depends on those slots alone.
proof fn lemma_referents_agree(
    content: spec_fn(Slot) -> Option<ObjectReference>,
    other: spec_fn(Slot) -> Option<ObjectReference>,
    slots: Seq<Slot>,
)
    requires
        forall|i: int| 0 <= i < slots.len() ==> content(#[trigger] slots[i]) == other(slots[i]),
    ensures
        referents(content, slots) == referents(other, slots),
    decreases slots.len(),
{
    if slots.len() > 0 {
        assert(content(slots[slots.len() - 1]) == other(slots[slots.len() - 1]));
        assert forall|i: int| 0 <= i < slots.drop_last().len() implies content(
            #[trigger] slots.drop_last()[i],
        ) == other(slots.drop_last()[i]) by {
            assert(slots.drop_last()[i] == slots[i]);
        }
        lemma_referents_agree(content, other, slots.drop_last());
    }
}

/// The fields of logged objects may change freely: the log stays right as long as the fields of all
/// other objects keep what they hold.
pub proof fn law_logged_objects_may_change<VM: VMBinding>(
    before: Memory,
    heap: Set<ObjectReference>,
    memory: Memory,
    after: Memory,
    groups: Seq<Group>,
)
    requires
        log_covers::<VM>(before, heap, memory, groups),
        after == (Memory { slots: after.slots, ..memory }),
        forall|o: ObjectReference, i: int|
            heap.contains(o) && !logged_objects(groups).contains(o) && 0 <= i < memory.fields_of(
                o,
            ).len() ==> after.slot(#[trigger] memory.fields_of(o)[i]) == memory.slot(
                memory.fields_of(o)[i],
            ),
    ensures
        log_covers::<VM>(before, heap, after, groups),
{
    assert forall|o: ObjectReference|
        heap.contains(o) && !logged_objects(groups).contains(o) implies #[trigger] after.children(o)
        == before.children(o) by {
        assert(memory.children(o) == before.children(o));
        assert forall|i: int| 0 <= i < memory.fields_of(o).len() implies (after.slots)(
            #[trigger] memory.fields_of(o)[i],
        ) == (memory.slots)(memory.fields_of(o)[i]) by {
            assert(after.slot(memory.fields_of(o)[i]) == memory.slot(memory.fields_of(o)[i]));
        }
        lemma_referents_agree(after.slots, memory.slots, memory.fields_of(o));
    }
    assert forall|o: ObjectReference| heap.contains(o) implies (#[trigger] is_unlogged(
        after,
        VM::log_spec().spec,
        o,
    ) <==> !logged_objects(groups).contains(o)) by {
        assert(is_unlogged(memory, VM::log_spec().spec, o) <==> !logged_objects(groups).contains(o));
    }
    assert forall|o: ObjectReference| #[trigger]
        count_of::<VM>(after, o) == count_of::<VM>(before, o) by {
        assert(count_of::<VM>(memory, o) == count_of::<VM>(before, o));
    }
}

/// A write keeps the log right if any entry point of the barrier is called before the store, where
/// the slot is a field of no other object. `between` is the moment between the barrier and the
/// store, and `others` are the groups that other mutators hold.
pub proof fn law_writes_keep_the_log_right<VM: VMBinding>(
    before: Memory,
    heap: Set<ObjectReference>,
    others: Seq<Group>,
    pre: Moment<LogBufferBarrier<DRCBarrierSemantics<VM>>, DeferredReferenceCounting>,
    src: ObjectReference,
    slot: Slot,
    target: Option<ObjectReference>,
    between: Moment<LogBufferBarrier<DRCBarrierSemantics<VM>>, DeferredReferenceCounting>,
    post: Moment<LogBufferBarrier<DRCBarrierSemantics<VM>>, DeferredReferenceCounting>,
)
    requires
        well_grouped(pre.plan@.log),
        well_grouped(pre.actor.entries()),
        log_covers::<VM>(before, heap, pre.memory, logged_so_far::<VM>(pre) + others),
        heap.contains(src),
        forall|o: ObjectReference|
            heap.contains(o) && o != src ==> !(#[trigger] pre.memory.fields_of(o)).contains(slot),
        ({
            ||| LogBufferBarrier::<DRCBarrierSemantics<VM>>::write_prepared(
                pre,
                src,
                slot,
                target,
                between,
            )
            ||| LogBufferBarrier::<DRCBarrierSemantics<VM>>::write_handled(
                pre,
                src,
                slot,
                target,
                between,
            )
            ||| LogBufferBarrier::<DRCBarrierSemantics<VM>>::write_expected(pre, src, between)
        }),
        post == (Moment { memory: between.memory.with_slot(slot, target), ..between }),
    ensures
        well_grouped(post.plan@.log),
        well_grouped(post.actor.entries()),
        log_covers::<VM>(before, heap, post.memory, logged_so_far::<VM>(post) + others),
{
    law_logging_keeps_the_log_right::<VM>(
        before,
        heap,
        others,
        pre,
        src,
        slot,
        target,
        between,
    );
    let groups = logged_so_far::<VM>(between) + others;
    assert forall|o: ObjectReference, i: int|
        heap.contains(o) && !logged_objects(groups).contains(o) && 0 <= i
            < between.memory.fields_of(o).len() implies post.memory.slot(
        #[trigger] between.memory.fields_of(o)[i],
    ) == between.memory.slot(between.memory.fields_of(o)[i]) by {
        assert(!pre.memory.fields_of(o).contains(slot));
        assert(pre.memory.fields_of(o)[i] == between.memory.fields_of(o)[i]);
    }
    law_logged_objects_may_change::<VM>(before, heap, between.memory, post.memory, groups);
}

/// A copy through the barrier logs nothing, and keeps the log right where it writes to the fields
/// of logged objects only. `between` is the moment between the pre-copy barrier and the copy, and
/// `others` are the groups that other mutators hold.
pub proof fn law_copies_to_logged_objects_keep_the_log_right<VM: VMBinding>(
    before: Memory,
    heap: Set<ObjectReference>,
    others: Seq<Group>,
    pre: Moment<LogBufferBarrier<DRCBarrierSemantics<VM>>, DeferredReferenceCounting>,
    src: MemorySlice,
    dst: MemorySlice,
    between: Moment<LogBufferBarrier<DRCBarrierSemantics<VM>>, DeferredReferenceCounting>,
    post: Moment<LogBufferBarrier<DRCBarrierSemantics<VM>>, DeferredReferenceCounting>,
)
    requires
        log_covers::<VM>(before, heap, pre.memory, logged_so_far::<VM>(pre) + others),
        forall|o: ObjectReference, i: int|
            heap.contains(o) && is_unlogged(pre.memory, VM::log_spec().spec, o) && 0 <= i
                < pre.memory.fields_of(o).len() ==> !dst.has_slot(
                #[trigger] pre.memory.fields_of(o)[i],
            ),
        LogBufferBarrier::<DRCBarrierSemantics<VM>>::copy_prepared(pre, src, dst, between),
        post == (Moment { memory: between.memory.with_copy(src, dst), ..between }),
    ensures
        post.plan@.log == pre.plan@.log,
        post.actor.entries() == pre.actor.entries(),
        log_covers::<VM>(before, heap, post.memory, logged_so_far::<VM>(post) + others),
{
    let groups = logged_so_far::<VM>(pre) + others;
    let slow = LogBufferBarrier::<DRCBarrierSemantics<VM>>::slow_moment(between);
    assert(slow.memory == between.memory && slow.plan == between.plan);
    assert forall|o: ObjectReference, i: int|
        heap.contains(o) && !logged_objects(groups).contains(o) && 0 <= i < pre.memory.fields_of(
            o,
        ).len() implies post.memory.slot(#[trigger] pre.memory.fields_of(o)[i])
        == pre.memory.slot(pre.memory.fields_of(o)[i]) by {
        assert(is_unlogged(pre.memory, VM::log_spec().spec, o));
        assert(!dst.has_slot(pre.memory.fields_of(o)[i]));
    }
    law_logged_objects_may_change::<VM>(before, heap, pre.memory, post.memory, groups);
}

/// Flushing a mutator keeps the log right, and moves all that the mutator has logged to the plan.
pub proof fn law_flushing_keeps_the_log_right<VM: VMBinding>(
    before: Memory,
    heap: Set<ObjectReference>,
    others: Seq<Group>,
    pre: Moment<LogBufferBarrier<DRCBarrierSemantics<VM>>, DeferredReferenceCounting>,
    post: Moment<LogBufferBarrier<DRCBarrierSemantics<VM>>, DeferredReferenceCounting>,
)
    requires
        well_grouped(pre.plan@.log),
        well_grouped(pre.actor.entries()),
        log_covers::<VM>(before, heap, pre.memory, logged_so_far::<VM>(pre) + others),
        LogBufferBarrier::<DRCBarrierSemantics<VM>>::flushed(pre, post),
    ensures
        well_grouped(post.plan@.log),
        logged_groups(post.plan@.log) == logged_so_far::<VM>(pre),
        log_covers::<VM>(before, heap, post.memory, logged_groups(post.plan@.log) + others),
        post.memory == pre.memory,
{
    let object = arbitrary::<ObjectReference>();
    let slot = arbitrary::<Slot>();
    law_logs_stay_well_grouped::<VM>(pre, object, slot, None, post);
    law_logging_loses_nothing::<VM>(pre, object, slot, None, post);
    law_combining_keeps_groups(pre.plan@.log, pre.actor.entries());
    assert(post.plan@.log + post.actor.entries() =~= post.plan@.log);
    assert(LogBufferBarrier::<DRCBarrierSemantics<VM>>::slow_moment(post).memory == post.memory);
}

/// In which order mutators have logged does not matter.
pub proof fn law_the_order_of_logs_does_not_matter<VM: VMBinding>(
    before: Memory,
    heap: Set<ObjectReference>,
    memory: Memory,
    first: Seq<Group>,
    second: Seq<Group>,
    third: Seq<Group>,
)
    requires
        log_covers::<VM>(before, heap, memory, first + second + third),
    ensures
        log_covers::<VM>(before, heap, memory, first + third + second),
{
    let groups = first + second + third;
    let swapped = first + third + second;
    let names = groups.map_values(|g: Group| g.object);
    let swapped_names = swapped.map_values(|g: Group| g.object);
    let place = |i: int|
        if i < first.len() {
            i
        } else if i < first.len() + third.len() {
            i + second.len()
        } else {
            i - third.len()
        };
    let back = |i: int|
        if i < first.len() {
            i
        } else if i < first.len() + second.len() {
            i + third.len()
        } else {
            i - second.len()
        };
    assert forall|i: int| 0 <= i < swapped.len() implies #[trigger] swapped[i]
        == groups[place(i)] by {}
    assert forall|i: int, j: int| 0 <= i < j < swapped.len() implies (#[trigger] swapped[i]).object
        != (#[trigger] swapped[j]).object by {
        let k = place(i);
        let l = place(j);
        assert(k != l);
        assert(swapped[i] == groups[k]);
        assert(swapped[j] == groups[l]);
        assert(groups[k].object != groups[l].object);
    }
    assert forall|o: ObjectReference| logged_objects(swapped).contains(o) == logged_objects(
        groups,
    ).contains(o) by {
        if swapped_names.contains(o) {
            let i = choose|i: int| 0 <= i < swapped_names.len() && swapped_names[i] == o;
            assert(names[place(i)] == o);
        }
        if names.contains(o) {
            let i = choose|i: int| 0 <= i < names.len() && names[i] == o;
            assert(swapped_names[back(i)] == o);
        }
    }
    assert(logged_objects(swapped) =~= logged_objects(groups));
}

proof fn lemma_present_references_agree(
    memory: Memory,
    other: Memory,
    groups: Seq<Group>,
    object: ObjectReference,
)
    requires
        memory.slots == other.slots,
        memory.fields == other.fields,
    ensures
        present_references(memory, groups, object) == present_references(other, groups, object),
    decreases groups.len(),
{
    if groups.len() > 0 {
        lemma_present_references_agree(memory, other, groups.drop_last(), object);
    }
}

/// What a collection starts from: counts that were exact when the last one ended, a log that tells
/// what has happened since, roots and fields that refer to objects of the plan, and counts that
/// have room for the references that are added.
pub open spec fn ready_to_collect<VM: VMBinding>(
    before: Memory,
    memory: Memory,
    plan: DRCView,
) -> bool {
    &&& counts_exact::<VM>(before, plan.objects().to_set(), plan.old_roots)
    &&& log_covers::<VM>(before, plan.objects().to_set(), memory, logged_groups(plan.log))
    &&& forall|o: ObjectReference| #[trigger]
        count_of::<VM>(memory, o) + occurrences(plan.new_roots, o) + present_references(
            memory,
            logged_groups(plan.log),
            o,
        ) <= VM::count_spec().greatest()
    &&& forall|o: ObjectReference, i: int|
        plan.objects().contains(o) && 0 <= i < memory.children(o).len()
            ==> plan.objects().contains(#[trigger] memory.children(o)[i])
    &&& forall|i: int|
        0 <= i < plan.new_roots.len() ==> plan.objects().contains(#[trigger] plan.new_roots[i])
}

/// Counting the roots gets the counts ready for the rest of a collection.
proof fn lemma_roots_counted<VM: VMBinding>(before: Memory, memory: Memory, plan: DRCView)
    requires
        ready_to_collect::<VM>(before, memory, plan),
    ensures
        ({
            let now = all_incremented::<VM>(memory, plan.new_roots);
            let groups = logged_groups(plan.log);
            &&& now == (Memory { headers: now.headers, ..memory })
            &&& forall|o: ObjectReference| #[trigger]
                count_of::<VM>(now, o) == count_of::<VM>(before, o) + occurrences(
                    plan.new_roots,
                    o,
                )
            &&& forall|o: ObjectReference|
                plan.objects().contains(o) && !logged_objects(groups).contains(o)
                    ==> #[trigger] now.children(o) == before.children(o)
            &&& forall|o: ObjectReference| #[trigger]
                count_of::<VM>(now, o) + present_references(now, groups, o)
                    <= VM::count_spec().greatest()
            &&& forall|o: ObjectReference, i: int|
                plan.objects().contains(o) && 0 <= i < now.children(o).len()
                    ==> plan.objects().contains(#[trigger] now.children(o)[i])
        }),
{
    let groups = logged_groups(plan.log);
    let now = all_incremented::<VM>(memory, plan.new_roots);
    assert forall|o: ObjectReference| #[trigger]
        count_of::<VM>(memory, o) + occurrences(plan.new_roots, o)
            <= VM::count_spec().greatest() by {
        assert(count_of::<VM>(memory, o) + occurrences(plan.new_roots, o) + present_references(
            memory,
            groups,
            o,
        ) <= VM::count_spec().greatest());
    }
    law_increments_add_up::<VM>(memory, plan.new_roots);
    assert forall|o: ObjectReference| #[trigger]
        count_of::<VM>(now, o) == count_of::<VM>(before, o) + occurrences(plan.new_roots, o) by {
        assert(count_of::<VM>(memory, o) == count_of::<VM>(before, o));
    }
    assert forall|o: ObjectReference|
        plan.objects().contains(o) && !logged_objects(groups).contains(o) implies #[trigger]
        now.children(o) == before.children(o) by {
        assert(plan.objects().to_set().contains(o));
        assert(memory.children(o) == before.children(o));
    }
    assert forall|o: ObjectReference| #[trigger]
        count_of::<VM>(now, o) + present_references(now, groups, o)
            <= VM::count_spec().greatest() by {
        lemma_present_references_agree(memory, now, groups, o);
        assert(count_of::<VM>(memory, o) + occurrences(plan.new_roots, o) + present_references(
            memory,
            groups,
            o,
        ) <= VM::count_spec().greatest());
        assert(count_of::<VM>(memory, o) == count_of::<VM>(before, o));
    }
    assert forall|o: ObjectReference, i: int|
        plan.objects().contains(o) && 0 <= i < now.children(o).len() implies plan.objects().contains(
        #[trigger] now.children(o)[i],
    ) by {
        assert(now.children(o)[i] == memory.children(o)[i]);
    }
}

/// From one collection to the next: with exact counts and a right log, a collection ends with exact
/// counts and a right log, which is empty.
pub proof fn law_from_one_collection_to_the_next<VM: VMBinding>(
    before: Memory,
    memory: Memory,
    plan: DRCView,
)
    requires
        ready_to_collect::<VM>(before, memory, plan),
    ensures
        ({
            let now = all_incremented::<VM>(memory, plan.new_roots);
            let end = collected::<VM>(now, plan);
            &&& counts_exact::<VM>(end, kept::<VM>(now, plan), plan.new_roots)
            &&& log_covers::<VM>(end, kept::<VM>(now, plan), end, Seq::empty())
        }),
{
    let now = all_incremented::<VM>(memory, plan.new_roots);
    let end = collected::<VM>(now, plan);
    lemma_roots_counted::<VM>(before, memory, plan);
    law_a_collection_keeps_counts_exact::<VM>(before, now, plan);
    let none = Seq::<Group>::empty();
    assert(logged_objects(none) =~= Set::empty());
    assert forall|o: ObjectReference| kept::<VM>(now, plan).contains(o) implies (
    #[trigger] is_unlogged(end, VM::log_spec().spec, o) <==> !logged_objects(none).contains(o)) by {
        assert(is_unlogged(end, VM::log_spec().spec, o));
    }
}

/// What roots reach is kept: with exact counts and a right log, every object on a path of
/// references that starts at a root survives the collection.
pub proof fn law_what_roots_reach_is_kept<VM: VMBinding>(
    before: Memory,
    memory: Memory,
    plan: DRCView,
    path: Seq<ObjectReference>,
)
    requires
        ready_to_collect::<VM>(before, memory, plan),
        path.len() > 0,
        plan.new_roots.contains(path[0]),
        forall|i: int|
            0 < i < path.len() ==> memory.children(path[i - 1]).contains(#[trigger] path[i]),
    ensures
        kept::<VM>(all_incremented::<VM>(memory, plan.new_roots), plan).contains(path.last()),
{
    let now = all_incremented::<VM>(memory, plan.new_roots);
    lemma_roots_counted::<VM>(before, memory, plan);
    assert forall|i: int| 0 < i < path.len() implies now.children(path[i - 1]).contains(
        #[trigger] path[i],
    ) by {
        assert(memory.children(path[i - 1]).contains(path[i]));
    }
    law_a_collection_keeps_what_roots_reach::<VM>(before, now, plan, path);
}

}
