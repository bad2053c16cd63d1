//! Why deferred counting is right: counts that were exact at one collection are exact at the next.
//!
//! A count is exact when it is the number of references from objects in the heap and from roots. As
//! long as no count reaches the maximum, every collection makes the counts exact, and then what it
//! reclaims cannot be reached from a root.

use vstd::prelude::*;

use crate::plan::barriers::log_attempt::is_unlogged;
use crate::plan::barriers::log_buffer::{logged_groups, Group};
use crate::plan::deferred_reference_counting::cascade::{
    law_the_dead_exist, law_the_dead_have_no_count, lemma_references_empty, lemma_references_insert,
    lemma_references_monotone, occurrences, references,
};
use crate::plan::deferred_reference_counting::gc_work::{
    all_decremented, all_incremented, final_cascade, final_counts, group_counted, groups_counted,
    law_unlogging, law_what_finishing_leaves, slot_counted, survivors, uncounted, with_unlogged,
};
use crate::plan::deferred_reference_counting::global::{
    law_release_keeps_the_live, law_the_objects_of_a_plan, DRCView,
};
use crate::plan::deferred_reference_counting::zero_counts::{
    after_death, cascade_in, count_of, ScanFields,
};
use crate::util::address::{lemma_objects_finite, ObjectReference};
use crate::util::metadata::reference_count::{
    law_counting_changes_counts_alone, law_counts_never_wrap,
};
use crate::util::metadata::MetadataSpec;
use crate::vm::{referents, Memory, Slot, VMBinding};

verus! {

/// What the objects in memory refer to.
pub open spec fn edges(memory: Memory) -> spec_fn(ObjectReference) -> Seq<ObjectReference> {
    |object: ObjectReference| memory.children(object)
}

/// The count of every object is the number of references to it from the objects in `heap` and from
/// the roots.
pub open spec fn counts_exact<VM: VMBinding>(
    memory: Memory,
    heap: Set<ObjectReference>,
    roots: Seq<ObjectReference>,
) -> bool {
    forall|object: ObjectReference| #[trigger]
        count_of::<VM>(memory, object) == references(edges(memory), heap, object) + occurrences(
            roots,
            object,
        )
}

/// The objects that the given groups log.
pub open spec fn logged_objects(groups: Seq<Group>) -> Set<ObjectReference> {
    groups.map_values(|group: Group| group.object).to_set()
}

/// How often the logged children of the given groups name `object`.
pub open spec fn logged_references(groups: Seq<Group>, object: ObjectReference) -> nat
    decreases groups.len(),
{
    if groups.len() == 0 {
        0
    } else {
        logged_references(groups.drop_last(), object) + occurrences(groups.last().children, object)
    }
}

/// How often the objects that the given groups log refer to `object` at present.
pub open spec fn present_references(
    memory: Memory,
    groups: Seq<Group>,
    object: ObjectReference,
) -> nat
    decreases groups.len(),
{
    if groups.len() == 0 {
        0
    } else {
        present_references(memory, groups.drop_last(), object) + occurrences(
            memory.children(groups.last().object),
            object,
        )
    }
}

/// Increments add up: unless a count reaches the maximum, it grows by the number of times that its
/// object occurs. Fields and slots stay as they are.
pub proof fn law_increments_add_up<VM: VMBinding>(
    memory: Memory,
    objects: Seq<ObjectReference>,
)
    requires
        forall|o: ObjectReference| #[trigger]
            count_of::<VM>(memory, o) + occurrences(objects, o) <= VM::count_spec().greatest(),
    ensures
        forall|o: ObjectReference| #[trigger]
            count_of::<VM>(all_incremented::<VM>(memory, objects), o) == count_of::<VM>(memory, o)
                + occurrences(objects, o),
        all_incremented::<VM>(memory, objects) == (Memory {
            headers: all_incremented::<VM>(memory, objects).headers,
            ..memory
        }),
    decreases objects.len(),
{
    VM::layout_is_valid();
    if objects.len() > 0 {
        let fewer = objects.drop_last();
        assert forall|o: ObjectReference| #[trigger]
            count_of::<VM>(memory, o) + occurrences(fewer, o) <= VM::count_spec().greatest() by {
            assert(count_of::<VM>(memory, o) + occurrences(objects, o)
                <= VM::count_spec().greatest());
        }
        law_increments_add_up::<VM>(memory, fewer);
        let before = all_incremented::<VM>(memory, fewer);
        let object = objects.last();
        assert forall|o: ObjectReference| #[trigger]
            count_of::<VM>(all_incremented::<VM>(memory, objects), o) == count_of::<VM>(memory, o)
                + occurrences(objects, o) by {
            law_counts_never_wrap(VM::count_spec(), before, object, o);
            assert(count_of::<VM>(before, o) == count_of::<VM>(memory, o) + occurrences(fewer, o));
            assert(count_of::<VM>(memory, o) + occurrences(objects, o)
                <= VM::count_spec().greatest());
        }
    }
}

/// Decrements add up: unless a count reaches zero, it shrinks by the number of times that its
/// object occurs. Fields and slots stay as they are.
pub proof fn law_decrements_add_up<VM: VMBinding>(
    memory: Memory,
    objects: Seq<ObjectReference>,
)
    requires
        forall|o: ObjectReference| #[trigger]
            count_of::<VM>(memory, o) >= occurrences(objects, o),
    ensures
        forall|o: ObjectReference| #[trigger]
            count_of::<VM>(all_decremented::<VM>(memory, objects), o) == count_of::<VM>(memory, o)
                - occurrences(objects, o),
        all_decremented::<VM>(memory, objects) == (Memory {
            headers: all_decremented::<VM>(memory, objects).headers,
            ..memory
        }),
    decreases objects.len(),
{
    VM::layout_is_valid();
    if objects.len() > 0 {
        let fewer = objects.drop_last();
        assert forall|o: ObjectReference| #[trigger]
            count_of::<VM>(memory, o) >= occurrences(fewer, o) by {
            assert(count_of::<VM>(memory, o) >= occurrences(objects, o));
        }
        law_decrements_add_up::<VM>(memory, fewer);
        let before = all_decremented::<VM>(memory, fewer);
        let object = objects.last();
        assert forall|o: ObjectReference| #[trigger]
            count_of::<VM>(all_decremented::<VM>(memory, objects), o) == count_of::<VM>(memory, o)
                - occurrences(objects, o) by {
            law_counts_never_wrap(VM::count_spec(), before, object, o);
            assert(count_of::<VM>(before, o) == count_of::<VM>(memory, o) - occurrences(fewer, o));
            assert(count_of::<VM>(memory, o) >= occurrences(objects, o));
        }
    }
}

/// Bringing the counts up to date with logged objects takes back the references that were logged,
/// and adds those that the objects hold at present.
pub proof fn law_groups_add_up<VM: VMBinding>(memory: Memory, groups: Seq<Group>)
    requires
        forall|o: ObjectReference| #[trigger]
            count_of::<VM>(memory, o) >= logged_references(groups, o),
        forall|o: ObjectReference| #[trigger]
            count_of::<VM>(memory, o) + present_references(memory, groups, o)
                <= VM::count_spec().greatest(),
    ensures
        forall|o: ObjectReference| #[trigger]
            count_of::<VM>(groups_counted::<VM>(memory, groups), o) == count_of::<VM>(memory, o)
                - logged_references(groups, o) + present_references(memory, groups, o),
        groups_counted::<VM>(memory, groups) == (Memory {
            headers: groups_counted::<VM>(memory, groups).headers,
            ..memory
        }),
    decreases groups.len(),
{
    if groups.len() > 0 {
        let fewer = groups.drop_last();
        let group = groups.last();
        let greatest = VM::count_spec().greatest();
        assert forall|o: ObjectReference| #[trigger]
            count_of::<VM>(memory, o) >= logged_references(fewer, o) by {
            assert(count_of::<VM>(memory, o) >= logged_references(groups, o));
        }
        assert forall|o: ObjectReference| #[trigger]
            count_of::<VM>(memory, o) + present_references(memory, fewer, o) <= greatest by {
            assert(count_of::<VM>(memory, o) + present_references(memory, groups, o) <= greatest);
        }
        law_groups_add_up::<VM>(memory, fewer);
        let before = groups_counted::<VM>(memory, fewer);
        assert forall|o: ObjectReference| #[trigger]
            count_of::<VM>(before, o) >= occurrences(group.children, o) by {
            assert(count_of::<VM>(memory, o) >= logged_references(groups, o));
            assert(count_of::<VM>(before, o) == count_of::<VM>(memory, o) - logged_references(
                fewer,
                o,
            ) + present_references(memory, fewer, o));
        }
        law_decrements_add_up::<VM>(before, group.children);
        let without = all_decremented::<VM>(before, group.children);
        let now = without.children(group.object);
        assert(now == memory.children(group.object));
        assert forall|o: ObjectReference| #[trigger]
            count_of::<VM>(without, o) + occurrences(now, o) <= greatest by {
            assert(count_of::<VM>(memory, o) + present_references(memory, groups, o) <= greatest);
            assert(count_of::<VM>(before, o) == count_of::<VM>(memory, o) - logged_references(
                fewer,
                o,
            ) + present_references(memory, fewer, o));
            assert(count_of::<VM>(without, o) == count_of::<VM>(before, o) - occurrences(
                group.children,
                o,
            ));
        }
        law_increments_add_up::<VM>(without, now);
        let after = all_incremented::<VM>(without, now);
        assert(after == group_counted::<VM>(before, group));
        assert forall|o: ObjectReference| #[trigger]
            count_of::<VM>(groups_counted::<VM>(memory, groups), o) == count_of::<VM>(memory, o)
                - logged_references(groups, o) + present_references(memory, groups, o) by {
            assert(count_of::<VM>(before, o) == count_of::<VM>(memory, o) - logged_references(
                fewer,
                o,
            ) + present_references(memory, fewer, o));
            assert(count_of::<VM>(without, o) == count_of::<VM>(before, o) - occurrences(
                group.children,
                o,
            ));
            assert(count_of::<VM>(after, o) == count_of::<VM>(without, o) + occurrences(now, o));
        }
    }
}

/// The references from a heap are those from a part of it and those from the rest.
proof fn lemma_references_split(
    children: spec_fn(ObjectReference) -> Seq<ObjectReference>,
    part: Set<ObjectReference>,
    heap: Set<ObjectReference>,
    to: ObjectReference,
)
    requires
        part.subset_of(heap),
    ensures
        references(children, heap, to) == references(children, part, to) + references(
            children,
            heap.difference(part),
            to,
        ),
    decreases part.len(),
{
    lemma_objects_finite(part);
    if part.len() == 0 {
        assert(part =~= Set::empty());
        assert(heap.difference(part) =~= heap);
        lemma_references_empty(children, to);
    } else {
        let object = part.choose();
        let less = part.remove(object);
        lemma_references_split(children, less, heap, to);
        assert(less.insert(object) =~= part);
        lemma_references_insert(children, less, object, to);
        assert(heap.difference(part).insert(object) =~= heap.difference(less));
        lemma_references_insert(children, heap.difference(part), object, to);
    }
}

/// The references from objects depend on those objects alone.
proof fn lemma_references_agree(
    children: spec_fn(ObjectReference) -> Seq<ObjectReference>,
    other: spec_fn(ObjectReference) -> Seq<ObjectReference>,
    from: Set<ObjectReference>,
    to: ObjectReference,
)
    requires
        forall|o: ObjectReference| #[trigger] from.contains(o) ==> children(o) == other(o),
    ensures
        references(children, from, to) == references(other, from, to),
    decreases from.len(),
{
    lemma_objects_finite(from);
    if from.len() == 0 {
        assert(from =~= Set::empty());
        lemma_references_empty(children, to);
        lemma_references_empty(other, to);
    } else {
        let object = from.choose();
        let less = from.remove(object);
        assert forall|o: ObjectReference| #[trigger] less.contains(o) implies children(o) == other(
            o,
        ) by {
            assert(from.contains(o));
        }
        lemma_references_agree(children, other, less, to);
        assert(less.insert(object) =~= from);
        lemma_references_insert(children, less, object, to);
        lemma_references_insert(other, less, object, to);
    }
}

/// The groups log every object once, with the children that it had in `before`.
pub open spec fn logged_faithfully(before: Memory, groups: Seq<Group>) -> bool {
    &&& forall|i: int|
        0 <= i < groups.len() ==> (#[trigger] groups[i]).children == before.children(
            groups[i].object,
        )
    &&& forall|i: int, j: int|
        0 <= i < j < groups.len() ==> (#[trigger] groups[i]).object != (
        #[trigger] groups[j]).object
}

proof fn lemma_logged_references(
    before: Memory,
    now: Memory,
    groups: Seq<Group>,
    to: ObjectReference,
)
    requires
        logged_faithfully(before, groups),
    ensures
        logged_references(groups, to) == references(edges(before), logged_objects(groups), to),
        present_references(now, groups, to) == references(
            edges(now),
            logged_objects(groups),
            to,
        ),
    decreases groups.len(),
{
    if groups.len() == 0 {
        assert(logged_objects(groups) =~= Set::empty());
        lemma_references_empty(edges(before), to);
        lemma_references_empty(edges(now), to);
    } else {
        let fewer = groups.drop_last();
        let object = groups.last().object;
        lemma_logged_references(before, now, fewer, to);
        let names = groups.map_values(|group: Group| group.object);
        let earlier = fewer.map_values(|group: Group| group.object);
        assert(names =~= earlier.push(object));
        earlier.lemma_push_to_set_commute(object);
        assert(logged_objects(groups) == logged_objects(fewer).insert(object));
        assert(!logged_objects(fewer).contains(object)) by {
            if earlier.contains(object) {
                let i = choose|i: int| 0 <= i < earlier.len() && earlier[i] == object;
                assert(groups[i].object == groups[groups.len() - 1].object);
            }
        }
        lemma_references_insert(edges(before), logged_objects(fewer), object, to);
        lemma_references_insert(edges(now), logged_objects(fewer), object, to);
    }
}

/// Counts that were exact at the last collection are exact again once the new roots are counted,
/// the old ones are taken back, and every object that was modified in between is found in the log
/// with the children that it had before. `before` is the memory right after the last collection,
/// and `now` the memory once the new roots are counted. No count may reach the maximum on the way.
pub proof fn law_counts_stay_exact<VM: VMBinding>(
    before: Memory,
    now: Memory,
    heap: Set<ObjectReference>,
    old_roots: Seq<ObjectReference>,
    new_roots: Seq<ObjectReference>,
    groups: Seq<Group>,
)
    requires
        counts_exact::<VM>(before, heap, old_roots),
        forall|o: ObjectReference| #[trigger]
            count_of::<VM>(now, o) == count_of::<VM>(before, o) + occurrences(new_roots, o),
        logged_faithfully(before, groups),
        logged_objects(groups).subset_of(heap),
        forall|o: ObjectReference|
            heap.contains(o) && !logged_objects(groups).contains(o) ==> #[trigger] now.children(o)
                == before.children(o),
        forall|o: ObjectReference| #[trigger]
            count_of::<VM>(now, o) + present_references(now, groups, o)
                <= VM::count_spec().greatest(),
    ensures
        counts_exact::<VM>(
            groups_counted::<VM>(all_decremented::<VM>(now, old_roots), groups),
            heap,
            new_roots,
        ),
{
    let logged = logged_objects(groups);
    assert forall|o: ObjectReference| #[trigger]
        count_of::<VM>(now, o) >= occurrences(old_roots, o) by {
        assert(count_of::<VM>(before, o) == references(edges(before), heap, o) + occurrences(
            old_roots,
            o,
        ));
    }
    law_decrements_add_up::<VM>(now, old_roots);
    let without = all_decremented::<VM>(now, old_roots);
    assert(edges(without) =~= edges(now));
    assert forall|o: ObjectReference| #[trigger]
        count_of::<VM>(without, o) == references(edges(before), heap, o) + occurrences(
            new_roots,
            o,
        ) by {
        assert(count_of::<VM>(now, o) == count_of::<VM>(before, o) + occurrences(new_roots, o));
        assert(count_of::<VM>(before, o) == references(edges(before), heap, o) + occurrences(
            old_roots,
            o,
        ));
        assert(count_of::<VM>(without, o) == count_of::<VM>(now, o) - occurrences(old_roots, o));
    }
    assert forall|o: ObjectReference| #[trigger]
        count_of::<VM>(without, o) >= logged_references(groups, o) by {
        lemma_logged_references(before, now, groups, o);
        lemma_references_monotone(edges(before), logged, heap, o);
        assert(count_of::<VM>(without, o) >= references(edges(before), heap, o));
    }
    assert forall|o: ObjectReference| #[trigger]
        count_of::<VM>(without, o) + present_references(without, groups, o)
            <= VM::count_spec().greatest() by {
        lemma_logged_references(before, now, groups, o);
        lemma_logged_references(before, without, groups, o);
        assert(count_of::<VM>(now, o) + present_references(now, groups, o)
            <= VM::count_spec().greatest());
        assert(count_of::<VM>(without, o) == count_of::<VM>(now, o) - occurrences(old_roots, o));
    }
    law_groups_add_up::<VM>(without, groups);
    let after = groups_counted::<VM>(without, groups);
    assert(edges(after) =~= edges(now));
    assert forall|o: ObjectReference| #[trigger]
        count_of::<VM>(after, o) == references(edges(after), heap, o) + occurrences(
            new_roots,
            o,
        ) by {
        lemma_logged_references(before, without, groups, o);
        lemma_references_split(edges(before), logged, heap, o);
        lemma_references_split(edges(now), logged, heap, o);
        let rest = heap.difference(logged);
        assert forall|p: ObjectReference| #[trigger] rest.contains(p) implies edges(before)(p)
            == edges(now)(p) by {
            assert(now.children(p) == before.children(p));
        }
        lemma_references_agree(edges(before), edges(now), rest, o);
        assert(count_of::<VM>(after, o) == count_of::<VM>(without, o) - logged_references(
            groups,
            o,
        ) + present_references(without, groups, o));
    }
}

/// What occurs is counted.
proof fn lemma_occurs(objects: Seq<ObjectReference>, object: ObjectReference)
    requires
        objects.contains(object),
    ensures
        occurrences(objects, object) > 0,
    decreases objects.len(),
{
    if objects.last() != object {
        let i = choose|i: int| 0 <= i < objects.len() && objects[i] == object;
        assert(objects.drop_last()[i] == object);
        lemma_occurs(objects.drop_last(), object);
    }
}

/// Exact counts stay exact when objects die, for the heap without the dead. Nothing dies that is
/// not in the heap.
pub proof fn law_death_keeps_counts_exact<VM: VMBinding>(
    memory: Memory,
    heap: Set<ObjectReference>,
    roots: Seq<ObjectReference>,
    initial: Set<ObjectReference>,
    dead: Set<ObjectReference>,
)
    requires
        counts_exact::<VM>(memory, heap, roots),
        forall|o: ObjectReference| #[trigger]
            count_of::<VM>(memory, o) > 0 ==> heap.contains(o),
        initial.subset_of(heap),
        cascade_in::<VM, ScanFields>(ScanFields, memory, initial).kills(dead),
    ensures
        dead.subset_of(heap),
        counts_exact::<VM>(
            after_death::<VM>(
                memory,
                cascade_in::<VM, ScanFields>(ScanFields, memory, initial),
                dead,
            ),
            heap.difference(dead),
            roots,
        ),
{
    VM::layout_is_valid();
    let cascade = cascade_in::<VM, ScanFields>(ScanFields, memory, initial);
    let after = after_death::<VM>(memory, cascade, dead);
    let spec = VM::count_spec();
    assert(cascade.children =~= edges(memory));
    assert(edges(after) =~= edges(memory));
    assert forall|o: ObjectReference| dead.contains(o) implies heap.contains(o) by {
        law_the_dead_have_no_count(cascade, dead, o);
        assert(count_of::<VM>(memory, o) > 0 ==> heap.contains(o));
    }
    let remaining = |o: ObjectReference| cascade.remaining(dead, o);
    assert forall|o: ObjectReference| 0 <= #[trigger] remaining(o) <= spec.greatest() by {
        law_counts_never_wrap(spec, memory, o, o);
    }
    assert forall|o: ObjectReference| #[trigger]
        count_of::<VM>(after, o) == references(edges(after), heap.difference(dead), o)
            + occurrences(roots, o) by {
        spec.lemma_counts_read_back(memory, remaining, o);
        assert(count_of::<VM>(memory, o) == references(edges(memory), heap, o) + occurrences(
            roots,
            o,
        ));
        lemma_references_split(edges(memory), dead, heap, o);
    }
}

/// What can be reached from a root never dies: with exact counts, every object on a path of
/// references that starts at a root is alive and has a count once the dead are gone.
pub proof fn law_the_reachable_survive<VM: VMBinding>(
    memory: Memory,
    heap: Set<ObjectReference>,
    roots: Seq<ObjectReference>,
    initial: Set<ObjectReference>,
    dead: Set<ObjectReference>,
    path: Seq<ObjectReference>,
)
    requires
        counts_exact::<VM>(memory, heap, roots),
        forall|o: ObjectReference| #[trigger]
            count_of::<VM>(memory, o) > 0 ==> heap.contains(o),
        initial.subset_of(heap),
        cascade_in::<VM, ScanFields>(ScanFields, memory, initial).kills(dead),
        path.len() > 0,
        roots.contains(path[0]),
        forall|i: int|
            0 < i < path.len() ==> memory.children(path[i - 1]).contains(#[trigger] path[i]),
    ensures
        !dead.contains(path.last()),
        count_of::<VM>(
            after_death::<VM>(
                memory,
                cascade_in::<VM, ScanFields>(ScanFields, memory, initial),
                dead,
            ),
            path.last(),
        ) > 0,
    decreases path.len(),
{
    let cascade = cascade_in::<VM, ScanFields>(ScanFields, memory, initial);
    let after = after_death::<VM>(memory, cascade, dead);
    let left = heap.difference(dead);
    let object = path.last();
    law_death_keeps_counts_exact::<VM>(memory, heap, roots, initial, dead);
    assert(edges(after) =~= edges(memory));
    assert(count_of::<VM>(after, object) == references(edges(after), left, object) + occurrences(
        roots,
        object,
    ));
    if path.len() == 1 {
        lemma_occurs(roots, object);
    } else {
        let from = path[path.len() - 2];
        assert(path.drop_last().last() == from);
        assert(path[path.len() - 1] == object);
        law_the_reachable_survive::<VM>(memory, heap, roots, initial, dead, path.drop_last());
        assert(count_of::<VM>(memory, from) >= count_of::<VM>(after, from)) by {
            assert(count_of::<VM>(after, from) == references(edges(after), left, from)
                + occurrences(roots, from));
            assert(count_of::<VM>(memory, from) == references(edges(memory), heap, from)
                + occurrences(roots, from));
            lemma_references_monotone(edges(memory), left, heap, from);
        }
        assert(left.contains(from));
        lemma_occurs(memory.children(from), object);
        let others = left.remove(from);
        assert(others.insert(from) =~= left);
        lemma_references_insert(edges(memory), others, from, object);
    }
    if dead.contains(object) {
        law_the_dead_have_no_count(cascade, dead, object);
        VM::layout_is_valid();
        let spec = VM::count_spec();
        let remaining = |o: ObjectReference| cascade.remaining(dead, o);
        assert forall|o: ObjectReference| 0 <= #[trigger] remaining(o) <= spec.greatest() by {
            law_counts_never_wrap(spec, memory, o, o);
        }
        spec.lemma_counts_read_back(memory, remaining, object);
    }
}

/// The memory after a collection has brought the counts of `now` up to date and let objects die.
pub open spec fn collected<VM: VMBinding>(now: Memory, plan: DRCView) -> Memory {
    let counts = groups_counted::<VM>(
        all_decremented::<VM>(now, plan.old_roots),
        logged_groups(plan.log),
    );
    with_unlogged(
        final_counts::<VM>(counts, plan),
        VM::log_spec().spec,
        survivors::<VM>(counts, plan),
    )
}

/// The objects of the plan that survive such a collection.
pub open spec fn kept<VM: VMBinding>(now: Memory, plan: DRCView) -> Set<ObjectReference> {
    let counts = groups_counted::<VM>(
        all_decremented::<VM>(now, plan.old_roots),
        logged_groups(plan.log),
    );
    survivors::<VM>(counts, plan)
}

/// The two work packets of a collection make up the collection: the second one finds the log and
/// the old roots empty, and that makes no difference to it.
pub proof fn law_the_packets_make_a_collection<VM: VMBinding>(now: Memory, plan: DRCView)
    ensures
        ({
            let counts = groups_counted::<VM>(
                all_decremented::<VM>(now, plan.old_roots),
                logged_groups(plan.log),
            );
            let then = DRCView { old_roots: Seq::empty(), log: Seq::empty(), ..plan };
            &&& collected::<VM>(now, plan) == with_unlogged(
                final_counts::<VM>(counts, then),
                VM::log_spec().spec,
                survivors::<VM>(counts, then),
            )
            &&& kept::<VM>(now, plan) == survivors::<VM>(counts, then)
        }),
{
}

/// Once a collection has brought the counts up to date they are exact, and only objects of the plan
/// have a count.
proof fn lemma_counts_up_to_date<VM: VMBinding>(before: Memory, now: Memory, plan: DRCView)
    requires
        counts_exact::<VM>(before, plan.objects().to_set(), plan.old_roots),
        forall|o: ObjectReference| #[trigger]
            count_of::<VM>(now, o) == count_of::<VM>(before, o) + occurrences(plan.new_roots, o),
        logged_faithfully(before, logged_groups(plan.log)),
        logged_objects(logged_groups(plan.log)).subset_of(plan.objects().to_set()),
        forall|o: ObjectReference|
            plan.objects().contains(o) && !logged_objects(logged_groups(plan.log)).contains(o)
                ==> #[trigger] now.children(o) == before.children(o),
        forall|o: ObjectReference| #[trigger]
            count_of::<VM>(now, o) + present_references(now, logged_groups(plan.log), o)
                <= VM::count_spec().greatest(),
        forall|o: ObjectReference, i: int|
            plan.objects().contains(o) && 0 <= i < now.children(o).len()
                ==> plan.objects().contains(#[trigger] now.children(o)[i]),
        forall|i: int|
            0 <= i < plan.new_roots.len() ==> plan.objects().contains(
                #[trigger] plan.new_roots[i],
            ),
    ensures
        ({
            let counts = groups_counted::<VM>(
                all_decremented::<VM>(now, plan.old_roots),
                logged_groups(plan.log),
            );
            &&& counts_exact::<VM>(counts, plan.objects().to_set(), plan.new_roots)
            &&& edges(counts) == edges(now)
            &&& forall|o: ObjectReference| #[trigger]
                count_of::<VM>(counts, o) > 0 ==> plan.objects().contains(o)
        }),
{
    let heap = plan.objects().to_set();
    let groups = logged_groups(plan.log);
    let counts = groups_counted::<VM>(all_decremented::<VM>(now, plan.old_roots), groups);
    law_counts_stay_exact::<VM>(before, now, heap, plan.old_roots, plan.new_roots, groups);
    lemma_counting_keeps_edges::<VM>(now, plan.old_roots, groups);
    assert forall|o: ObjectReference| #[trigger]
        count_of::<VM>(counts, o) > 0 implies plan.objects().contains(o) by {
        assert(count_of::<VM>(counts, o) == references(edges(counts), heap, o) + occurrences(
            plan.new_roots,
            o,
        ));
        if occurrences(plan.new_roots, o) > 0 {
            lemma_occurs_back(plan.new_roots, o);
            let i = choose|i: int| 0 <= i < plan.new_roots.len() && plan.new_roots[i] == o;
            assert(plan.objects().contains(plan.new_roots[i]));
        } else {
            let p = lemma_referrer(edges(counts), heap, o);
            assert(edges(now)(p) == now.children(p));
            let i = choose|i: int| 0 <= i < now.children(p).len() && now.children(p)[i] == o;
            assert(plan.objects().contains(now.children(p)[i]));
        }
    }
}

/// A collection keeps counts exact: if they were exact for the objects of the plan when the last
/// collection ended in `before`, they are exact for the survivors when this one ends, with the new
/// roots in place of the old ones. The unlog bit of every survivor is set, so that its next
/// modification is logged. No count may reach the maximum on the way.
pub proof fn law_a_collection_keeps_counts_exact<VM: VMBinding>(
    before: Memory,
    now: Memory,
    plan: DRCView,
)
    requires
        counts_exact::<VM>(before, plan.objects().to_set(), plan.old_roots),
        forall|o: ObjectReference| #[trigger]
            count_of::<VM>(now, o) == count_of::<VM>(before, o) + occurrences(plan.new_roots, o),
        logged_faithfully(before, logged_groups(plan.log)),
        logged_objects(logged_groups(plan.log)).subset_of(plan.objects().to_set()),
        forall|o: ObjectReference|
            plan.objects().contains(o) && !logged_objects(logged_groups(plan.log)).contains(o)
                ==> #[trigger] now.children(o) == before.children(o),
        forall|o: ObjectReference| #[trigger]
            count_of::<VM>(now, o) + present_references(now, logged_groups(plan.log), o)
                <= VM::count_spec().greatest(),
        forall|o: ObjectReference, i: int|
            plan.objects().contains(o) && 0 <= i < now.children(o).len()
                ==> plan.objects().contains(#[trigger] now.children(o)[i]),
        forall|i: int|
            0 <= i < plan.new_roots.len() ==> plan.objects().contains(
                #[trigger] plan.new_roots[i],
            ),
    ensures
        counts_exact::<VM>(
            collected::<VM>(now, plan),
            kept::<VM>(now, plan),
            plan.new_roots,
        ),
        forall|o: ObjectReference| #[trigger]
            kept::<VM>(now, plan).contains(o) ==> is_unlogged(
                collected::<VM>(now, plan),
                VM::log_spec().spec,
                o,
            ),
{
    let heap = plan.objects().to_set();
    let groups = logged_groups(plan.log);
    let counts = groups_counted::<VM>(all_decremented::<VM>(now, plan.old_roots), groups);
    lemma_counts_up_to_date::<VM>(before, now, plan);
    let cascade = final_cascade::<VM>(counts, plan);
    let dead = cascade.dead();
    let initial = uncounted::<VM>(counts, plan.objects());
    let after = final_counts::<VM>(counts, plan);
    let live = survivors::<VM>(counts, plan);
    law_the_dead_exist(cascade);
    law_death_keeps_counts_exact::<VM>(counts, heap, plan.new_roots, initial, dead);
    assert(live =~= heap.difference(dead)) by {
        assert forall|o: ObjectReference| live.contains(o) == heap.difference(dead).contains(o) by {
            lemma_survivor::<VM>(counts, plan, o);
        }
    }
    let end = collected::<VM>(now, plan);
    assert(edges(end) =~= edges(after));
    assert forall|o: ObjectReference| #[trigger]
        count_of::<VM>(end, o) == references(edges(end), live, o) + occurrences(
            plan.new_roots,
            o,
        ) by {
        law_unlogging::<VM>(after, live, o);
        assert(count_of::<VM>(after, o) == references(edges(after), heap.difference(dead), o)
            + occurrences(plan.new_roots, o));
    }
    assert forall|o: ObjectReference| #[trigger] kept::<VM>(now, plan).contains(o) implies is_unlogged(
        end,
        VM::log_spec().spec,
        o,
    ) by {
        law_unlogging::<VM>(after, live, o);
    }
}

/// What can be reached from a root survives a collection, if counts were exact when the last one
/// ended.
pub proof fn law_a_collection_keeps_what_roots_reach<VM: VMBinding>(
    before: Memory,
    now: Memory,
    plan: DRCView,
    path: Seq<ObjectReference>,
)
    requires
        counts_exact::<VM>(before, plan.objects().to_set(), plan.old_roots),
        forall|o: ObjectReference| #[trigger]
            count_of::<VM>(now, o) == count_of::<VM>(before, o) + occurrences(plan.new_roots, o),
        logged_faithfully(before, logged_groups(plan.log)),
        logged_objects(logged_groups(plan.log)).subset_of(plan.objects().to_set()),
        forall|o: ObjectReference|
            plan.objects().contains(o) && !logged_objects(logged_groups(plan.log)).contains(o)
                ==> #[trigger] now.children(o) == before.children(o),
        forall|o: ObjectReference| #[trigger]
            count_of::<VM>(now, o) + present_references(now, logged_groups(plan.log), o)
                <= VM::count_spec().greatest(),
        forall|o: ObjectReference, i: int|
            plan.objects().contains(o) && 0 <= i < now.children(o).len()
                ==> plan.objects().contains(#[trigger] now.children(o)[i]),
        forall|i: int|
            0 <= i < plan.new_roots.len() ==> plan.objects().contains(
                #[trigger] plan.new_roots[i],
            ),
        path.len() > 0,
        plan.new_roots.contains(path[0]),
        forall|i: int|
            0 < i < path.len() ==> now.children(path[i - 1]).contains(#[trigger] path[i]),
    ensures
        kept::<VM>(now, plan).contains(path.last()),
{
    let heap = plan.objects().to_set();
    let counts = groups_counted::<VM>(
        all_decremented::<VM>(now, plan.old_roots),
        logged_groups(plan.log),
    );
    lemma_counts_up_to_date::<VM>(before, now, plan);
    let cascade = final_cascade::<VM>(counts, plan);
    let dead = cascade.dead();
    let initial = uncounted::<VM>(counts, plan.objects());
    law_the_dead_exist(cascade);
    assert forall|i: int| 0 < i < path.len() implies counts.children(path[i - 1]).contains(
        #[trigger] path[i],
    ) by {
        assert(edges(counts)(path[i - 1]) == edges(now)(path[i - 1]));
        assert(now.children(path[i - 1]).contains(path[i]));
    }
    law_the_reachable_survive::<VM>(counts, heap, plan.new_roots, initial, dead, path);
    lemma_survivor::<VM>(counts, plan, path.last());
    VM::layout_is_valid();
    let spec = VM::count_spec();
    let remaining = |o: ObjectReference| cascade.remaining(dead, o);
    assert forall|o: ObjectReference| 0 <= #[trigger] remaining(o) <= spec.greatest() by {
        law_counts_never_wrap(spec, counts, o, o);
    }
    spec.lemma_counts_read_back(counts, remaining, path.last());
    assert(count_of::<VM>(counts, path.last()) > 0);
}

/// Every survivor of a collection that leaves exact counts is referred to, by a root or by another
/// survivor or by itself.
pub proof fn law_survivors_are_referred_to<VM: VMBinding>(
    memory: Memory,
    heap: Set<ObjectReference>,
    roots: Seq<ObjectReference>,
    object: ObjectReference,
)
    requires
        counts_exact::<VM>(memory, heap, roots),
        count_of::<VM>(memory, object) > 0,
    ensures
        roots.contains(object) || exists|p: ObjectReference|
            heap.contains(p) && (#[trigger] memory.children(p)).contains(object),
{
    if occurrences(roots, object) > 0 {
        lemma_occurs_back(roots, object);
    } else {
        let p = lemma_referrer(edges(memory), heap, object);
        assert(memory.children(p).contains(object));
    }
}

/// The memory after the references in the given slots were counted, one after the other.
pub open spec fn slots_counted<VM: VMBinding>(memory: Memory, slots: Seq<Slot>) -> Memory
    decreases slots.len(),
{
    if slots.len() == 0 {
        memory
    } else {
        slot_counted::<VM>(slots_counted::<VM>(memory, slots.drop_last()), slots.last())
    }
}

/// Counting the references in slots counts the objects that the slots refer to, each as often as it
/// is referred to.
pub proof fn law_slots_count_their_referents<VM: VMBinding>(memory: Memory, slots: Seq<Slot>)
    ensures
        slots_counted::<VM>(memory, slots) == all_incremented::<VM>(
            memory,
            referents(memory.slots, slots),
        ),
    decreases slots.len(),
{
    if slots.len() > 0 {
        let fewer = slots.drop_last();
        let objects = referents(memory.slots, fewer);
        law_slots_count_their_referents::<VM>(memory, fewer);
        lemma_increments_keep_fields::<VM>(memory, objects);
        if let Some(object) = memory.slot(slots.last()) {
            assert(objects.push(object).drop_last() =~= objects);
        }
    }
}

/// Counting changes no field.
proof fn lemma_counting_keeps_edges<VM: VMBinding>(
    memory: Memory,
    roots: Seq<ObjectReference>,
    groups: Seq<Group>,
)
    ensures
        edges(groups_counted::<VM>(all_decremented::<VM>(memory, roots), groups)) == edges(memory),
{
    lemma_decrements_keep_fields::<VM>(memory, roots);
    lemma_groups_keep_fields::<VM>(all_decremented::<VM>(memory, roots), groups);
    assert(edges(groups_counted::<VM>(all_decremented::<VM>(memory, roots), groups)) =~= edges(
        memory,
    ));
}

proof fn lemma_decrements_keep_fields<VM: VMBinding>(
    memory: Memory,
    objects: Seq<ObjectReference>,
)
    ensures
        all_decremented::<VM>(memory, objects).slots == memory.slots,
        all_decremented::<VM>(memory, objects).fields == memory.fields,
    decreases objects.len(),
{
    if objects.len() > 0 {
        lemma_decrements_keep_fields::<VM>(memory, objects.drop_last());
    }
}

proof fn lemma_increments_keep_fields<VM: VMBinding>(
    memory: Memory,
    objects: Seq<ObjectReference>,
)
    ensures
        all_incremented::<VM>(memory, objects).slots == memory.slots,
        all_incremented::<VM>(memory, objects).fields == memory.fields,
    decreases objects.len(),
{
    if objects.len() > 0 {
        lemma_increments_keep_fields::<VM>(memory, objects.drop_last());
    }
}

proof fn lemma_groups_keep_fields<VM: VMBinding>(memory: Memory, groups: Seq<Group>)
    ensures
        groups_counted::<VM>(memory, groups).slots == memory.slots,
        groups_counted::<VM>(memory, groups).fields == memory.fields,
    decreases groups.len(),
{
    if groups.len() > 0 {
        let group = groups.last();
        let before = groups_counted::<VM>(memory, groups.drop_last());
        let without = all_decremented::<VM>(before, group.children);
        lemma_groups_keep_fields::<VM>(memory, groups.drop_last());
        lemma_decrements_keep_fields::<VM>(before, group.children);
        lemma_increments_keep_fields::<VM>(without, without.children(group.object));
    }
}

/// What is counted occurs.
proof fn lemma_occurs_back(objects: Seq<ObjectReference>, object: ObjectReference)
    requires
        occurrences(objects, object) > 0,
    ensures
        objects.contains(object),
    decreases objects.len(),
{
    if objects.last() == object {
        assert(objects[objects.len() - 1] == object);
    } else {
        lemma_occurs_back(objects.drop_last(), object);
        let i = choose|i: int| 0 <= i < objects.drop_last().len() && objects.drop_last()[i]
            == object;
        assert(objects[i] == object);
    }
}

/// Where there are references, some object refers.
proof fn lemma_referrer(
    children: spec_fn(ObjectReference) -> Seq<ObjectReference>,
    from: Set<ObjectReference>,
    to: ObjectReference,
) -> (object: ObjectReference)
    requires
        references(children, from, to) > 0,
    ensures
        from.contains(object),
        children(object).contains(to),
    decreases from.len(),
{
    lemma_objects_finite(from);
    if from.len() == 0 {
        assert(from =~= Set::empty());
        lemma_references_empty(children, to);
        arbitrary()
    } else {
        let object = from.choose();
        let less = from.remove(object);
        assert(less.insert(object) =~= from);
        lemma_references_insert(children, less, object, to);
        if occurrences(children(object), to) > 0 {
            lemma_occurs_back(children(object), to);
            object
        } else {
            lemma_referrer(children, less, to)
        }
    }
}

/// The survivors are the objects of the plan that are not dead.
proof fn lemma_survivor<VM: VMBinding>(memory: Memory, plan: DRCView, object: ObjectReference)
    ensures
        survivors::<VM>(memory, plan).contains(object) <==> plan.objects().contains(object)
            && !final_cascade::<VM>(memory, plan).dead().contains(object),
{
    VM::layout_is_valid();
    let spec = VM::count_spec();
    let cascade = final_cascade::<VM>(memory, plan);
    let dead = cascade.dead();
    law_the_dead_exist(cascade);
    law_the_dead_have_no_count(cascade, dead, object);
    let remaining = |o: ObjectReference| cascade.remaining(dead, o);
    assert forall|o: ObjectReference| 0 <= #[trigger] remaining(o) <= spec.greatest() by {
        law_counts_never_wrap(spec, memory, o, o);
    }
    spec.lemma_counts_read_back(memory, remaining, object);
    law_counts_never_wrap(spec, memory, object, object);
}

/// Counts stop at zero and at the greatest count, and else go by one for every occurrence, in
/// whatever order the objects come.
pub proof fn law_counts_saturate<VM: VMBinding>(
    memory: Memory,
    objects: Seq<ObjectReference>,
    object: ObjectReference,
)
    ensures
        ({
            let count = count_of::<VM>(memory, object);
            let times = occurrences(objects, object);
            &&& count_of::<VM>(all_decremented::<VM>(memory, objects), object) == if count > times {
                count - times
            } else {
                0
            }
            &&& count_of::<VM>(all_incremented::<VM>(memory, objects), object) == if count + times
                < VM::count_spec().greatest() {
                count + times
            } else {
                VM::count_spec().greatest()
            }
        }),
    decreases objects.len(),
{
    VM::layout_is_valid();
    let spec = VM::count_spec();
    law_counts_never_wrap(spec, memory, object, object);
    if objects.len() > 0 {
        let fewer = objects.drop_last();
        law_counts_saturate::<VM>(memory, fewer, object);
        law_counts_never_wrap(
            spec,
            all_decremented::<VM>(memory, fewer),
            objects.last(),
            object,
        );
        law_counts_never_wrap(
            spec,
            all_incremented::<VM>(memory, fewer),
            objects.last(),
            object,
        );
    }
}

/// Logged objects are counted one after the other: first the references that an object had are
/// taken back, as far as they were counted, and then those that it has are added, as far as there
/// is room.
pub proof fn law_groups_are_counted_in_order<VM: VMBinding>(
    memory: Memory,
    groups: Seq<Group>,
    group: Group,
    object: ObjectReference,
)
    ensures
        groups_counted::<VM>(memory, Seq::empty()) == memory,
        ({
            let count = count_of::<VM>(groups_counted::<VM>(memory, groups), object);
            let had = occurrences(group.children, object);
            let has = occurrences(memory.children(group.object), object);
            let less = if count > had {
                count - had
            } else {
                0
            };
            count_of::<VM>(groups_counted::<VM>(memory, groups.push(group)), object) == if less
                + has < VM::count_spec().greatest() {
                less + has
            } else {
                VM::count_spec().greatest()
            }
        }),
{
    let before = groups_counted::<VM>(memory, groups);
    let without = all_decremented::<VM>(before, group.children);
    assert(groups.push(group).drop_last() =~= groups);
    lemma_groups_keep_fields::<VM>(memory, groups);
    lemma_decrements_keep_fields::<VM>(before, group.children);
    assert(without.children(group.object) == memory.children(group.object));
    law_counts_saturate::<VM>(before, group.children, object);
    law_counts_saturate::<VM>(without, memory.children(group.object), object);
}

/// Bringing the counts up to date changes counts alone: unlog bits and every other field that
/// shares no bit with the counts keep their values, and so do slots and fields.
pub proof fn law_counting_keeps_the_rest<VM: VMBinding>(
    memory: Memory,
    roots: Seq<ObjectReference>,
    objects: Seq<ObjectReference>,
    groups: Seq<Group>,
    other_spec: MetadataSpec,
    other: ObjectReference,
)
    requires
        other_spec.wf(),
        VM::count_spec().spec.disjoint(other_spec),
    ensures
        ({
            let after = groups_counted::<VM>(
                all_decremented::<VM>(all_incremented::<VM>(memory, objects), roots),
                groups,
            );
            &&& after.metadata(other_spec, other) == memory.metadata(other_spec, other)
            &&& after == (Memory { headers: after.headers, ..memory })
        }),
    decreases groups.len(),
{
    let incremented = all_incremented::<VM>(memory, objects);
    let decremented = all_decremented::<VM>(incremented, roots);
    lemma_counting_objects_keeps_the_rest::<VM>(memory, objects, other_spec, other);
    lemma_counting_objects_keeps_the_rest::<VM>(incremented, roots, other_spec, other);
    if groups.len() > 0 {
        let fewer = groups.drop_last();
        let group = groups.last();
        law_counting_keeps_the_rest::<VM>(memory, roots, objects, fewer, other_spec, other);
        let before = groups_counted::<VM>(decremented, fewer);
        let without = all_decremented::<VM>(before, group.children);
        lemma_counting_objects_keeps_the_rest::<VM>(before, group.children, other_spec, other);
        lemma_counting_objects_keeps_the_rest::<VM>(
            without,
            without.children(group.object),
            other_spec,
            other,
        );
    }
}

proof fn lemma_counting_objects_keeps_the_rest<VM: VMBinding>(
    memory: Memory,
    objects: Seq<ObjectReference>,
    other_spec: MetadataSpec,
    other: ObjectReference,
)
    requires
        other_spec.wf(),
        VM::count_spec().spec.disjoint(other_spec),
    ensures
        ({
            let up = all_incremented::<VM>(memory, objects);
            let down = all_decremented::<VM>(memory, objects);
            &&& up.metadata(other_spec, other) == memory.metadata(other_spec, other)
            &&& up == (Memory { headers: up.headers, ..memory })
            &&& down.metadata(other_spec, other) == memory.metadata(other_spec, other)
            &&& down == (Memory { headers: down.headers, ..memory })
        }),
    decreases objects.len(),
{
    VM::layout_is_valid();
    let spec = VM::count_spec();
    if objects.len() > 0 {
        let fewer = objects.drop_last();
        let none = |o: ObjectReference| 0int;
        spec.lemma_greatest();
        assert(spec.all_fit(none));
        lemma_counting_objects_keeps_the_rest::<VM>(memory, fewer, other_spec, other);
        law_counting_changes_counts_alone(
            spec,
            all_incremented::<VM>(memory, fewer),
            objects.last(),
            none,
            other_spec,
            other,
        );
        law_counting_changes_counts_alone(
            spec,
            all_decremented::<VM>(memory, fewer),
            objects.last(),
            none,
            other_spec,
            other,
        );
    }
}

/// After a collection no object of any space is kept without a count, and every object of the plan
/// that has one is kept: in the mark-sweep space and in every common space alike. So after the
/// release each space holds those of its objects that have a count.
pub proof fn law_the_kept_are_the_counted<VM: VMBinding>(
    now: Memory,
    plan: DRCView,
    object: ObjectReference,
)
    ensures
        ({
            let end = collected::<VM>(now, plan);
            let after = plan.prepared().marking(kept::<VM>(now, plan)).released();
            &&& kept::<VM>(now, plan).contains(object) <==> VM::count_spec().count(end, object) > 0
                && (plan.ms.objects.contains(object) || exists|i: int|
                0 <= i < plan.common.len() && (#[trigger] plan.common[i]).objects.contains(object))
            &&& after.ms.objects.contains(object) <==> plan.ms.objects.contains(object)
                && VM::count_spec().count(end, object) > 0
            &&& after.common.len() == plan.common.len()
            &&& forall|i: int|
                0 <= i < plan.common.len() ==> ((#[trigger] after.common[i]).objects.contains(
                    object,
                ) <==> plan.common[i].objects.contains(object) && VM::count_spec().count(
                    end,
                    object,
                ) > 0)
        }),
{
    let counts = groups_counted::<VM>(
        all_decremented::<VM>(now, plan.old_roots),
        logged_groups(plan.log),
    );
    let live = kept::<VM>(now, plan);
    let after = plan.prepared().marking(live).released();
    law_what_finishing_leaves::<VM>(counts, plan);
    assert(survivors::<VM>(counts, plan).contains(object) == live.contains(object));
    law_the_objects_of_a_plan(plan, object);
    law_release_keeps_the_live(plan, live, object);
    assert(after.ms.holds(object) == after.ms.objects.contains(object));
    assert forall|i: int| 0 <= i < plan.common.len() implies ((
    #[trigger] after.common[i]).objects.contains(object) <==> plan.common[i].objects.contains(
        object,
    ) && VM::count_spec().count(collected::<VM>(now, plan), object) > 0) by {
        assert(after.common[i].holds(object) == after.common[i].objects.contains(object));
        assert(plan.common[i].holds(object) == plan.common[i].objects.contains(object));
    }
}

/// Every object that a collection keeps is one of the new roots or is referred to by an object that
/// it keeps, if counts were exact when the last one ended.
pub proof fn law_the_kept_are_referred_to<VM: VMBinding>(
    before: Memory,
    now: Memory,
    plan: DRCView,
    object: ObjectReference,
)
    requires
        counts_exact::<VM>(before, plan.objects().to_set(), plan.old_roots),
        forall|o: ObjectReference| #[trigger]
            count_of::<VM>(now, o) == count_of::<VM>(before, o) + occurrences(plan.new_roots, o),
        logged_faithfully(before, logged_groups(plan.log)),
        logged_objects(logged_groups(plan.log)).subset_of(plan.objects().to_set()),
        forall|o: ObjectReference|
            plan.objects().contains(o) && !logged_objects(logged_groups(plan.log)).contains(o)
                ==> #[trigger] now.children(o) == before.children(o),
        forall|o: ObjectReference| #[trigger]
            count_of::<VM>(now, o) + present_references(now, logged_groups(plan.log), o)
                <= VM::count_spec().greatest(),
        forall|o: ObjectReference, i: int|
            plan.objects().contains(o) && 0 <= i < now.children(o).len()
                ==> plan.objects().contains(#[trigger] now.children(o)[i]),
        forall|i: int|
            0 <= i < plan.new_roots.len() ==> plan.objects().contains(
                #[trigger] plan.new_roots[i],
            ),
        kept::<VM>(now, plan).contains(object),
    ensures
        plan.new_roots.contains(object) || exists|p: ObjectReference|
            kept::<VM>(now, plan).contains(p) && (#[trigger] now.children(p)).contains(object),
{
    let end = collected::<VM>(now, plan);
    let live = kept::<VM>(now, plan);
    law_a_collection_keeps_counts_exact::<VM>(before, now, plan);
    law_the_kept_are_the_counted::<VM>(now, plan, object);
    law_survivors_are_referred_to::<VM>(end, live, plan.new_roots, object);
    if !plan.new_roots.contains(object) {
        let p = choose|p: ObjectReference|
            live.contains(p) && (#[trigger] end.children(p)).contains(object);
        lemma_counting_keeps_edges::<VM>(now, plan.old_roots, logged_groups(plan.log));
        let counts = groups_counted::<VM>(
            all_decremented::<VM>(now, plan.old_roots),
            logged_groups(plan.log),
        );
        assert(edges(counts)(p) == edges(now)(p));
        assert(end.children(p) == counts.children(p));
        assert(now.children(p).contains(object));
    }
}

}
