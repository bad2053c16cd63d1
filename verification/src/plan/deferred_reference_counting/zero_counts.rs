//! Reference counts, and what happens when they drop to zero.

use std::collections::VecDeque;

use atomic::Ordering;
use vstd::prelude::*;

use crate::plan::deferred_reference_counting::cascade::{
    is_death_order, law_the_dead_die_in_order, lemma_references_empty, lemma_references_insert,
    occurrences, references, Cascade,
};
use crate::util::address::{lemma_objects_finite, ObjectReference, ObjectSet};
use crate::util::metadata::reference_count::{
    law_counting_changes_counts_alone, law_counts_never_wrap,
};
use crate::util::metadata::MetadataSpec;
use crate::vm::{referents, Memory, Slot, VMBinding, VMThread, VMWorkerThread};

verus! {

/// The count of `object` where the runtime keeps it.
pub open spec fn count_of<VM: VMBinding>(memory: Memory, object: ObjectReference) -> int {
    VM::count_spec().count(memory, object)
}

/// Increments the count of an object, and tells whether it was below the maximum.
pub fn increment<VM: VMBinding>(vm: &mut VM, object: ObjectReference) -> (incremented: bool)
    ensures
        incremented == (count_of::<VM>(old(vm)@, object) < VM::count_spec().greatest()),
        final(vm)@ == VM::count_spec().incremented(old(vm)@, object),
        VM::count_spec().spec.sequentially_read(*old(vm), object),
        incremented ==> VM::count_spec().spec.sequentially_written(*old(vm), object, *final(vm)),
        !incremented ==> *final(vm) == *old(vm),
{
    proof {
        VM::layout_is_valid();
    }
    VM::local_reference_count_spec().inc::<VM>(vm, object, Ordering::SeqCst)
}

/// Decrements the count of an object, and tells whether it was above zero.
pub fn decrement<VM: VMBinding>(vm: &mut VM, object: ObjectReference) -> (decremented: bool)
    ensures
        decremented == (count_of::<VM>(old(vm)@, object) > 0),
        final(vm)@ == VM::count_spec().decremented(old(vm)@, object),
        decremented ==> count_of::<VM>(final(vm)@, object) == count_of::<VM>(old(vm)@, object) - 1,
        VM::count_spec().spec.sequentially_read(*old(vm), object),
        decremented ==> VM::count_spec().spec.sequentially_written(*old(vm), object, *final(vm)),
        !decremented ==> *final(vm) == *old(vm),
{
    proof {
        VM::layout_is_valid();
    }
    VM::local_reference_count_spec().dec::<VM>(vm, object, Ordering::SeqCst)
}

/// The count of an object.
pub fn ref_count<VM: VMBinding>(vm: &VM, object: ObjectReference) -> (count: usize)
    ensures
        count == count_of::<VM>(vm@, object),
        VM::count_spec().spec.sequentially_read(*vm, object),
{
    proof {
        VM::layout_is_valid();
    }
    VM::local_reference_count_spec().load::<VM>(vm, object, Ordering::SeqCst)
}

/// The objects that the fields of `object` refer to, in scanning order.
pub fn scan_object_children<VM: VMBinding>(vm: &VM, object: ObjectReference) -> (children: Vec<
    ObjectReference,
>)
    ensures
        children@ == vm@.children(object),
{
    let tls: VMWorkerThread = VMWorkerThread(VMThread::uninitialized());
    if vm.support_slot_enqueuing(tls, object) {
        let slots: Vec<Slot> = vm.iterate_fields(object, tls.0);
        let mut children: Vec<ObjectReference> = Vec::new();
        let mut i: usize = 0;
        while i < slots.len()
            invariant
                i <= slots@.len(),
                children@ == referents(vm@.slots, slots@.take(i as int)),
            decreases slots@.len() - i,
        {
            assert(slots@.take(i + 1).drop_last() =~= slots@.take(i as int));
            if let Some(child) = vm.load_slot(slots[i]) {
                children.push(child);
            }
            i = i + 1;
        }
        assert(slots@.take(i as int) =~= slots@);
        children
    } else {
        vm.scan_object_and_trace_edges(tls, object)
    }
}

/// A way to find the objects that an object refers to.
pub trait ScanChildren<VM: VMBinding> {
    /// The objects that `object` refers to, in scanning order.
    spec fn children(&self, memory: Memory, object: ObjectReference) -> Seq<ObjectReference>;

    /// Objects refer to each other by their fields alone, not by their headers.
    proof fn headers_do_not_matter(&self, memory: Memory, other: Memory, object: ObjectReference)
        requires
            memory == (Memory { headers: memory.headers, ..other }),
        ensures
            self.children(memory, object) == self.children(other, object),
    ;

    /// The objects that `object` refers to, in scanning order.
    fn scan_children(&self, vm: &VM, object: ObjectReference) -> (children: Vec<ObjectReference>)
        ensures
            children@ == self.children(vm@, object),
    ;
}

/// Objects refer to what the runtime finds in their fields.
pub struct ScanFields;

impl<VM: VMBinding> ScanChildren<VM> for ScanFields {
    open spec fn children(&self, memory: Memory, object: ObjectReference) -> Seq<ObjectReference> {
        memory.children(object)
    }

    proof fn headers_do_not_matter(&self, memory: Memory, other: Memory, object: ObjectReference) {
    }

    fn scan_children(&self, vm: &VM, object: ObjectReference) -> (children: Vec<ObjectReference>) {
        scan_object_children::<VM>(vm, object)
    }
}

/// The heap as a cascade of zero counts finds it.
pub open spec fn cascade_in<VM: VMBinding, C: ScanChildren<VM>>(
    scan: C,
    memory: Memory,
    initial: Set<ObjectReference>,
) -> Cascade {
    Cascade {
        children: |object: ObjectReference| scan.children(memory, object),
        counts: |object: ObjectReference| count_of::<VM>(memory, object),
        initial,
    }
}

/// The memory after the objects in `dead` have died: every count has lost the references that came
/// from them, and nothing else has changed.
pub open spec fn after_death<VM: VMBinding>(
    memory: Memory,
    cascade: Cascade,
    dead: Set<ObjectReference>,
) -> Memory {
    VM::count_spec().with_counts(
        memory,
        |object: ObjectReference| cascade.remaining(dead, object),
    )
}

/// A cascade in progress: the objects in `dead` have died, and those in `queue` are still to be
/// looked at. Everything else that dies with `dead` gone is in the queue, and nothing has died that
/// did not have to.
spec fn in_progress(
    cascade: Cascade,
    dead: Set<ObjectReference>,
    queue: Seq<ObjectReference>,
) -> bool {
    &&& forall|object: ObjectReference| #[trigger]
        cascade.dies(dead, object) && !dead.contains(object) ==> queue.contains(object)
    &&& forall|i: int|
        0 <= i < queue.len() ==> may_die(cascade, #[trigger] queue[i])
    &&& forall|other: Set<ObjectReference>| #[trigger]
        cascade.closed_under_dying(other) ==> dead.subset_of(other)
}

/// The object dies as soon as nothing is left of its count.
spec fn may_die(cascade: Cascade, object: ObjectReference) -> bool {
    cascade.initial.contains(object) || (cascade.counts)(object) > 0
}

/// The count of `object` once the references from `dead` and those to `visited` are gone.
spec fn partly(
    cascade: Cascade,
    dead: Set<ObjectReference>,
    visited: Seq<ObjectReference>,
    object: ObjectReference,
) -> int {
    let left = cascade.remaining(dead, object) - occurrences(visited, object);
    if left > 0 {
        left
    } else {
        0
    }
}

/// The memory once the references from `dead` and those to `visited` are gone.
spec fn partly_after_death<VM: VMBinding>(
    memory: Memory,
    cascade: Cascade,
    dead: Set<ObjectReference>,
    visited: Seq<ObjectReference>,
) -> Memory {
    VM::count_spec().with_counts(
        memory,
        |object: ObjectReference| partly(cascade, dead, visited, object),
    )
}

/// While the children of a dead object are visited, `queue` grows from `rest` by the objects whose
/// count drops to zero.
spec fn queue_grows(
    cascade: Cascade,
    dead: Set<ObjectReference>,
    visited: Seq<ObjectReference>,
    rest: Seq<ObjectReference>,
    queue: Seq<ObjectReference>,
) -> bool {
    &&& forall|object: ObjectReference| #[trigger]
        rest.contains(object) ==> queue.contains(object)
    &&& forall|object: ObjectReference| #[trigger]
        partly(cascade, dead, visited, object) == 0 && cascade.remaining(dead, object) > 0
            ==> queue.contains(object)
    &&& forall|i: int|
        0 <= i < queue.len() ==> may_die(cascade, #[trigger] queue[i])
}

proof fn lemma_cascade_begins<VM: VMBinding, C: ScanChildren<VM>>(
    scan: C,
    memory: Memory,
    initial: Seq<ObjectReference>,
)
    requires
        VM::count_spec().wf(),
    ensures
        ({
            let cascade = cascade_in::<VM, C>(scan, memory, initial.to_set());
            &&& in_progress(cascade, Set::empty(), initial)
            &&& after_death::<VM>(memory, cascade, Set::empty()) == memory
            &&& VM::count_spec().all_fit(cascade.counts)
        }),
{
    let cascade = cascade_in::<VM, C>(scan, memory, initial.to_set());
    let none = Set::<ObjectReference>::empty();
    let spec = VM::count_spec();
    let counts = |object: ObjectReference| spec.count(memory, object);
    let remaining = |object: ObjectReference| cascade.remaining(none, object);
    spec.lemma_counts_kept(memory);
    assert forall|object: ObjectReference| #[trigger]
        remaining(object) == counts(object) && 0 <= (cascade.counts)(object)
            <= spec.greatest() by {
        lemma_references_empty(cascade.children, object);
        assert(0 <= counts(object) <= spec.greatest());
    }
    assert(remaining =~= counts);
    assert(cascade.counts =~= counts);
    assert forall|object: ObjectReference| #[trigger]
        cascade.dies(none, object) implies initial.contains(object) by {
        assert(remaining(object) == counts(object));
    }
    assert forall|i: int| 0 <= i < initial.len() implies may_die(cascade, #[trigger] initial[i]) by {
        assert(initial.contains(initial[i]));
    }
}

proof fn lemma_cascade_ends(cascade: Cascade, dead: Set<ObjectReference>)
    requires
        in_progress(cascade, dead, Seq::empty()),
    ensures
        cascade.kills(dead),
{
    assert forall|object: ObjectReference| #[trigger]
        cascade.dies(dead, object) implies dead.contains(object) by {
        assert(!Seq::<ObjectReference>::empty().contains(object));
    }
}

/// The counts of a cascade in progress fit in the field and are the counts in memory.
proof fn lemma_remaining_is_count<VM: VMBinding>(
    memory: Memory,
    cascade: Cascade,
    dead: Set<ObjectReference>,
    object: ObjectReference,
)
    requires
        VM::count_spec().wf(),
        VM::count_spec().all_fit(cascade.counts),
    ensures
        count_of::<VM>(after_death::<VM>(memory, cascade, dead), object) == cascade.remaining(
            dead,
            object,
        ),
{
    let spec = VM::count_spec();
    let remaining = |o: ObjectReference| cascade.remaining(dead, o);
    assert forall|o: ObjectReference| 0 <= #[trigger] remaining(o) <= spec.greatest() by {
        assert(0 <= (cascade.counts)(o) <= spec.greatest());
    }
    spec.lemma_counts_read_back(memory, remaining, object);
}

/// An object that does not die, or is dead already, can leave the queue.
proof fn lemma_skip(
    cascade: Cascade,
    dead: Set<ObjectReference>,
    object: ObjectReference,
    rest: Seq<ObjectReference>,
)
    requires
        in_progress(cascade, dead, seq![object] + rest),
        cascade.remaining(dead, object) != 0 || dead.contains(object),
    ensures
        in_progress(cascade, dead, rest),
{
    let queue = seq![object] + rest;
    assert forall|o: ObjectReference| #[trigger]
        cascade.dies(dead, o) && !dead.contains(o) implies rest.contains(o) by {
        assert(queue.contains(o));
        let i = choose|i: int| 0 <= i < queue.len() && queue[i] == o;
        assert(rest[i - 1] == o);
    }
    assert forall|i: int| 0 <= i < rest.len() implies may_die(cascade, #[trigger] rest[i]) by {
        assert(queue[i + 1] == rest[i]);
    }
}

/// With every death, fewer objects are left.
proof fn lemma_fewer_left(dead: Set<ObjectReference>, object: ObjectReference)
    requires
        !dead.contains(object),
    ensures
        Set::<ObjectReference>::full().difference(dead.insert(object)).len()
            < Set::<ObjectReference>::full().difference(dead).len(),
{
    let left = Set::<ObjectReference>::full().difference(dead);
    lemma_objects_finite(left);
    assert(Set::<ObjectReference>::full().difference(dead.insert(object)) =~= left.remove(object));
    assert(left.contains(object));
}

proof fn lemma_partly_begins<VM: VMBinding>(
    memory: Memory,
    cascade: Cascade,
    dead: Set<ObjectReference>,
)
    ensures
        after_death::<VM>(memory, cascade, dead) == partly_after_death::<VM>(
            memory,
            cascade,
            dead,
            Seq::empty(),
        ),
        forall|object: ObjectReference| #[trigger]
            partly(cascade, dead, Seq::empty(), object) == cascade.remaining(dead, object),
{
    assert forall|object: ObjectReference| #[trigger]
        partly(cascade, dead, Seq::empty(), object) == cascade.remaining(dead, object) by {
        assert(occurrences(Seq::empty(), object) == 0);
    }
    let remaining = |o: ObjectReference| cascade.remaining(dead, o);
    let part = |o: ObjectReference| partly(cascade, dead, Seq::empty(), o);
    assert(remaining =~= part);
}

/// Visiting one more child decrements its count.
proof fn lemma_visit<VM: VMBinding>(
    memory: Memory,
    cascade: Cascade,
    dead: Set<ObjectReference>,
    visited: Seq<ObjectReference>,
    child: ObjectReference,
)
    requires
        VM::count_spec().wf(),
        VM::count_spec().all_fit(cascade.counts),
    ensures
        ({
            let before = partly_after_death::<VM>(memory, cascade, dead, visited);
            &&& VM::count_spec().decremented(before, child) == partly_after_death::<VM>(
                memory,
                cascade,
                dead,
                visited.push(child),
            )
            &&& count_of::<VM>(before, child) == partly(cascade, dead, visited, child)
        }),
{
    let spec = VM::count_spec();
    let part = |o: ObjectReference| partly(cascade, dead, visited, o);
    let after = |o: ObjectReference| partly(cascade, dead, visited.push(child), o);
    assert forall|o: ObjectReference| 0 <= #[trigger] part(o) <= spec.greatest() by {
        assert(0 <= (cascade.counts)(o) <= spec.greatest());
    }
    assert(visited.push(child).drop_last() =~= visited);
    spec.lemma_counts_decrement(memory, part, child, after);
    spec.lemma_counts_read_back(memory, part, child);
}

/// The queue takes up a child when its count drops to zero.
proof fn lemma_queue_grows(
    cascade: Cascade,
    dead: Set<ObjectReference>,
    visited: Seq<ObjectReference>,
    child: ObjectReference,
    rest: Seq<ObjectReference>,
    before: Seq<ObjectReference>,
    after: Seq<ObjectReference>,
)
    requires
        queue_grows(cascade, dead, visited, rest, before),
        after == if partly(cascade, dead, visited, child) == 1 {
            before.push(child)
        } else {
            before
        },
    ensures
        queue_grows(cascade, dead, visited.push(child), rest, after),
{
    assert(visited.push(child).drop_last() =~= visited);
    assert forall|o: ObjectReference| before.contains(o) implies after.contains(o) by {
        let i = choose|i: int| 0 <= i < before.len() && before[i] == o;
        assert(after[i] == o);
    }
    assert forall|o: ObjectReference| #[trigger]
        partly(cascade, dead, visited.push(child), o) == 0 && cascade.remaining(dead, o)
            > 0 implies after.contains(o) by {
        if partly(cascade, dead, visited, o) > 0 {
            assert(o == child);
            assert(after[before.len() as int] == child);
        }
    }
    assert forall|i: int| 0 <= i < after.len() implies may_die(cascade, #[trigger] after[i]) by {
        if i < before.len() {
            assert(after[i] == before[i]);
        }
    }
}

/// An object has died: the cascade goes on from there.
proof fn lemma_step<VM: VMBinding>(
    memory: Memory,
    cascade: Cascade,
    dead: Set<ObjectReference>,
    object: ObjectReference,
    rest: Seq<ObjectReference>,
    queue: Seq<ObjectReference>,
)
    requires
        in_progress(cascade, dead, seq![object] + rest),
        cascade.remaining(dead, object) == 0,
        !dead.contains(object),
        queue_grows(cascade, dead, (cascade.children)(object), rest, queue),
    ensures
        in_progress(cascade, dead.insert(object), queue),
        partly_after_death::<VM>(memory, cascade, dead, (cascade.children)(object))
            == after_death::<VM>(memory, cascade, dead.insert(object)),
{
    let children = (cascade.children)(object);
    let now = dead.insert(object);
    let whole = seq![object] + rest;
    let part = |o: ObjectReference| partly(cascade, dead, children, o);
    let remaining = |o: ObjectReference| cascade.remaining(now, o);
    assert forall|o: ObjectReference| #[trigger] part(o) == remaining(o) by {
        lemma_references_insert(cascade.children, dead, object, o);
    }
    assert(part =~= remaining);
    assert forall|o: ObjectReference| #[trigger]
        cascade.dies(now, o) && !now.contains(o) implies queue.contains(o) by {
        assert(part(o) == remaining(o));
        if cascade.remaining(dead, o) == 0 {
            assert(cascade.dies(dead, o));
            assert(whole.contains(o));
            let i = choose|i: int| 0 <= i < whole.len() && whole[i] == o;
            assert(rest[i - 1] == o);
            assert(rest.contains(o));
        } else {
            assert(partly(cascade, dead, children, o) == 0);
        }
    }
    assert(may_die(cascade, whole[0]));
    assert forall|other: Set<ObjectReference>| #[trigger]
        cascade.closed_under_dying(other) implies now.subset_of(other) by {
        cascade.lemma_dies_monotone(dead, other, object);
        assert(other.contains(object));
    }
}

/// Lets the objects with a zero count die, and with them every object whose count drops to zero on
/// that account. Returns the dead.
pub fn cascade_zero_counts<VM: VMBinding>(
    vm: &mut VM,
    initial_zero_count_objects: Vec<ObjectReference>,
) -> (dead: ObjectSet)
    ensures
        ({
            let cascade = cascade_in::<VM, ScanFields>(
                ScanFields,
                old(vm)@,
                initial_zero_count_objects@.to_set(),
            );
            &&& cascade.kills(dead@)
            &&& final(vm)@ == after_death::<VM>(old(vm)@, cascade, dead@)
        }),
{
    cascade_zero_counts_with_children::<VM, ScanFields>(
        vm,
        initial_zero_count_objects,
        &ScanFields,
    )
}

/// Lets the objects with a zero count die, and with them every object whose count drops to zero on
/// that account, where `scan` tells what the objects refer to. Returns the dead.
pub fn cascade_zero_counts_with_children<VM: VMBinding, C: ScanChildren<VM>>(
    vm: &mut VM,
    initial_zero_count_objects: Vec<ObjectReference>,
    scan: &C,
) -> (dead: ObjectSet)
    ensures
        ({
            let initial = initial_zero_count_objects@.to_set();
            let cascade = cascade_in::<VM, C>(*scan, old(vm)@, initial);
            &&& cascade.kills(dead@)
            &&& final(vm)@ == after_death::<VM>(old(vm)@, cascade, dead@)
        }),
{
    let ghost memory = vm@;
    let ghost cascade = cascade_in::<VM, C>(*scan, memory, initial_zero_count_objects@.to_set());
    let mut zero_queue: VecDeque<ObjectReference> = VecDeque::new();
    let mut next: usize = 0;
    while next < initial_zero_count_objects.len()
        invariant
            next <= initial_zero_count_objects@.len(),
            zero_queue@ == initial_zero_count_objects@.take(next as int),
        decreases initial_zero_count_objects@.len() - next,
    {
        zero_queue.push_back(initial_zero_count_objects[next]);
        next = next + 1;
        assert(zero_queue@ =~= initial_zero_count_objects@.take(next as int));
    }
    let mut processed_dead: ObjectSet = ObjectSet::new();
    proof {
        VM::layout_is_valid();
        assert(zero_queue@ =~= initial_zero_count_objects@);
        lemma_cascade_begins::<VM, C>(*scan, memory, initial_zero_count_objects@);
    }
    loop
        invariant
            memory == old(vm)@,
            cascade == cascade_in::<VM, C>(*scan, memory, initial_zero_count_objects@.to_set()),
            vm@ == after_death::<VM>(memory, cascade, processed_dead@),
            in_progress(cascade, processed_dead@, zero_queue@),
            VM::count_spec().wf(),
            VM::count_spec().all_fit(cascade.counts),
        decreases
                Set::<ObjectReference>::full().difference(processed_dead@).len(),
                zero_queue@.len(),
    {
        let ghost queue = zero_queue@;
        let ghost dead = processed_dead@;
        let popped: Option<ObjectReference> = zero_queue.pop_front();
        match popped {
            None => {
                proof {
                    lemma_cascade_ends(cascade, dead);
                }
                return processed_dead;
            },
            Some(object) => {
                let ghost rest = zero_queue@;
                proof {
                    lemma_remaining_is_count::<VM>(memory, cascade, dead, object);
                    assert(queue =~= seq![object] + rest);
                    if cascade.remaining(dead, object) != 0 || dead.contains(object) {
                        lemma_skip(cascade, dead, object, rest);
                    }
                }
                if ref_count::<VM>(vm, object) != 0 || !processed_dead.insert(object) {
                    assert(processed_dead@ =~= dead);
                    continue ;
                }
                proof {
                    lemma_fewer_left(dead, object);
                    scan.headers_do_not_matter(vm@, memory, object);
                }
                let children: Vec<ObjectReference> = scan.scan_children(vm, object);
                let mut i: usize = 0;
                proof {
                    lemma_partly_begins::<VM>(memory, cascade, dead);
                    assert(children@.take(0) =~= Seq::<ObjectReference>::empty());
                }
                while i < children.len()
                    invariant
                        i <= children@.len(),
                        VM::count_spec().wf(),
                        VM::count_spec().all_fit(cascade.counts),
                        vm@ == partly_after_death::<VM>(
                            memory,
                            cascade,
                            dead,
                            children@.take(i as int),
                        ),
                        queue_grows(cascade, dead, children@.take(i as int), rest, zero_queue@),
                    decreases children@.len() - i,
                {
                    let child: ObjectReference = children[i];
                    let ghost visited = children@.take(i as int);
                    let ghost before = zero_queue@;
                    proof {
                        assert(children@.take(i + 1) =~= visited.push(child));
                        lemma_visit::<VM>(memory, cascade, dead, visited, child);
                    }
                    if decrement::<VM>(vm, child) && ref_count::<VM>(vm, child) == 0 {
                        zero_queue.push_back(child);
                    }
                    i = i + 1;
                    proof {
                        lemma_queue_grows(cascade, dead, visited, child, rest, before, zero_queue@);
                    }
                }
                proof {
                    assert(children@.take(i as int) =~= children@);
                    lemma_step::<VM>(memory, cascade, dead, object, rest, zero_queue@);
                }
            },
        }
    }
}

/// The count of an object is the number in the metadata field that its runtime keeps counts in.
pub proof fn law_the_count_of_an_object<VM: VMBinding>(memory: Memory, object: ObjectReference)
    ensures
        count_of::<VM>(memory, object) == memory.metadata(VM::count_spec().spec, object),
        <ScanFields as ScanChildren<VM>>::children(&ScanFields, memory, object)
            == memory.children(object),
{
}

/// What a cascade leaves behind: the dead are objects that can die one after the other, starting
/// with those that were looked at and have no count, and no more objects can. From every count
/// those references are gone that came from the dead, as far as it counted them. Nothing else has
/// changed.
pub proof fn law_what_a_cascade_leaves<VM: VMBinding, C: ScanChildren<VM>>(
    scan: C,
    memory: Memory,
    initial: Set<ObjectReference>,
    dead: Set<ObjectReference>,
    object: ObjectReference,
    other_spec: MetadataSpec,
)
    requires
        cascade_in::<VM, C>(scan, memory, initial).kills(dead),
        other_spec.wf(),
        VM::count_spec().spec.disjoint(other_spec),
    ensures
        ({
            let heap = Cascade {
                children: |o: ObjectReference| scan.children(memory, o),
                counts: |o: ObjectReference| VM::count_spec().count(memory, o),
                initial,
            };
            exists|order: Seq<ObjectReference>| #[trigger]
                is_death_order(heap, order) && order.to_set() == dead
        }),
        ({
            let count = VM::count_spec().count(memory, object);
            let lost = references(
                |o: ObjectReference| scan.children(memory, o),
                dead,
                object,
            );
            let after = after_death::<VM>(memory, cascade_in::<VM, C>(scan, memory, initial), dead);
            &&& VM::count_spec().count(after, object) == if count > lost {
                count - lost
            } else {
                0
            }
            &&& !dead.contains(object) && (initial.contains(object) || count > 0) ==> count > lost
            &&& after.metadata(other_spec, object) == memory.metadata(other_spec, object)
            &&& after == (Memory { headers: after.headers, ..memory })
        }),
{
    VM::layout_is_valid();
    let spec = VM::count_spec();
    let cascade = cascade_in::<VM, C>(scan, memory, initial);
    law_the_dead_die_in_order(cascade, dead, object);
    let order = choose|order: Seq<ObjectReference>| #[trigger]
        is_death_order(cascade, order) && order.to_set() == dead;
    let plain = Cascade {
        children: |o: ObjectReference| scan.children(memory, o),
        counts: |o: ObjectReference| VM::count_spec().count(memory, o),
        initial,
    };
    assert(plain.children =~= cascade.children);
    assert(plain.counts =~= cascade.counts);
    assert(is_death_order(plain, order));
    let remaining = |o: ObjectReference| cascade.remaining(dead, o);
    assert forall|o: ObjectReference| 0 <= #[trigger] remaining(o) <= spec.greatest() by {
        law_counts_never_wrap(spec, memory, o, o);
    }
    law_counts_never_wrap(spec, memory, object, object);
    law_counting_changes_counts_alone(spec, memory, object, remaining, other_spec, object);
}

}
