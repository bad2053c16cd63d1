//! The runtime's side of the heap: header words, slots and object scanning.

pub mod heap;

use atomic::Ordering;
use vstd::prelude::*;

use crate::util::address::{Address, ObjectReference};
use crate::util::metadata::reference_count::VMLocalReferenceCountSpec;
use crate::util::metadata::{MetadataSpec, VMGlobalLogBitSpec};

verus! {

/// An opaque thread handle of the runtime.
#[derive(Clone, Copy, PartialEq, Eq, Structural, Debug)]
pub struct VMThread(pub usize);

impl VMThread {
    /// The handle of no thread in particular.
    pub fn uninitialized() -> (thread: VMThread)
        ensures
            thread == VMThread(0),
    {
        VMThread(0)
    }
}

/// The handle of a mutator thread.
#[derive(Clone, Copy, PartialEq, Eq, Structural, Debug)]
pub struct VMMutatorThread(pub VMThread);

/// The handle of a collector thread.
#[derive(Clone, Copy, PartialEq, Eq, Structural, Debug)]
pub struct VMWorkerThread(pub VMThread);

/// A memory location that holds an object reference or null.
#[derive(Clone, Copy, PartialEq, Eq, Structural, Debug)]
pub struct Slot(pub Address);

/// A run of `slots` consecutive word-sized slots that starts at `start`.
#[derive(Clone, Copy, PartialEq, Eq, Structural, Debug)]
pub struct MemorySlice {
    pub start: Address,
    pub slots: usize,
}

/// The size of a slot in bytes.
pub open spec fn bytes_in_word() -> int {
    usize::BITS as int / 8
}

impl MemorySlice {
    /// The slice ends inside the address space.
    pub open spec fn wf(self) -> bool {
        self.start.0 + self.slots * bytes_in_word() <= usize::MAX
    }

    /// The slot at position `i` of the slice.
    pub open spec fn slot(self, i: int) -> Slot {
        Slot(Address((self.start.0 + i * bytes_in_word()) as usize))
    }

    /// The position that `slot` would have in the slice.
    pub open spec fn position(self, slot: Slot) -> int {
        (slot.0.0 - self.start.0) / bytes_in_word()
    }

    /// The slice holds `slot`.
    pub open spec fn has_slot(self, slot: Slot) -> bool {
        &&& self.start.0 <= slot.0.0
        &&& (slot.0.0 - self.start.0) % bytes_in_word() == 0
        &&& self.position(slot) < self.slots
    }
}

/// The objects that the given slots refer to, in order, with the null slots left out. `content`
/// tells what each slot holds.
pub open spec fn referents(
    content: spec_fn(Slot) -> Option<ObjectReference>,
    slots: Seq<Slot>,
) -> Seq<ObjectReference>
    decreases slots.len(),
{
    if slots.len() == 0 {
        Seq::empty()
    } else {
        let before = referents(content, slots.drop_last());
        match content(slots.last()) {
            Some(object) => before.push(object),
            None => before,
        }
    }
}

/// What the runtime's memory holds: for every object its header words, for every slot its content,
/// and for every object the slots that are its reference fields.
#[verifier::ext_equal]
pub struct Memory {
    pub headers: spec_fn(ObjectReference, usize) -> usize,
    pub slots: spec_fn(Slot) -> Option<ObjectReference>,
    pub fields: spec_fn(ObjectReference) -> Seq<Slot>,
    pub slot_enqueuing: spec_fn(ObjectReference) -> bool,
}

impl Memory {
    /// Header word `index` of `object`.
    pub open spec fn word(self, object: ObjectReference, index: usize) -> usize {
        (self.headers)(object, index)
    }

    /// The memory after header word `index` of `object` was set to `word`.
    pub open spec fn with_word(self, object: ObjectReference, index: usize, word: usize) -> Memory {
        Memory {
            headers: |o: ObjectReference, i: usize|
                if o == object && i == index {
                    word
                } else {
                    (self.headers)(o, i)
                },
            ..self
        }
    }

    /// The content of `slot`.
    pub open spec fn slot(self, slot: Slot) -> Option<ObjectReference> {
        (self.slots)(slot)
    }

    /// The memory after `target` was written to `slot`.
    pub open spec fn with_slot(self, slot: Slot, target: Option<ObjectReference>) -> Memory {
        Memory {
            slots: |s: Slot|
                if s == slot {
                    target
                } else {
                    (self.slots)(s)
                },
            ..self
        }
    }

    /// The memory after the content of `src` was copied to `dst`, as if all of `src` had been read
    /// before any of `dst` was written.
    pub open spec fn with_copy(self, src: MemorySlice, dst: MemorySlice) -> Memory {
        Memory {
            slots: |s: Slot|
                if dst.has_slot(s) {
                    (self.slots)(src.slot(dst.position(s)))
                } else {
                    (self.slots)(s)
                },
            ..self
        }
    }

    /// The reference fields of `object`, in scanning order.
    pub open spec fn fields_of(self, object: ObjectReference) -> Seq<Slot> {
        (self.fields)(object)
    }

    /// The objects that the fields of `object` refer to, in scanning order.
    pub open spec fn children(self, object: ObjectReference) -> Seq<ObjectReference> {
        referents(self.slots, self.fields_of(object))
    }

    /// The value of a metadata field of `object`.
    pub open spec fn metadata(self, spec: MetadataSpec, object: ObjectReference) -> usize {
        spec.field(self.word(object, spec.word_index()))
    }

    /// The memory after a metadata field of `object` was set to `value`.
    pub open spec fn with_metadata(
        self,
        spec: MetadataSpec,
        object: ObjectReference,
        value: int,
    ) -> Memory {
        let index = spec.word_index();
        self.with_word(object, index, spec.with_field(self.word(object, index), value as usize))
    }
}

/// The orders that an atomic load accepts.
pub open spec fn is_load_order(order: Ordering) -> bool {
    !(order is Release) && !(order is AcqRel)
}

/// A language runtime, as the collector sees it.
///
/// The runtime lays out its objects, keeps their metadata in header words, and knows how to scan
/// them. Its memory is modelled as [`Memory`].
pub trait VMBinding: Sized {
    /// What the runtime's memory holds.
    spec fn view(&self) -> Memory;

    /// Where the runtime keeps the reference count of an object.
    spec fn count_spec() -> VMLocalReferenceCountSpec;

    /// Where the runtime keeps the unlog bit of an object.
    spec fn log_spec() -> VMGlobalLogBitSpec;

    /// Header word `index` of `object` was read, found to be `word`, by an atomic load that was
    /// given `order`. What the order promises to other threads is for the runtime to say.
    spec fn word_loaded(
        self,
        object: ObjectReference,
        index: usize,
        order: Ordering,
        word: usize,
    ) -> bool;

    /// Header word `index` of `object` was changed from `expected` to `word` by an atomic exchange
    /// that was given the orders `success` and `failure`. What the orders promise to other threads
    /// is for the runtime to say.
    spec fn word_exchanged(
        pre: Self,
        object: ObjectReference,
        index: usize,
        expected: usize,
        word: usize,
        success: Ordering,
        failure: Ordering,
        post: Self,
    ) -> bool;

    /// The two metadata fields are well formed and share no bit.
    proof fn layout_is_valid()
        ensures
            Self::count_spec().wf(),
            Self::log_spec().wf(),
            Self::count_spec().spec.disjoint(Self::log_spec().spec),
    ;

    /// Where the runtime keeps the reference count of an object.
    fn local_reference_count_spec() -> (spec: VMLocalReferenceCountSpec)
        ensures
            spec == Self::count_spec(),
    ;

    /// Where the runtime keeps the unlog bit of an object.
    fn global_log_bit_spec() -> (spec: VMGlobalLogBitSpec)
        ensures
            spec == Self::log_spec(),
    ;

    /// Atomically reads a header word.
    fn load_word(&self, object: ObjectReference, index: usize, order: Ordering) -> (word: usize)
        requires
            is_load_order(order),
        ensures
            word == self@.word(object, index),
            self.word_loaded(object, index, order, word),
    ;

    /// Atomically replaces a header word that still holds `expected`, and returns what it held.
    fn compare_exchange_word(
        &mut self,
        object: ObjectReference,
        index: usize,
        expected: usize,
        word: usize,
        success: Ordering,
        failure: Ordering,
    ) -> (result: Result<usize, usize>)
        requires
            is_load_order(failure),
        ensures
            old(self)@.word(object, index) == expected ==> result == Ok::<usize, usize>(expected)
                && final(self)@ == old(self)@.with_word(object, index, word) && Self::word_exchanged(
                *old(self),
                object,
                index,
                expected,
                word,
                success,
                failure,
                *final(self),
            ),
            old(self)@.word(object, index) != expected ==> result == Err::<usize, usize>(
                old(self)@.word(object, index),
            ) && final(self)@ == old(self)@,
    ;

    /// Reads a slot.
    fn load_slot(&self, slot: Slot) -> (content: Option<ObjectReference>)
        ensures
            content == self@.slot(slot),
            content matches Some(object) ==> object.wf(),
    ;

    /// Writes a slot.
    fn store_slot(&mut self, slot: Slot, target: ObjectReference)
        ensures
            final(self)@ == old(self)@.with_slot(slot, Some(target)),
    ;

    /// Copies the content of one run of slots to another of the same length. The two may overlap.
    fn copy_slots(&mut self, src: MemorySlice, dst: MemorySlice)
        requires
            src.wf(),
            dst.wf(),
            src.slots == dst.slots,
        ensures
            final(self)@ == old(self)@.with_copy(src, dst),
    ;

    /// Whether the fields of `object` can be enumerated as slots.
    fn support_slot_enqueuing(&self, tls: VMWorkerThread, object: ObjectReference) -> (supported:
        bool)
        ensures
            supported == (self@.slot_enqueuing)(object),
    ;

    /// The reference fields of `object`, in scanning order.
    fn iterate_fields(&self, object: ObjectReference, tls: VMThread) -> (slots: Vec<Slot>)
        ensures
            slots@ == self@.fields_of(object),
    ;

    /// The objects that the fields of `object` refer to, in scanning order.
    fn scan_object_and_trace_edges(&self, tls: VMWorkerThread, object: ObjectReference) -> (children:
        Vec<ObjectReference>)
        ensures
            children@ == self@.children(object),
    ;
}

/// A written header word and a written slot are read back, and nothing else changes.
pub proof fn law_writes_are_read_back(
    memory: Memory,
    object: ObjectReference,
    index: usize,
    word: usize,
    other: ObjectReference,
    other_index: usize,
    slot: Slot,
    target: Option<ObjectReference>,
    other_slot: Slot,
)
    ensures
        memory.with_word(object, index, word).word(other, other_index) == if other == object
            && other_index == index {
            word
        } else {
            memory.word(other, other_index)
        },
        memory.with_word(object, index, word).slots == memory.slots,
        memory.with_word(object, index, word).fields == memory.fields,
        memory.with_word(object, index, word).slot_enqueuing == memory.slot_enqueuing,
        memory.with_slot(slot, target).slot(other_slot) == if other_slot == slot {
            target
        } else {
            memory.slot(other_slot)
        },
        memory.with_slot(slot, target).headers == memory.headers,
        memory.with_slot(slot, target).fields == memory.fields,
        memory.with_slot(slot, target).slot_enqueuing == memory.slot_enqueuing,
        memory.word(object, index) == (memory.headers)(object, index),
        memory.slot(slot) == (memory.slots)(slot),
        memory.fields_of(object) == (memory.fields)(object),
{
}

/// After a copy, slot by slot, the destination holds what the source held before, and all other
/// slots hold what they held: the two may overlap.
pub proof fn law_copies_are_read_back(
    memory: Memory,
    src: MemorySlice,
    dst: MemorySlice,
    i: int,
    other: Slot,
)
    requires
        src.wf(),
        dst.wf(),
        src.slots == dst.slots,
        0 <= i < dst.slots,
    ensures
        memory.with_copy(src, dst).slot(
            Slot(Address((dst.start.0 + i * (usize::BITS as int / 8)) as usize)),
        ) == memory.slot(Slot(Address((src.start.0 + i * (usize::BITS as int / 8)) as usize))),
        (forall|k: int|
            0 <= k < dst.slots ==> other.0.0 != #[trigger] (dst.start.0 + k * (usize::BITS as int
                / 8))) ==> memory.with_copy(src, dst).slot(other) == memory.slot(other),
        memory.with_copy(src, dst).headers == memory.headers,
        memory.with_copy(src, dst).fields == memory.fields,
        memory.with_copy(src, dst).slot_enqueuing == memory.slot_enqueuing,
{
    let bytes = bytes_in_word();
    if usize::BITS == 32 {
        assert(bytes == 4);
    } else {
        assert(bytes == 8);
    }
    let place = Slot(Address((dst.start.0 + i * bytes) as usize));
    assert(place.0.0 == dst.start.0 + i * bytes);
    assert(dst.position(place) == i);
    assert(dst.has_slot(place));
    if dst.has_slot(other) {
        let k = dst.position(other);
        assert(other.0.0 == dst.start.0 + k * bytes);
    }
}

/// The children of an object are what its fields hold, in the order of the fields, with the null
/// fields left out.
pub proof fn law_children_are_the_contents_of_fields(memory: Memory, object: ObjectReference)
    ensures
        memory.children(object) == (memory.fields)(object).map_values(
            |slot: Slot| (memory.slots)(slot),
        ).filter(|content: Option<ObjectReference>| content is Some).map_values(
            |content: Option<ObjectReference>| content->0,
        ),
{
    lemma_referents_are_contents(memory.slots, memory.fields_of(object));
}

proof fn lemma_referents_are_contents(
    content: spec_fn(Slot) -> Option<ObjectReference>,
    slots: Seq<Slot>,
)
    ensures
        referents(content, slots) == slots.map_values(|slot: Slot| content(slot)).filter(
            |c: Option<ObjectReference>| c is Some,
        ).map_values(|c: Option<ObjectReference>| c->0),
    decreases slots.len(),
{
    reveal(Seq::filter);
    let contents = slots.map_values(|slot: Slot| content(slot));
    if slots.len() > 0 {
        let fewer = slots.drop_last();
        lemma_referents_are_contents(content, fewer);
        assert(contents.drop_last() =~= fewer.map_values(|slot: Slot| content(slot)));
    }
    assert(referents(content, slots) =~= contents.filter(
        |c: Option<ObjectReference>| c is Some,
    ).map_values(|c: Option<ObjectReference>| c->0));
}

}
