//! A runtime that keeps its whole heap in maps.

use std::collections::HashMap;

use atomic::Ordering;
use vstd::prelude::*;

use crate::util::address::{group_object_reference, Address, ObjectReference, ObjectSet};
use crate::util::metadata::reference_count::VMLocalReferenceCountSpec;
use crate::util::metadata::{word_bits, MetadataSpec, VMGlobalLogBitSpec};
use crate::vm::{
    bytes_in_word, referents, Memory, MemorySlice, Slot, VMBinding, VMThread, VMWorkerThread,
};

verus! {

/// A heap that is kept in maps. Header words that were never written are zero, slots that were
/// never written are null, and objects have no fields until they are given some.
pub struct Heap {
    headers: HashMap<u128, usize>,
    slots: HashMap<usize, ObjectReference>,
    fields: HashMap<usize, Vec<Slot>>,
    edge_traced: ObjectSet,
}

/// The key of a header word.
spec fn header_key(object: ObjectReference, index: usize) -> u128 {
    (object.address().0 * 0x1_0000_0000_0000_0000 + index) as u128
}

/// Different header words have different keys.
proof fn lemma_header_keys(
    object: ObjectReference,
    index: usize,
    other: ObjectReference,
    other_index: usize,
)
    ensures
        header_key(object, index) == object.address().0 * 0x1_0000_0000_0000_0000 + index,
        header_key(object, index) == header_key(other, other_index) ==> object == other && index
            == other_index,
{
    broadcast use group_object_reference;

    let a = object.address();
    let b = other.address();
    assert(a.0 * 0x1_0000_0000_0000_0000 + index <= u128::MAX);
    assert(b.0 * 0x1_0000_0000_0000_0000 + other_index <= u128::MAX);
    if header_key(object, index) == header_key(other, other_index) {
        assert(a.0 == b.0);
        assert(a == b);
    }
}

/// The key of a header word.
fn key_of_header(object: ObjectReference, index: usize) -> (key: u128)
    ensures
        key == header_key(object, index),
{
    proof {
        lemma_header_keys(object, index, object, index);
    }
    let address: usize = object.to_raw_address().as_usize();
    (address as u128) * 0x1_0000_0000_0000_0000u128 + (index as u128)
}

/// Where a slice has its slots.
proof fn lemma_slice_slots(slice: MemorySlice, i: int, slot: Slot)
    requires
        slice.wf(),
        0 <= i < slice.slots,
    ensures
        slice.slot(i).0.0 == slice.start.0 + i * bytes_in_word(),
        slice.start.0 + i * bytes_in_word() <= usize::MAX,
        slice.has_slot(slice.slot(i)),
        slice.position(slice.slot(i)) == i,
        slice.has_slot(slot) ==> 0 <= slice.position(slot) < slice.slots,
        slice.has_slot(slot) && slice.position(slot) == i ==> slot == slice.slot(i),
{
    if usize::BITS == 32 {
        assert(bytes_in_word() == 4);
    } else {
        assert(bytes_in_word() == 8);
    }
}

impl Heap {
    /// An empty heap.
    pub fn new() -> (heap: Self)
        ensures
            forall|o: ObjectReference, i: usize| #[trigger] heap@.word(o, i) == 0,
            forall|s: Slot| #[trigger] heap@.slot(s) is None,
            forall|o: ObjectReference| #[trigger] heap@.fields_of(o) == Seq::<Slot>::empty(),
            forall|o: ObjectReference| #[trigger] (heap@.slot_enqueuing)(o),
    {
        Heap {
            headers: HashMap::new(),
            slots: HashMap::new(),
            fields: HashMap::new(),
            edge_traced: ObjectSet::new(),
        }
    }

    /// Gives `object` the reference fields in `slots`.
    pub fn set_fields(&mut self, object: ObjectReference, slots: Vec<Slot>)
        ensures
            final(self)@ == (Memory {
                fields: |o: ObjectReference|
                    if o == object {
                        slots@
                    } else {
                        old(self)@.fields_of(o)
                    },
                ..old(self)@
            }),
    {
        broadcast use vstd::std_specs::hash::group_hash_axioms, group_object_reference;

        self.fields.insert(object.to_raw_address().as_usize(), slots);
        let ghost expected = |o: ObjectReference|
            if o == object {
                slots@
            } else {
                old(self)@.fields_of(o)
            };
        assert forall|o: ObjectReference| #[trigger] (self@.fields)(o) == expected(o) by {
            if o.address().0 == object.address().0 {
                assert(o.address() == object.address());
            }
        }
        assert(self@.fields =~= expected);
    }

    /// From now on, the fields of `object` cannot be enumerated as slots.
    pub fn trace_edges_of(&mut self, object: ObjectReference)
        ensures
            final(self)@ == (Memory {
                slot_enqueuing: |o: ObjectReference|
                    o != object && (old(self)@.slot_enqueuing)(o),
                ..old(self)@
            }),
    {
        self.edge_traced.insert(object);
        assert(self@.slot_enqueuing =~= (|o: ObjectReference|
            o != object && (old(self)@.slot_enqueuing)(o)));
    }

    /// Sets header word `index` of `object`.
    pub fn set_word(&mut self, object: ObjectReference, index: usize, word: usize)
        ensures
            final(self)@ == old(self)@.with_word(object, index, word),
    {
        broadcast use vstd::std_specs::hash::group_hash_axioms;

        self.headers.insert(key_of_header(object, index), word);
        let ghost expected = old(self)@.with_word(object, index, word);
        assert forall|o: ObjectReference, i: usize| #[trigger]
            (self@.headers)(o, i) == (expected.headers)(o, i) by {
            lemma_header_keys(o, i, object, index);
        }
        assert(self@.headers =~= expected.headers);
    }

    /// Header word `index` of `object`.
    pub fn word(&self, object: ObjectReference, index: usize) -> (word: usize)
        ensures
            word == self@.word(object, index),
    {
        broadcast use vstd::std_specs::hash::group_hash_axioms;

        match self.headers.get(&key_of_header(object, index)) {
            Some(word) => *word,
            None => 0,
        }
    }

    /// Writes a slot, or makes it null.
    pub fn write_slot(&mut self, slot: Slot, content: Option<ObjectReference>)
        ensures
            final(self)@ == old(self)@.with_slot(slot, content),
    {
        broadcast use vstd::std_specs::hash::group_hash_axioms;

        match content {
            Some(object) => {
                self.slots.insert(slot.0.as_usize(), object);
            },
            None => {
                self.slots.remove(&slot.0.as_usize());
            },
        }
        let ghost expected = old(self)@.with_slot(slot, content);
        assert forall|s: Slot| #[trigger] (self@.slots)(s) == (expected.slots)(s) by {
            if s.0.0 == slot.0.0 {
                assert(s == slot);
            }
        }
        assert(self@.slots =~= expected.slots);
    }

    /// The slot at position `i` of a slice.
    fn slot_at(slice: MemorySlice, i: usize) -> (slot: Slot)
        requires
            slice.wf(),
            i < slice.slots,
        ensures
            slot == slice.slot(i as int),
    {
        proof {
            lemma_slice_slots(slice, i as int, slice.slot(i as int));
            if usize::BITS == 32 {
                assert(bytes_in_word() == 4);
            } else {
                assert(bytes_in_word() == 8);
            }
        }
        let bytes: usize = word_bits() / 8;
        Slot(Address::from_usize(slice.start.as_usize() + i * bytes))
    }
}

impl VMBinding for Heap {
    closed spec fn view(&self) -> Memory {
        Memory {
            headers: |o: ObjectReference, i: usize|
                if self.headers@.contains_key(header_key(o, i)) {
                    self.headers@[header_key(o, i)]
                } else {
                    0
                },
            slots: |s: Slot|
                if self.slots@.contains_key(s.0.0) {
                    Some(self.slots@[s.0.0])
                } else {
                    None
                },
            fields: |o: ObjectReference|
                if self.fields@.contains_key(o.address().0) {
                    self.fields@[o.address().0]@
                } else {
                    Seq::empty()
                },
            slot_enqueuing: |o: ObjectReference| !self.edge_traced@.contains(o),
        }
    }

    open spec fn count_spec() -> VMLocalReferenceCountSpec {
        VMLocalReferenceCountSpec { spec: MetadataSpec { bit_offset: 0, num_of_bits: 16 } }
    }

    open spec fn log_spec() -> VMGlobalLogBitSpec {
        VMGlobalLogBitSpec { spec: MetadataSpec { bit_offset: 16, num_of_bits: 1 } }
    }

    /// One thread has the heap at a time, so that orders make no difference.
    open spec fn word_loaded(
        self,
        object: ObjectReference,
        index: usize,
        order: Ordering,
        word: usize,
    ) -> bool {
        word == self@.word(object, index)
    }

    /// One thread has the heap at a time, so that orders make no difference.
    open spec fn word_exchanged(
        pre: Self,
        object: ObjectReference,
        index: usize,
        expected: usize,
        word: usize,
        success: Ordering,
        failure: Ordering,
        post: Self,
    ) -> bool {
        pre@.word(object, index) == expected && post@ == pre@.with_word(object, index, word)
    }

    proof fn layout_is_valid() {
        let bits = usize::BITS as usize;
        if bits == 32 {
            assert(0usize % bits == 0 && 16usize % bits == 16);
        } else {
            assert(bits == 64);
            assert(0usize % bits == 0 && 16usize % bits == 16);
        }
        assert(Self::count_spec().spec.shift() == 0);
        assert(Self::log_spec().spec.shift() == 16);
    }

    fn local_reference_count_spec() -> (spec: VMLocalReferenceCountSpec) {
        VMLocalReferenceCountSpec::in_header(0, 16)
    }

    fn global_log_bit_spec() -> (spec: VMGlobalLogBitSpec) {
        VMGlobalLogBitSpec { spec: MetadataSpec { bit_offset: 16, num_of_bits: 1 } }
    }

    fn load_word(&self, object: ObjectReference, index: usize, order: Ordering) -> (word: usize) {
        self.word(object, index)
    }

    fn compare_exchange_word(
        &mut self,
        object: ObjectReference,
        index: usize,
        expected: usize,
        word: usize,
        success: Ordering,
        failure: Ordering,
    ) -> (result: Result<usize, usize>) {
        let current: usize = self.word(object, index);
        if current == expected {
            self.set_word(object, index, word);
            Ok(current)
        } else {
            Err(current)
        }
    }

    fn load_slot(&self, slot: Slot) -> (content: Option<ObjectReference>) {
        broadcast use vstd::std_specs::hash::group_hash_axioms;

        match self.slots.get(&slot.0.as_usize()) {
            Some(object) => {
                let object: ObjectReference = *object;
                proof {
                    use_type_invariant(&object);
                }
                Some(object)
            },
            None => None,
        }
    }

    fn store_slot(&mut self, slot: Slot, target: ObjectReference) {
        self.write_slot(slot, Some(target));
    }

    fn copy_slots(&mut self, src: MemorySlice, dst: MemorySlice) {
        let mut contents: Vec<Option<ObjectReference>> = Vec::new();
        let mut i: usize = 0;
        while i < src.slots
            invariant
                src.wf(),
                i <= src.slots,
                contents@.len() == i,
                forall|k: int| 0 <= k < i ==> #[trigger] contents@[k] == self@.slot(src.slot(k)),
            decreases src.slots - i,
        {
            contents.push(self.load_slot(Self::slot_at(src, i)));
            i = i + 1;
        }
        let ghost before = self@;
        let mut j: usize = 0;
        assert forall|s: Slot| dst.has_slot(s) implies dst.position(s) >= 0 by {
            if usize::BITS == 32 {
                assert(bytes_in_word() == 4);
            } else {
                assert(bytes_in_word() == 8);
            }
        }
        while j < dst.slots
            invariant
                dst.wf(),
                j <= dst.slots,
                contents@.len() == dst.slots,
                before == old(self)@,
                self@ == (Memory { slots: self@.slots, ..before }),
                forall|s: Slot| #[trigger]
                    (self@.slots)(s) == if dst.has_slot(s) && dst.position(s) < j {
                        contents@[dst.position(s)]
                    } else {
                        before.slot(s)
                    },
            decreases dst.slots - j,
        {
            let ghost now = self@;
            let slot: Slot = Self::slot_at(dst, j);
            self.write_slot(slot, contents[j]);
            assert forall|s: Slot| #[trigger]
                (self@.slots)(s) == if dst.has_slot(s) && dst.position(s) < j + 1 {
                    contents@[dst.position(s)]
                } else {
                    before.slot(s)
                } by {
                lemma_slice_slots(dst, j as int, s);
                assert((now.slots)(s) == if dst.has_slot(s) && dst.position(s) < j {
                    contents@[dst.position(s)]
                } else {
                    before.slot(s)
                });
            }
            j = j + 1;
        }
        let ghost expected = old(self)@.with_copy(src, dst);
        assert forall|s: Slot| #[trigger] (self@.slots)(s) == (expected.slots)(s) by {
            if dst.has_slot(s) {
                let k = dst.position(s);
                assert(contents@[k] == before.slot(src.slot(k)));
            }
        }
        assert(self@.slots =~= expected.slots);
    }

    fn support_slot_enqueuing(&self, tls: VMWorkerThread, object: ObjectReference) -> (supported:
        bool) {
        !self.edge_traced.contains(&object)
    }

    fn iterate_fields(&self, object: ObjectReference, tls: VMThread) -> (slots: Vec<Slot>) {
        broadcast use vstd::std_specs::hash::group_hash_axioms;

        match self.fields.get(&object.to_raw_address().as_usize()) {
            Some(slots) => {
                let mut copy: Vec<Slot> = Vec::new();
                let mut i: usize = 0;
                while i < slots.len()
                    invariant
                        i <= slots@.len(),
                        copy@ == slots@.take(i as int),
                    decreases slots@.len() - i,
                {
                    copy.push(slots[i]);
                    i = i + 1;
                    assert(copy@ =~= slots@.take(i as int));
                }
                assert(slots@.take(i as int) =~= slots@);
                copy
            },
            None => Vec::new(),
        }
    }

    fn scan_object_and_trace_edges(&self, tls: VMWorkerThread, object: ObjectReference) -> (children:
        Vec<ObjectReference>) {
        let slots: Vec<Slot> = self.iterate_fields(object, tls.0);
        let mut children: Vec<ObjectReference> = Vec::new();
        let mut i: usize = 0;
        while i < slots.len()
            invariant
                i <= slots@.len(),
                children@ == referents(self@.slots, slots@.take(i as int)),
            decreases slots@.len() - i,
        {
            assert(slots@.take(i + 1).drop_last() =~= slots@.take(i as int));
            if let Some(child) = self.load_slot(slots[i]) {
                children.push(child);
            }
            i = i + 1;
        }
        assert(slots@.take(i as int) =~= slots@);
        children
    }
}

}
