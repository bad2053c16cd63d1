//! Reference counts kept in object metadata.

use atomic::Ordering;
use vstd::arithmetic::power2::{lemma2_to64, lemma_pow2_pos, lemma_pow2_strictly_increases, pow2};
use vstd::bits::lemma_usize_shl_is_mul;
use vstd::prelude::*;

use crate::util::address::ObjectReference;
use crate::util::metadata::{
    law_metadata_overwrite, law_metadata_restore, law_metadata_write, lemma_all_ones,
    lemma_low_mask, word_bits, MetadataSpec, MetadataValue,
};
use crate::vm::{is_load_order, Memory, VMBinding};

verus! {

/// Where a runtime keeps the reference count of an object.
#[derive(Clone, Copy, PartialEq, Eq, Structural, Debug)]
pub struct VMLocalReferenceCountSpec {
    pub spec: MetadataSpec,
}

/// The order in which an atomic update that writes with `ordering` reads: the part of `ordering`
/// that a load can have.
pub open spec fn fetch_order(ordering: Ordering) -> Ordering {
    match ordering {
        Ordering::Release => Ordering::Relaxed,
        Ordering::AcqRel => Ordering::Acquire,
        _ => ordering,
    }
}

/// A machine number as a mathematical one.
pub open spec fn number(value: usize) -> int {
    value as int
}

impl VMLocalReferenceCountSpec {
    /// The count is between one bit and one word long, and lies in one header word.
    pub open spec fn wf(self) -> bool {
        self.spec.wf()
    }

    /// The greatest count that fits in the field.
    pub open spec fn greatest(self) -> int {
        pow2(self.spec.num_of_bits as nat) - 1
    }

    /// The count of `object`.
    pub open spec fn count(self, memory: Memory, object: ObjectReference) -> int {
        memory.metadata(self.spec, object) as int
    }

    /// The memory after the count of `object` was set to `count`.
    pub open spec fn with_count(
        self,
        memory: Memory,
        object: ObjectReference,
        count: int,
    ) -> Memory {
        memory.with_metadata(self.spec, object, count)
    }

    /// A count of `num_bits` bits in the header of each object, `bit_offset` bits after its start.
    pub fn in_header(bit_offset: usize, num_bits: usize) -> (spec: Self)
        ensures
            spec.spec == (MetadataSpec { bit_offset, num_of_bits: num_bits }),
    {
        VMLocalReferenceCountSpec { spec: MetadataSpec { bit_offset, num_of_bits: num_bits } }
    }

    /// The length of the count in bits.
    pub fn num_bits(&self) -> (bits: usize)
        ensures
            bits == self.spec.num_of_bits,
    {
        self.spec.num_of_bits
    }

    /// The greatest count is the greatest value of the field.
    pub proof fn lemma_greatest(self)
        requires
            self.wf(),
        ensures
            self.greatest() == self.spec.mask(),
            1 <= self.greatest() <= usize::MAX,
    {
        let bits = self.spec.num_of_bits;
        lemma_low_mask(bits);
        lemma2_to64();
        if bits < usize::BITS {
            lemma_pow2_pos(bits as nat);
            assert(pow2(bits as nat) <= usize::MAX) by {
                lemma_pow2_strictly_increases(bits as nat, usize::BITS as nat);
            }
            lemma_usize_shl_is_mul(1, bits);
        } else {
            lemma_all_ones();
        }
    }

    /// The maximum value representable by this reference count metadata spec.
    pub fn max_value(&self) -> (max: usize)
        requires
            self.wf(),
        ensures
            max == self.greatest(),
    {
        let num_bits: usize = self.num_bits();
        proof {
            self.lemma_greatest();
            lemma_low_mask(num_bits);
            lemma_all_ones();
        }
        if num_bits == word_bits() {
            usize::MAX
        } else {
            (1usize << num_bits) - 1
        }
    }

    /// The memory after the count of `object` went up by one, or stayed at the greatest count.
    pub open spec fn incremented(self, memory: Memory, object: ObjectReference) -> Memory {
        if self.count(memory, object) == self.greatest() {
            memory
        } else {
            self.with_count(memory, object, self.count(memory, object) + 1)
        }
    }

    /// The memory after the count of `object` went down by one, or stayed at zero.
    pub open spec fn decremented(self, memory: Memory, object: ObjectReference) -> Memory {
        if self.count(memory, object) == 0 {
            memory
        } else {
            self.with_count(memory, object, self.count(memory, object) - 1)
        }
    }

    /// The memory after the count of every object was set to what `counts` says.
    pub open spec fn with_counts(
        self,
        memory: Memory,
        counts: spec_fn(ObjectReference) -> int,
    ) -> Memory {
        Memory {
            headers: |object: ObjectReference, index: usize|
                if index == self.spec.word_index() {
                    self.with_count(memory, object, counts(object)).word(object, index)
                } else {
                    memory.word(object, index)
                },
            ..memory
        }
    }

    /// Every count fits in the field.
    pub open spec fn all_fit(self, counts: spec_fn(ObjectReference) -> int) -> bool {
        forall|object: ObjectReference| 0 <= #[trigger] counts(object) <= self.greatest()
    }

    /// Setting every count to what it is changes nothing.
    pub proof fn lemma_counts_kept(self, memory: Memory)
        requires
            self.wf(),
        ensures
            self.with_counts(memory, |object: ObjectReference| self.count(memory, object))
                == memory,
            self.all_fit(|object: ObjectReference| self.count(memory, object)),
    {
        let counts = |object: ObjectReference| self.count(memory, object);
        self.lemma_greatest();
        assert forall|object: ObjectReference| #![trigger counts(object)]
            0 <= counts(object) <= self.greatest() && self.with_count(
                memory,
                object,
                counts(object),
            ) == memory by {
            law_metadata_write(memory, self.spec, object, 0, self.spec, object);
            law_metadata_overwrite(memory, self.spec, object, 0, 0);
        }
        assert forall|object: ObjectReference, index: usize|
            (self.with_counts(memory, counts).headers)(object, index) == #[trigger] (
            memory.headers)(object, index) by {
            assert(self.with_count(memory, object, counts(object)) == memory);
        }
        assert(self.with_counts(memory, counts).headers =~= memory.headers);
    }

    /// Counts are read back as they were set.
    pub proof fn lemma_counts_read_back(
        self,
        memory: Memory,
        counts: spec_fn(ObjectReference) -> int,
        object: ObjectReference,
    )
        requires
            self.wf(),
            self.all_fit(counts),
        ensures
            self.count(self.with_counts(memory, counts), object) == counts(object),
    {
        self.lemma_greatest();
        assert(0 <= counts(object) <= self.greatest());
        law_metadata_write(memory, self.spec, object, counts(object), self.spec, object);
    }

    /// A decrement changes one count.
    pub proof fn lemma_counts_decrement(
        self,
        memory: Memory,
        counts: spec_fn(ObjectReference) -> int,
        object: ObjectReference,
        after: spec_fn(ObjectReference) -> int,
    )
        requires
            self.wf(),
            self.all_fit(counts),
            forall|o: ObjectReference| #[trigger]
                after(o) == if o == object && counts(o) > 0 {
                    counts(o) - 1
                } else {
                    counts(o)
                },
        ensures
            self.all_fit(after),
            self.decremented(self.with_counts(memory, counts), object) == self.with_counts(
                memory,
                after,
            ),
    {
        let before = self.with_counts(memory, counts);
        let index = self.spec.word_index();
        self.lemma_greatest();
        assert forall|o: ObjectReference| 0 <= #[trigger] after(o) <= self.greatest() by {
            assert(0 <= counts(o) <= self.greatest());
        }
        self.lemma_counts_read_back(memory, counts, object);
        let result = self.decremented(before, object);
        let expected = self.with_counts(memory, after);
        assert forall|o: ObjectReference, i: usize| #[trigger]
            (result.headers)(o, i) == (expected.headers)(o, i) by {
            assert(after(o) == if o == object && counts(o) > 0 {
                counts(o) - 1
            } else {
                counts(o)
            });
            if o == object && i == index && counts(o) > 0 {
                assert(0 <= counts(o) <= self.greatest());
                law_metadata_overwrite(memory, self.spec, o, counts(o), counts(o) - 1);
                let once = self.with_count(memory, o, counts(o));
                assert(before.word(o, i) == once.word(o, i));
                assert(result.word(o, i) == self.with_count(once, o, counts(o) - 1).word(o, i));
            }
        }
        assert(result.headers =~= expected.headers);
    }

    /// Load the current reference count.
    pub fn load<VM: VMBinding>(&self, vm: &VM, object: ObjectReference, ordering: Ordering) -> (count:
        usize)
        requires
            self.wf(),
            is_load_order(ordering),
        ensures
            count == self.count(vm@, object),
            count <= self.greatest(),
            self.spec.read_with(*vm, object, ordering),
    {
        proof {
            self.lemma_greatest();
            lemma_low_mask(self.spec.num_of_bits);
        }
        match self.num_bits() {
            1..=8 => self.load_inner::<VM, u8>(vm, object, ordering).to_usize(),
            9..=16 => self.load_inner::<VM, u16>(vm, object, ordering).to_usize(),
            17..=32 => self.load_inner::<VM, u32>(vm, object, ordering).to_usize(),
            _ => self.load_inner::<VM, u64>(vm, object, ordering).to_usize(),
        }
    }

    /// Store a reference count value.
    pub fn store<VM: VMBinding>(
        &self,
        vm: &mut VM,
        object: ObjectReference,
        value: usize,
        ordering: Ordering,
    )
        requires
            self.wf(),
            value <= self.greatest(),
        ensures
            final(vm)@ == self.with_count(old(vm)@, object, number(value)),
            self.count(final(vm)@, object) == value,
            self.spec.written_with(*old(vm), object, ordering, Ordering::Relaxed, *final(vm)),
    {
        proof {
            self.lemma_greatest();
            lemma_low_mask(self.spec.num_of_bits);
            law_metadata_write(vm@, self.spec, object, number(value), self.spec, object);
        }
        match self.num_bits() {
            1..=8 => self.store_inner::<VM, u8>(vm, object, u8::from_usize(value), ordering),
            9..=16 => self.store_inner::<VM, u16>(vm, object, u16::from_usize(value), ordering),
            17..=32 => self.store_inner::<VM, u32>(vm, object, u32::from_usize(value), ordering),
            _ => self.store_inner::<VM, u64>(vm, object, u64::from_usize(value), ordering),
        }
    }

    /// Increment the reference count.
    ///
    /// Returns `true` if the counter was incremented, or `false` if it was already at the
    /// maximum value representable by this metadata spec.
    pub fn inc<VM: VMBinding>(
        &self,
        vm: &mut VM,
        object: ObjectReference,
        ordering: Ordering,
    ) -> (incremented: bool)
        requires
            self.wf(),
        ensures
            incremented == (self.count(old(vm)@, object) < self.greatest()),
            final(vm)@ == self.incremented(old(vm)@, object),
            self.count(final(vm)@, object) == self.count(old(vm)@, object) + if incremented {
                1int
            } else {
                0int
            },
            self.spec.read_with(*old(vm), object, fetch_order(ordering)),
            if incremented {
                self.spec.written_with(
                    *old(vm),
                    object,
                    ordering,
                    fetch_order(ordering),
                    *final(vm),
                )
            } else {
                *final(vm) == *old(vm)
            },
    {
        let max: usize = self.max_value();
        proof {
            self.lemma_greatest();
            lemma_low_mask(self.spec.num_of_bits);
        }
        match self.num_bits() {
            1..=8 => self.inc_inner::<VM, u8>(vm, object, ordering, u8::from_usize(max)),
            9..=16 => self.inc_inner::<VM, u16>(vm, object, ordering, u16::from_usize(max)),
            17..=32 => self.inc_inner::<VM, u32>(vm, object, ordering, u32::from_usize(max)),
            _ => self.inc_inner::<VM, u64>(vm, object, ordering, u64::from_usize(max)),
        }
    }

    /// Decrement the reference count.
    ///
    /// Returns `true` if the counter was decremented, or `false` if it was already zero.
    pub fn dec<VM: VMBinding>(
        &self,
        vm: &mut VM,
        object: ObjectReference,
        ordering: Ordering,
    ) -> (decremented: bool)
        requires
            self.wf(),
        ensures
            decremented == (self.count(old(vm)@, object) > 0),
            final(vm)@ == self.decremented(old(vm)@, object),
            self.count(final(vm)@, object) == self.count(old(vm)@, object) - if decremented {
                1int
            } else {
                0int
            },
            self.spec.read_with(*old(vm), object, fetch_order(ordering)),
            if decremented {
                self.spec.written_with(
                    *old(vm),
                    object,
                    ordering,
                    fetch_order(ordering),
                    *final(vm),
                )
            } else {
                *final(vm) == *old(vm)
            },
    {
        proof {
            lemma_low_mask(self.spec.num_of_bits);
        }
        match self.num_bits() {
            1..=8 => self.dec_inner::<VM, u8>(vm, object, ordering),
            9..=16 => self.dec_inner::<VM, u16>(vm, object, ordering),
            17..=32 => self.dec_inner::<VM, u32>(vm, object, ordering),
            _ => self.dec_inner::<VM, u64>(vm, object, ordering),
        }
    }

    /// Increments the count, read and written as a `T`, unless it is `max`.
    fn inc_inner<VM: VMBinding, T: MetadataValue>(
        &self,
        vm: &mut VM,
        object: ObjectReference,
        ordering: Ordering,
        max: T,
    ) -> (incremented: bool)
        requires
            self.wf(),
            max.value() == self.greatest(),
            self.greatest() <= T::greatest(),
        ensures
            incremented == (self.count(old(vm)@, object) < self.greatest()),
            final(vm)@ == self.incremented(old(vm)@, object),
            self.count(final(vm)@, object) == self.count(old(vm)@, object) + if incremented {
                1int
            } else {
                0int
            },
            self.spec.read_with(*old(vm), object, fetch_order(ordering)),
            if incremented {
                self.spec.written_with(
                    *old(vm),
                    object,
                    ordering,
                    fetch_order(ordering),
                    *final(vm),
                )
            } else {
                *final(vm) == *old(vm)
            },
    {
        proof {
            self.lemma_greatest();
            law_metadata_write(vm@, self.spec, object, 0, self.spec, object);
            if self.count(vm@, object) < self.greatest() {
                let next = self.count(vm@, object) + 1;
                law_metadata_write(vm@, self.spec, object, next, self.spec, object);
            }
        }
        let one: T = T::from_u8(1).unwrap();
        let update = |old: T| -> (new: Option<T>)
            requires
                0 <= old.value() <= max.value() <= T::greatest(),
                one.value() == 1,
            ensures
                new is None <==> old.value() == max.value(),
                new matches Some(v) ==> v.value() == old.value() + 1,
            {
                if old.same(max) {
                    None
                } else {
                    Some(old.plus(one))
                }
            };
        self.spec.fetch_update_metadata::<VM, T, _>(
            vm,
            object,
            ordering,
            fetch_order_for_update(ordering),
            update,
        ).is_ok()
    }

    /// Reads the count as a `T`.
    fn load_inner<VM: VMBinding, T: MetadataValue>(
        &self,
        vm: &VM,
        object: ObjectReference,
        ordering: Ordering,
    ) -> (count: T)
        requires
            self.wf(),
            is_load_order(ordering),
            self.greatest() <= T::greatest(),
        ensures
            count.value() == self.count(vm@, object),
            0 <= count.value() <= self.greatest(),
            self.spec.read_with(*vm, object, ordering),
    {
        proof {
            self.lemma_greatest();
        }
        self.spec.load_atomic::<VM, T>(vm, object, ordering)
    }

    /// Writes the count as a `T`.
    fn store_inner<VM: VMBinding, T: MetadataValue>(
        &self,
        vm: &mut VM,
        object: ObjectReference,
        value: T,
        ordering: Ordering,
    )
        requires
            self.wf(),
            0 <= value.value() <= self.greatest(),
        ensures
            final(vm)@ == self.with_count(old(vm)@, object, value.value()),
            self.spec.written_with(*old(vm), object, ordering, Ordering::Relaxed, *final(vm)),
    {
        proof {
            self.lemma_greatest();
        }
        self.spec.store_atomic::<VM, T>(vm, object, value, ordering)
    }

    /// Decrements the count, read and written as a `T`, unless it is zero.
    fn dec_inner<VM: VMBinding, T: MetadataValue>(
        &self,
        vm: &mut VM,
        object: ObjectReference,
        ordering: Ordering,
    ) -> (decremented: bool)
        requires
            self.wf(),
            self.spec.mask() <= T::greatest(),
        ensures
            decremented == (self.count(old(vm)@, object) > 0),
            final(vm)@ == self.decremented(old(vm)@, object),
            self.count(final(vm)@, object) == self.count(old(vm)@, object) - if decremented {
                1int
            } else {
                0int
            },
            self.spec.read_with(*old(vm), object, fetch_order(ordering)),
            if decremented {
                self.spec.written_with(
                    *old(vm),
                    object,
                    ordering,
                    fetch_order(ordering),
                    *final(vm),
                )
            } else {
                *final(vm) == *old(vm)
            },
    {
        proof {
            law_metadata_write(vm@, self.spec, object, 0, self.spec, object);
            if self.count(vm@, object) > 0 {
                let next = self.count(vm@, object) - 1;
                law_metadata_write(vm@, self.spec, object, next, self.spec, object);
            }
        }
        let one: T = T::from_u8(1).unwrap();
        let update = |old: T| -> (new: Option<T>)
            requires
                0 <= old.value(),
                one.value() == 1,
            ensures
                new is None <==> old.value() == 0,
                new matches Some(v) ==> v.value() == old.value() - 1,
            {
                if old.is_zero() {
                    None
                } else {
                    Some(old.minus(one))
                }
            };
        self.spec.fetch_update_metadata::<VM, T, _>(
            vm,
            object,
            ordering,
            fetch_order_for_update(ordering),
            update,
        ).is_ok()
    }
}

/// The order in which an atomic update that writes with `ordering` reads.
pub fn fetch_order_for_update(ordering: Ordering) -> (fetch: Ordering)
    ensures
        fetch == fetch_order(ordering),
        is_load_order(fetch),
{
    match ordering {
        Ordering::Release => Ordering::Relaxed,
        Ordering::AcqRel => Ordering::Acquire,
        _ => ordering,
    }
}

/// Below the greatest count, a decrement undoes an increment; above zero, an increment undoes a
/// decrement.
pub proof fn law_inc_and_dec_undo_each_other(
    spec: VMLocalReferenceCountSpec,
    memory: Memory,
    object: ObjectReference,
)
    requires
        spec.wf(),
    ensures
        spec.count(memory, object) < spec.greatest() ==> spec.decremented(
            spec.incremented(memory, object),
            object,
        ) == memory,
        0 < spec.count(memory, object) ==> spec.incremented(
            spec.decremented(memory, object),
            object,
        ) == memory,
{
    let field = spec.spec;
    let count = spec.count(memory, object);
    spec.lemma_greatest();
    law_metadata_write(memory, field, object, 0, field, object);
    if count < spec.greatest() {
        law_metadata_write(memory, field, object, count + 1, field, object);
        law_metadata_restore(memory, field, object, count + 1);
    }
    if 0 < count {
        law_metadata_write(memory, field, object, count - 1, field, object);
        law_metadata_restore(memory, field, object, count - 1);
    }
}

/// Counts never wrap: whatever is done to them, they stay between zero and the greatest count, and
/// an increment or a decrement of one object leaves the count of every other object alone.
pub proof fn law_counts_never_wrap(
    spec: VMLocalReferenceCountSpec,
    memory: Memory,
    object: ObjectReference,
    other: ObjectReference,
)
    requires
        spec.wf(),
    ensures
        0 <= spec.count(memory, object) <= spec.greatest(),
        spec.count(spec.incremented(memory, object), object) == if spec.count(memory, object)
            < spec.greatest() {
            spec.count(memory, object) + 1
        } else {
            spec.greatest()
        },
        spec.count(spec.decremented(memory, object), object) == if spec.count(memory, object) > 0 {
            spec.count(memory, object) - 1
        } else {
            0
        },
        other != object ==> {
            &&& spec.count(spec.incremented(memory, object), other) == spec.count(memory, other)
            &&& spec.count(spec.decremented(memory, object), other) == spec.count(memory, other)
        },
{
    let field = spec.spec;
    let count = spec.count(memory, object);
    spec.lemma_greatest();
    law_metadata_write(memory, field, object, 0, field, other);
    if count < spec.greatest() {
        law_metadata_write(memory, field, object, count + 1, field, other);
    }
    if 0 < count {
        law_metadata_write(memory, field, object, count - 1, field, other);
    }
}

/// A count of so many bits goes up to the greatest number of so many bits, and it is the number in
/// its metadata field.
pub proof fn law_the_greatest_count(
    spec: VMLocalReferenceCountSpec,
    memory: Memory,
    object: ObjectReference,
)
    requires
        spec.spec.wf(),
    ensures
        spec.wf(),
        spec.greatest() + 1 == pow2(spec.spec.num_of_bits as nat),
        spec.count(memory, object) == memory.metadata(spec.spec, object),
{
}

/// Counting changes counts alone: whichever counts are incremented, decremented or set, every
/// metadata field that shares no bit with the count keeps its value, in every object, and slots and
/// fields stay as they are.
pub proof fn law_counting_changes_counts_alone(
    spec: VMLocalReferenceCountSpec,
    memory: Memory,
    object: ObjectReference,
    counts: spec_fn(ObjectReference) -> int,
    other_spec: MetadataSpec,
    other: ObjectReference,
)
    requires
        spec.wf(),
        spec.all_fit(counts),
        other_spec.wf(),
        spec.spec.disjoint(other_spec),
    ensures
        spec.incremented(memory, object).metadata(other_spec, other) == memory.metadata(
            other_spec,
            other,
        ),
        spec.decremented(memory, object).metadata(other_spec, other) == memory.metadata(
            other_spec,
            other,
        ),
        spec.with_counts(memory, counts).metadata(other_spec, other) == memory.metadata(
            other_spec,
            other,
        ),
        spec.count(spec.with_counts(memory, counts), other) == counts(other),
        spec.incremented(memory, object) == (Memory {
            headers: spec.incremented(memory, object).headers,
            ..memory
        }),
        spec.decremented(memory, object) == (Memory {
            headers: spec.decremented(memory, object).headers,
            ..memory
        }),
        spec.with_counts(memory, counts) == (Memory {
            headers: spec.with_counts(memory, counts).headers,
            ..memory
        }),
{
    let field = spec.spec;
    let count = spec.count(memory, object);
    spec.lemma_greatest();
    assert(0 <= counts(other) <= spec.greatest());
    law_metadata_write(memory, field, object, 0, other_spec, other);
    law_metadata_write(memory, field, object, 0, field, object);
    if count < spec.greatest() {
        law_metadata_write(memory, field, object, count + 1, other_spec, other);
    }
    if 0 < count {
        law_metadata_write(memory, field, object, count - 1, other_spec, other);
    }
    law_metadata_write(memory, field, other, counts(other), other_spec, other);
    spec.lemma_counts_read_back(memory, counts, other);
    let after = spec.with_counts(memory, counts);
    assert(after.word(other, other_spec.word_index()) == if other_spec.word_index()
        == field.word_index() {
        spec.with_count(memory, other, counts(other)).word(other, other_spec.word_index())
    } else {
        memory.word(other, other_spec.word_index())
    });
}

}
