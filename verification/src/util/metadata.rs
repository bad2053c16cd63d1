//! Per-object metadata kept in the header words of an object.
//!
//! A [`MetadataSpec`] selects a bit field inside one header word. The operations below read, write
//! and atomically update that field, and leave every other bit of the header alone.

pub mod reference_count;

use atomic::Ordering;
use vstd::arithmetic::div_mod::lemma_fundamental_div_mod;
use vstd::prelude::*;

use crate::util::address::ObjectReference;
use crate::vm::{is_load_order, Memory, VMBinding};

verus! {

/// Bits `shift ..` of `word` that `mask` keeps, as a number.
pub open spec fn bit_field(word: usize, shift: usize, mask: usize) -> usize {
    (word >> shift) & mask
}

/// `word` with the bits that `mask << shift` selects replaced by those of `value << shift`.
pub open spec fn with_bit_field(word: usize, shift: usize, mask: usize, value: usize) -> usize {
    (word & !(mask << shift)) | (value << shift)
}

/// The word whose lowest `bits` bits are set.
pub open spec fn low_mask(bits: usize) -> usize {
    !0usize >> ((usize::BITS - bits) as usize)
}

proof fn lemma_field_read_back(word: usize, shift: usize, bits: usize, value: usize)
    by (bit_vector)
    requires
        1 <= bits,
        shift + bits <= usize::BITS,
        value <= low_mask(bits),
    ensures
        bit_field(with_bit_field(word, shift, low_mask(bits), value), shift, low_mask(bits))
            == value,
{
}

proof fn lemma_field_disjoint(
    word: usize,
    shift: usize,
    bits: usize,
    value: usize,
    other_shift: usize,
    other_bits: usize,
)
    by (bit_vector)
    requires
        1 <= bits,
        1 <= other_bits,
        shift + bits <= usize::BITS,
        other_shift + other_bits <= usize::BITS,
        shift + bits <= other_shift || other_shift + other_bits <= shift,
        value <= low_mask(bits),
    ensures
        bit_field(
            with_bit_field(word, shift, low_mask(bits), value),
            other_shift,
            low_mask(other_bits),
        ) == bit_field(word, other_shift, low_mask(other_bits)),
{
}

proof fn lemma_field_overwrite(word: usize, shift: usize, bits: usize, first: usize, second: usize)
    by (bit_vector)
    requires
        1 <= bits,
        shift + bits <= usize::BITS,
        first <= low_mask(bits),
        second <= low_mask(bits),
    ensures
        with_bit_field(
            with_bit_field(word, shift, low_mask(bits), first),
            shift,
            low_mask(bits),
            second,
        ) == with_bit_field(word, shift, low_mask(bits), second),
        with_bit_field(word, shift, low_mask(bits), bit_field(word, shift, low_mask(bits))) == word,
{
}

proof fn lemma_field_bound(word: usize, shift: usize, bits: usize)
    by (bit_vector)
    requires
        1 <= bits <= usize::BITS,
    ensures
        bit_field(word, shift, low_mask(bits)) <= low_mask(bits),
{
}

/// A word of ones is the greatest word.
pub(crate) proof fn lemma_all_ones()
    ensures
        !0usize == usize::MAX,
{
    let greatest = usize::MAX;
    assert(greatest <= !0usize) by (bit_vector);
}

/// The greatest number of `bits` bits.
pub(crate) proof fn lemma_low_mask(bits: usize)
    by (bit_vector)
    requires
        1 <= bits <= usize::BITS,
    ensures
        bits < usize::BITS ==> low_mask(bits) + 1 == (1usize << bits),
        bits == usize::BITS ==> low_mask(bits) == !0usize,
        bits == 1 ==> low_mask(bits) == 1,
        bits <= 8 ==> low_mask(bits) <= 0xff,
        bits <= 16 ==> low_mask(bits) <= 0xffff,
        bits <= 32 ==> low_mask(bits) <= 0xffff_ffff,
        1 <= low_mask(bits),
{
}

/// The number of bits in a machine word.
pub fn word_bits() -> (bits: usize)
    ensures
        bits == usize::BITS,
{
    usize::BITS as usize
}

/// An unsigned integer type that a metadata field can be read and written as.
pub trait MetadataValue: Copy {
    /// The number that the value stands for.
    spec fn value(self) -> int;

    /// The greatest number of the type.
    spec fn greatest() -> int;

    /// The value that stands for `number`, where the type has one.
    fn from_u8(number: u8) -> (value: Option<Self>)
        ensures
            value matches Some(v) && v.value() == number,
    ;

    /// The value that stands for `number`.
    fn from_usize(number: usize) -> (value: Self)
        requires
            number <= Self::greatest(),
        ensures
            value.value() == number,
    ;

    /// The number that the value stands for.
    fn to_usize(self) -> (number: usize)
        requires
            self.value() <= usize::MAX,
        ensures
            number == self.value(),
    ;

    /// Whether the value stands for zero.
    fn is_zero(self) -> (zero: bool)
        ensures
            zero == (self.value() == 0),
    ;

    /// Whether two values stand for the same number.
    fn same(self, other: Self) -> (same: bool)
        ensures
            same == (self.value() == other.value()),
    ;

    /// The sum of two values.
    fn plus(self, other: Self) -> (sum: Self)
        requires
            self.value() + other.value() <= Self::greatest(),
        ensures
            sum.value() == self.value() + other.value(),
    ;

    /// The difference of two values.
    fn minus(self, other: Self) -> (difference: Self)
        requires
            other.value() <= self.value(),
        ensures
            difference.value() == self.value() - other.value(),
    ;
}

impl MetadataValue for u8 {
    open spec fn value(self) -> int {
        self as int
    }

    open spec fn greatest() -> int {
        u8::MAX as int
    }

    fn from_u8(number: u8) -> (value: Option<Self>) {
        Some(number as u8)
    }

    fn from_usize(number: usize) -> (value: Self) {
        number as u8
    }

    fn to_usize(self) -> (number: usize) {
        self as usize
    }

    fn is_zero(self) -> (zero: bool) {
        self == 0
    }

    fn same(self, other: Self) -> (same: bool) {
        self == other
    }

    fn plus(self, other: Self) -> (sum: Self) {
        self + other
    }

    fn minus(self, other: Self) -> (difference: Self) {
        self - other
    }
}

impl MetadataValue for u16 {
    open spec fn value(self) -> int {
        self as int
    }

    open spec fn greatest() -> int {
        u16::MAX as int
    }

    fn from_u8(number: u8) -> (value: Option<Self>) {
        Some(number as u16)
    }

    fn from_usize(number: usize) -> (value: Self) {
        number as u16
    }

    fn to_usize(self) -> (number: usize) {
        self as usize
    }

    fn is_zero(self) -> (zero: bool) {
        self == 0
    }

    fn same(self, other: Self) -> (same: bool) {
        self == other
    }

    fn plus(self, other: Self) -> (sum: Self) {
        self + other
    }

    fn minus(self, other: Self) -> (difference: Self) {
        self - other
    }
}

impl MetadataValue for u32 {
    open spec fn value(self) -> int {
        self as int
    }

    open spec fn greatest() -> int {
        u32::MAX as int
    }

    fn from_u8(number: u8) -> (value: Option<Self>) {
        Some(number as u32)
    }

    fn from_usize(number: usize) -> (value: Self) {
        number as u32
    }

    fn to_usize(self) -> (number: usize) {
        self as usize
    }

    fn is_zero(self) -> (zero: bool) {
        self == 0
    }

    fn same(self, other: Self) -> (same: bool) {
        self == other
    }

    fn plus(self, other: Self) -> (sum: Self) {
        self + other
    }

    fn minus(self, other: Self) -> (difference: Self) {
        self - other
    }
}

impl MetadataValue for u64 {
    open spec fn value(self) -> int {
        self as int
    }

    open spec fn greatest() -> int {
        u64::MAX as int
    }

    fn from_u8(number: u8) -> (value: Option<Self>) {
        Some(number as u64)
    }

    fn from_usize(number: usize) -> (value: Self) {
        number as u64
    }

    fn to_usize(self) -> (number: usize) {
        self as usize
    }

    fn is_zero(self) -> (zero: bool) {
        self == 0
    }

    fn same(self, other: Self) -> (same: bool) {
        self == other
    }

    fn plus(self, other: Self) -> (sum: Self) {
        self + other
    }

    fn minus(self, other: Self) -> (difference: Self) {
        self - other
    }
}

/// A bit field in an object's header: `num_of_bits` bits, the lowest of them `bit_offset` bits
/// after the start of the object.
#[derive(Clone, Copy, PartialEq, Eq, Structural, Debug)]
pub struct MetadataSpec {
    pub bit_offset: usize,
    pub num_of_bits: usize,
}

impl MetadataSpec {
    /// The field is between one bit and one word long and lies in a single header word.
    pub open spec fn wf(self) -> bool {
        &&& 1 <= self.num_of_bits
        &&& self.shift() + self.num_of_bits <= usize::BITS
    }

    /// The header word that holds the field.
    pub open spec fn word_index(self) -> usize {
        self.bit_offset / (usize::BITS as usize)
    }

    /// Where the field starts inside its word.
    pub open spec fn shift(self) -> usize {
        self.bit_offset % (usize::BITS as usize)
    }

    /// The greatest value of the field.
    pub open spec fn mask(self) -> usize {
        low_mask(self.num_of_bits)
    }

    /// The field's value in `word`.
    pub open spec fn field(self, word: usize) -> usize {
        bit_field(word, self.shift(), self.mask())
    }

    /// `word` with the field set to `value`.
    pub open spec fn with_field(self, word: usize, value: usize) -> usize {
        with_bit_field(word, self.shift(), self.mask(), value)
    }

    /// The two fields share no bit.
    pub open spec fn disjoint(self, other: MetadataSpec) -> bool {
        ||| self.bit_offset + self.num_of_bits <= other.bit_offset
        ||| other.bit_offset + other.num_of_bits <= self.bit_offset
    }

    /// The field of `object` was read by an atomic load that was given `order`.
    pub open spec fn read_with<VM: VMBinding>(
        self,
        vm: VM,
        object: ObjectReference,
        order: Ordering,
    ) -> bool {
        let index = self.word_index();
        vm.word_loaded(object, index, order, vm@.word(object, index))
    }

    /// The word of the field was changed from what it was in `pre` to what it is in `post` by an
    /// atomic exchange that was given the orders `success` and `failure`.
    pub open spec fn written_with<VM: VMBinding>(
        self,
        pre: VM,
        object: ObjectReference,
        success: Ordering,
        failure: Ordering,
        post: VM,
    ) -> bool {
        let index = self.word_index();
        VM::word_exchanged(
            pre,
            object,
            index,
            pre@.word(object, index),
            post@.word(object, index),
            success,
            failure,
            post,
        )
    }

    /// The field of `object` was read by a sequentially consistent load.
    pub open spec fn sequentially_read<VM: VMBinding>(
        self,
        vm: VM,
        object: ObjectReference,
    ) -> bool {
        self.read_with(vm, object, Ordering::SeqCst)
    }

    /// The word of the field was changed by an exchange that is sequentially consistent whether it
    /// succeeds or fails.
    pub open spec fn sequentially_written<VM: VMBinding>(
        self,
        pre: VM,
        object: ObjectReference,
        post: VM,
    ) -> bool {
        self.written_with(pre, object, Ordering::SeqCst, Ordering::SeqCst, post)
    }

    /// The field was set by a sequentially consistent store. A store reports no failure: an
    /// exchange that fails on its account is tried again, and needs no order.
    pub open spec fn sequentially_stored<VM: VMBinding>(
        self,
        pre: VM,
        object: ObjectReference,
        post: VM,
    ) -> bool {
        self.written_with(pre, object, Ordering::SeqCst, Ordering::Relaxed, post)
    }

    /// The field's value in the given word.
    fn extract(&self, word: usize) -> (value: usize)
        requires
            self.wf(),
        ensures
            value == self.field(word),
            value <= self.mask(),
    {
        let bits: usize = word_bits();
        proof {
            lemma_field_bound(word, self.shift(), self.num_of_bits);
        }
        (word >> (self.bit_offset % bits)) & (!0usize >> (bits - self.num_of_bits))
    }

    /// The given word with the field set to `value`.
    fn insert(&self, word: usize, value: usize) -> (result: usize)
        requires
            self.wf(),
            value <= self.mask(),
        ensures
            result == self.with_field(word, value),
    {
        let bits: usize = word_bits();
        let shift: usize = self.bit_offset % bits;
        let mask: usize = !0usize >> (bits - self.num_of_bits);
        (word & !(mask << shift)) | (value << shift)
    }

    /// The header word that holds the field.
    fn word_number(&self) -> (index: usize)
        ensures
            index == self.word_index(),
    {
        self.bit_offset / word_bits()
    }

    /// Reads the field, without ordering it against other accesses.
    pub fn load<VM: VMBinding, T: MetadataValue>(&self, vm: &VM, object: ObjectReference) -> (value:
        T)
        requires
            self.wf(),
            self.mask() <= T::greatest(),
        ensures
            value.value() == vm@.metadata(*self, object),
            value.value() <= self.mask(),
            self.read_with(*vm, object, Ordering::Relaxed),
    {
        self.load_atomic::<VM, T>(vm, object, Ordering::Relaxed)
    }

    /// Atomically reads the field.
    pub fn load_atomic<VM: VMBinding, T: MetadataValue>(
        &self,
        vm: &VM,
        object: ObjectReference,
        order: Ordering,
    ) -> (value: T)
        requires
            self.wf(),
            self.mask() <= T::greatest(),
            is_load_order(order),
        ensures
            value.value() == vm@.metadata(*self, object),
            value.value() <= self.mask(),
            self.read_with(*vm, object, order),
    {
        T::from_usize(self.extract(vm.load_word(object, self.word_number(), order)))
    }

    /// Atomically writes the field.
    pub fn store_atomic<VM: VMBinding, T: MetadataValue>(
        &self,
        vm: &mut VM,
        object: ObjectReference,
        value: T,
        order: Ordering,
    )
        requires
            self.wf(),
            0 <= value.value() <= self.mask(),
        ensures
            final(vm)@ == old(vm)@.with_metadata(*self, object, value.value()),
            self.written_with(*old(vm), object, order, Ordering::Relaxed, *final(vm)),
    {
        let index: usize = self.word_number();
        let mut word: usize = vm.load_word(object, index, Ordering::Relaxed);
        loop
            invariant
                self.wf(),
                0 <= value.value() <= self.mask(),
                index == self.word_index(),
                *vm == *old(vm),
                word == vm@.word(object, index),
            decreases 0int,
        {
            let updated: usize = self.insert(word, value.to_usize());
            match vm.compare_exchange_word(object, index, word, updated, order, Ordering::Relaxed) {
                Ok(_) => {
                    return ;
                },
                Err(current) => {
                    word = current;
                },
            }
        }
    }

    /// Atomically sets the field to `new` if it holds `expected`, and returns what it held: in
    /// `Ok` if it was set.
    pub fn compare_exchange_metadata<VM: VMBinding, T: MetadataValue>(
        &self,
        vm: &mut VM,
        object: ObjectReference,
        expected: T,
        new: T,
        success: Ordering,
        failure: Ordering,
    ) -> (result: Result<T, T>)
        requires
            self.wf(),
            self.mask() <= T::greatest(),
            0 <= new.value() <= self.mask(),
            is_load_order(failure),
        ensures
            old(vm)@.metadata(*self, object) == expected.value() ==> {
                &&& result matches Ok(previous) && previous.value() == expected.value()
                &&& final(vm)@ == old(vm)@.with_metadata(*self, object, new.value())
                &&& self.written_with(*old(vm), object, success, failure, *final(vm))
            },
            old(vm)@.metadata(*self, object) != expected.value() ==> {
                &&& result matches Err(previous) && previous.value() == old(vm)@.metadata(
                    *self,
                    object,
                )
                &&& *final(vm) == *old(vm)
            },
            self.read_with(*old(vm), object, failure),
    {
        let index: usize = self.word_number();
        let word: usize = vm.load_word(object, index, failure);
        let current: T = T::from_usize(self.extract(word));
        if !current.same(expected) {
            return Err(current);
        }
        let updated: usize = self.insert(word, new.to_usize());
        match vm.compare_exchange_word(object, index, word, updated, success, failure) {
            Ok(_) => Ok(current),
            Err(other) => Err(T::from_usize(self.extract(other))),
        }
    }

    /// Atomically replaces the field's value by what `update` makes of it, unless `update` declines
    /// with `None`. Returns the value before: in `Ok` if it was replaced, in `Err` if not.
    pub fn fetch_update_metadata<VM: VMBinding, T: MetadataValue, F: Fn(T) -> Option<T>>(
        &self,
        vm: &mut VM,
        object: ObjectReference,
        set_order: Ordering,
        fetch_order: Ordering,
        update: F,
    ) -> (result: Result<T, T>)
        requires
            self.wf(),
            self.mask() <= T::greatest(),
            is_load_order(fetch_order),
            forall|value: T|
                0 <= value.value() <= self.mask() ==> #[trigger] update.requires((value,)),
            forall|value: T, new: T|
                0 <= value.value() <= self.mask() && #[trigger] update.ensures((value,), Some(new))
                    ==> 0 <= new.value() <= self.mask(),
        ensures
            match result {
                Ok(previous) => {
                    &&& previous.value() == old(vm)@.metadata(*self, object)
                    &&& exists|new: T| #[trigger]
                        update.ensures((previous,), Some(new)) && final(vm)@
                            == old(vm)@.with_metadata(*self, object, new.value())
                    &&& self.written_with(*old(vm), object, set_order, fetch_order, *final(vm))
                },
                Err(previous) => {
                    &&& previous.value() == old(vm)@.metadata(*self, object)
                    &&& update.ensures((previous,), None)
                    &&& *final(vm) == *old(vm)
                },
            },
            self.read_with(*old(vm), object, fetch_order),
    {
        let index: usize = self.word_number();
        let mut word: usize = vm.load_word(object, index, fetch_order);
        loop
            invariant
                self.wf(),
                self.mask() <= T::greatest(),
                is_load_order(fetch_order),
                self.read_with(*old(vm), object, fetch_order),
                forall|value: T|
                    0 <= value.value() <= self.mask() ==> #[trigger] update.requires((value,)),
                forall|value: T, new: T|
                    0 <= value.value() <= self.mask() && #[trigger] update.ensures(
                        (value,),
                        Some(new),
                    ) ==> 0 <= new.value() <= self.mask(),
                index == self.word_index(),
                *vm == *old(vm),
                word == vm@.word(object, index),
            decreases 0int,
        {
            let previous: T = T::from_usize(self.extract(word));
            match update(previous) {
                None => {
                    return Err(previous);
                },
                Some(new) => {
                    let updated: usize = self.insert(word, new.to_usize());
                    match vm.compare_exchange_word(
                        object,
                        index,
                        word,
                        updated,
                        set_order,
                        fetch_order,
                    ) {
                        Ok(_) => {
                            assert(update.ensures((previous,), Some(new)));
                            assert(vm@ == old(vm)@.with_metadata(*self, object, new.value()));
                            assert(self.written_with(
                                *old(vm),
                                object,
                                set_order,
                                fetch_order,
                                *vm,
                            ));
                            return Ok(previous);
                        },
                        Err(current) => {
                            word = current;
                        },
                    }
                },
            }
        }
    }
}

/// Where a runtime keeps the unlog bit of an object: one while the object has not been logged.
#[derive(Clone, Copy, PartialEq, Eq, Structural, Debug)]
pub struct VMGlobalLogBitSpec {
    pub spec: MetadataSpec,
}

impl VMGlobalLogBitSpec {
    /// The field is one bit long.
    pub open spec fn wf(self) -> bool {
        self.spec.wf() && self.spec.num_of_bits == 1
    }
}

/// Writing a metadata field is read back from that field and from no other: not from a field of
/// another object, and not from a field that shares no bit with it. Slots and fields stay as they
/// are.
pub proof fn law_metadata_write(
    memory: Memory,
    spec: MetadataSpec,
    object: ObjectReference,
    value: int,
    other_spec: MetadataSpec,
    other: ObjectReference,
)
    requires
        spec.wf(),
        other_spec.wf(),
        0 <= value <= spec.mask(),
    ensures
        memory.metadata(spec, object) <= spec.mask(),
        memory.with_metadata(spec, object, value).metadata(spec, object) == value,
        other != object || spec.disjoint(other_spec) ==> memory.with_metadata(
            spec,
            object,
            value,
        ).metadata(other_spec, other) == memory.metadata(other_spec, other),
        memory.with_metadata(spec, object, value).slots == memory.slots,
        memory.with_metadata(spec, object, value).fields == memory.fields,
        memory.with_metadata(spec, object, value).slot_enqueuing == memory.slot_enqueuing,
{
    let word = memory.word(object, spec.word_index());
    let written = value as usize;
    assert(written == value);
    lemma_field_bound(word, spec.shift(), spec.num_of_bits);
    lemma_field_read_back(word, spec.shift(), spec.num_of_bits, written);
    if spec.disjoint(other_spec) && spec.word_index() == other_spec.word_index() {
        let bits = usize::BITS as int;
        lemma_fundamental_div_mod(spec.bit_offset as int, bits);
        lemma_fundamental_div_mod(other_spec.bit_offset as int, bits);
        lemma_field_disjoint(
            word,
            spec.shift(),
            spec.num_of_bits,
            written,
            other_spec.shift(),
            other_spec.num_of_bits,
        );
    }
}

/// Of two writes of the same metadata field the second counts, and writing the value that the field
/// has changes nothing.
pub proof fn law_metadata_overwrite(
    memory: Memory,
    spec: MetadataSpec,
    object: ObjectReference,
    first: int,
    second: int,
)
    requires
        spec.wf(),
        0 <= first <= spec.mask(),
        0 <= second <= spec.mask(),
    ensures
        memory.with_metadata(spec, object, first).with_metadata(spec, object, second)
            == memory.with_metadata(spec, object, second),
        memory.with_metadata(spec, object, memory.metadata(spec, object) as int) == memory,
{
    let word = memory.word(object, spec.word_index());
    lemma_field_overwrite(
        word,
        spec.shift(),
        spec.num_of_bits,
        first as usize,
        second as usize,
    );
    let present = memory.metadata(spec, object) as int;
    assert(memory.with_metadata(spec, object, first).with_metadata(spec, object, second)
        =~= memory.with_metadata(spec, object, second));
    assert(memory.with_metadata(spec, object, present) =~= memory);
}

/// Writing a metadata field and then writing its former value back restores the memory.
pub proof fn law_metadata_restore(
    memory: Memory,
    spec: MetadataSpec,
    object: ObjectReference,
    value: int,
)
    requires
        spec.wf(),
        0 <= value <= spec.mask(),
    ensures
        memory.with_metadata(spec, object, value).with_metadata(
            spec,
            object,
            memory.metadata(spec, object) as int,
        ) == memory,
{
    let former = memory.metadata(spec, object) as int;
    lemma_field_bound(memory.word(object, spec.word_index()), spec.shift(), spec.num_of_bits);
    law_metadata_overwrite(memory, spec, object, value, former);
}

/// Bit `k` of the word.
pub open spec fn bit_of(word: usize, k: usize) -> bool {
    (word >> k) & 1 == 1
}

proof fn lemma_bits_of_field(
    word: usize,
    shift: usize,
    bits: usize,
    value: usize,
    k: usize,
    p: usize,
)
    by (bit_vector)
    requires
        1 <= bits,
        shift + bits <= usize::BITS,
        value <= low_mask(bits),
        k < usize::BITS,
        p < usize::BITS,
    ensures
        k < bits ==> bit_of(bit_field(word, shift, low_mask(bits)), k) == bit_of(
            word,
            (shift + k) as usize,
        ),
        k >= bits ==> !bit_of(bit_field(word, shift, low_mask(bits)), k),
        shift <= p && p < shift + bits ==> bit_of(
            with_bit_field(word, shift, low_mask(bits), value),
            p,
        ) == bit_of(value, (p - shift) as usize),
        p < shift || p >= shift + bits ==> bit_of(
            with_bit_field(word, shift, low_mask(bits), value),
            p,
        ) == bit_of(word, p),
{
}

/// A metadata field is made of the header bits from its offset on, lowest first, and of no others.
/// Header bit `n` of an object is bit `n` modulo the length of a word of the word that `n` falls
/// in. Writing the field changes those bits and no others.
pub proof fn law_fields_are_header_bits(
    memory: Memory,
    spec: MetadataSpec,
    object: ObjectReference,
    value: usize,
    k: usize,
    other: ObjectReference,
    index: usize,
    p: usize,
)
    requires
        1 <= spec.num_of_bits,
        spec.bit_offset % (usize::BITS as usize) + spec.num_of_bits <= usize::BITS,
        value <= low_mask(spec.num_of_bits),
        k < usize::BITS,
        p < usize::BITS,
    ensures
        spec.wf(),
        k < spec.num_of_bits ==> bit_of(memory.metadata(spec, object), k) == bit_of(
            memory.word(object, spec.bit_offset / (usize::BITS as usize)),
            (spec.bit_offset % (usize::BITS as usize) + k) as usize,
        ),
        k >= spec.num_of_bits ==> !bit_of(memory.metadata(spec, object), k),
        ({
            let start = spec.bit_offset % (usize::BITS as usize);
            let written = memory.with_metadata(spec, object, value as int).word(other, index);
            if other == object && index == spec.bit_offset / (usize::BITS as usize) && start <= p
                < start + spec.num_of_bits {
                bit_of(written, p) == bit_of(value, (p - start) as usize)
            } else {
                bit_of(written, p) == bit_of(memory.word(other, index), p)
            }
        }),
{
    let word = memory.word(object, spec.word_index());
    lemma_bits_of_field(word, spec.shift(), spec.num_of_bits, value, k, p);
}

/// An access is called sequential when the runtime's atomic operation was given that order, for its
/// success and, where it can fail, for its failure. An access with some order was given that order.
pub proof fn law_accesses_have_the_order_they_were_given<VM: VMBinding>(
    spec: MetadataSpec,
    pre: VM,
    object: ObjectReference,
    success: Ordering,
    failure: Ordering,
    post: VM,
)
    ensures
        ({
            let index = spec.word_index();
            let word = pre@.word(object, index);
            let written = post@.word(object, index);
            &&& spec.read_with(pre, object, success) == pre.word_loaded(
                object,
                index,
                success,
                word,
            )
            &&& spec.sequentially_read(pre, object) == pre.word_loaded(
                object,
                index,
                Ordering::SeqCst,
                word,
            )
            &&& spec.written_with(pre, object, success, failure, post) == VM::word_exchanged(
                pre,
                object,
                index,
                word,
                written,
                success,
                failure,
                post,
            )
            &&& spec.sequentially_written(pre, object, post) == VM::word_exchanged(
                pre,
                object,
                index,
                word,
                written,
                Ordering::SeqCst,
                Ordering::SeqCst,
                post,
            )
            &&& spec.sequentially_stored(pre, object, post) == VM::word_exchanged(
                pre,
                object,
                index,
                word,
                written,
                Ordering::SeqCst,
                Ordering::Relaxed,
                post,
            )
        }),
{
}

}
