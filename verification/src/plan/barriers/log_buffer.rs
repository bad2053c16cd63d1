//! Buffers of logged objects.
//!
//! A buffer is a flat sequence of addresses in which every logged object is followed by the objects
//! that it referred to when it was logged.

use vstd::prelude::*;
use vstd::slice::slice_subrange;

use crate::util::address::{group_object_reference, Address, ObjectReference};

verus! {

/// The number of entries at which a log buffer counts as full: the size of a work packet.
pub const EDGES_WORK_BUFFER_SIZE: usize = 4096;

/// The bit that marks an entry as the start of a logged object.
pub const OBJECT_START_TAG: usize = 1;

/// The entry starts a logged object.
pub open spec fn is_start(entry: Address) -> bool {
    entry.0 & OBJECT_START_TAG != 0
}

/// The entry without its tag.
pub open spec fn untagged(entry: Address) -> Address {
    Address(entry.0 & !OBJECT_START_TAG)
}

/// The entry stands for an object.
pub open spec fn is_decodable(entry: Address) -> bool {
    ObjectReference::valid_address(untagged(entry))
}

/// The object that the entry stands for.
pub open spec fn decoded(entry: Address) -> ObjectReference {
    ObjectReference::at(untagged(entry))
}

/// The objects that the entries stand for.
pub open spec fn decoded_all(entries: Seq<Address>) -> Seq<ObjectReference> {
    entries.map_values(|entry: Address| decoded(entry))
}

/// The entry that starts `object`.
pub open spec fn start_entry(object: ObjectReference) -> Address {
    Address(object.address().0 | OBJECT_START_TAG)
}

/// The entries that stand for the given children.
pub open spec fn child_entries(children: Seq<ObjectReference>) -> Seq<Address> {
    children.map_values(|child: ObjectReference| child.address())
}

/// A logged object and the children it had when it was logged.
#[verifier::ext_equal]
pub struct Group {
    pub object: ObjectReference,
    pub children: Seq<ObjectReference>,
}

impl Group {
    /// The object and its children are proper object references.
    pub open spec fn wf(self) -> bool {
        &&& self.object.wf()
        &&& forall|i: int| 0 <= i < self.children.len() ==> (#[trigger] self.children[i]).wf()
    }

    /// The entries that log this group.
    pub open spec fn entries(self) -> Seq<Address> {
        seq![start_entry(self.object)] + child_entries(self.children)
    }
}

/// The entries that log the given groups, one after the other.
pub open spec fn group_entries(groups: Seq<Group>) -> Seq<Address>
    decreases groups.len(),
{
    if groups.len() == 0 {
        Seq::empty()
    } else {
        groups[0].entries() + group_entries(groups.skip(1))
    }
}

/// How many entries come before the first object start.
pub open spec fn leading_children(entries: Seq<Address>) -> nat
    decreases entries.len(),
{
    if entries.len() == 0 || is_start(entries[0]) {
        0
    } else {
        1 + leading_children(entries.skip(1))
    }
}

/// The groups that a sequence of entries logs, up to the end or to an entry that should start a
/// group and does not.
pub open spec fn logged_groups(entries: Seq<Address>) -> Seq<Group>
    decreases entries.len(),
{
    if entries.len() == 0 || !is_start(entries[0]) {
        Seq::empty()
    } else {
        proof {
            lemma_leading_children(entries.skip(1));
        }
        let n = leading_children(entries.skip(1)) as int;
        let first = Group {
            object: decoded(entries[0]),
            children: decoded_all(entries.subrange(1, 1 + n)),
        };
        seq![first] + logged_groups(entries.skip(1 + n))
    }
}

/// Every entry stands for an object.
pub open spec fn all_decodable(entries: Seq<Address>) -> bool {
    forall|i: int| 0 <= i < entries.len() ==> is_decodable(#[trigger] entries[i])
}

/// The entries are made of whole groups: every entry stands for an object, and the first one, if
/// there is one, starts a group.
pub open spec fn well_grouped(entries: Seq<Address>) -> bool {
    &&& all_decodable(entries)
    &&& entries.len() > 0 ==> is_start(entries[0])
}

/// What the length of the leading run of children means.
pub proof fn lemma_leading_children(entries: Seq<Address>)
    ensures
        leading_children(entries) <= entries.len(),
        forall|i: int|
            0 <= i < leading_children(entries) ==> !is_start(#[trigger] entries[i]),
        leading_children(entries) < entries.len() ==> is_start(
            entries[leading_children(entries) as int],
        ),
    decreases entries.len(),
{
    if entries.len() > 0 && !is_start(entries[0]) {
        let rest = entries.skip(1);
        lemma_leading_children(rest);
        assert forall|i: int| 0 <= i < leading_children(entries) implies !is_start(
            #[trigger] entries[i],
        ) by {
            if i > 0 {
                assert(entries[i] == rest[i - 1]);
            }
        }
    }
}

/// A run of `n` children up to an object start or the end is the leading run of children.
pub proof fn lemma_leading_children_is(entries: Seq<Address>, n: int)
    requires
        0 <= n <= entries.len(),
        forall|i: int| 0 <= i < n ==> !is_start(#[trigger] entries[i]),
        n < entries.len() ==> is_start(entries[n]),
    ensures
        leading_children(entries) == n,
{
    lemma_leading_children(entries);
    let m = leading_children(entries) as int;
    if m < n {
        assert(!is_start(entries[m]));
    } else if n < m {
        assert(!is_start(entries[n]));
    }
}

/// An object start is told from a child by its tag, and both decode to the object that was logged.
pub proof fn law_entries_decode(object: ObjectReference)
    requires
        object.wf(),
    ensures
        is_start(start_entry(object)),
        is_decodable(start_entry(object)),
        decoded(start_entry(object)) == object,
        !is_start(object.address()),
        is_decodable(object.address()),
        decoded(object.address()) == object,
{
    broadcast use group_object_reference;

    let raw = object.address().0;
    assert(raw as int % 4 == 0) by {
        if usize::BITS == 32 {
            assert(raw as int % (32int / 8) == 0);
        } else {
            assert(usize::BITS == 64);
            assert(raw as int % (64int / 8) == 0);
        }
    }
    assert(raw & 1 == 0 && (raw | 1) & 1 == 1 && (raw | 1) & !1usize == raw && raw & !1usize
        == raw) by (bit_vector)
        requires
            raw % 4 == 0,
    ;
}

/// The mutator-local buffer of logged objects.
///
/// The buffer stores raw addresses, so that an object entry can be encoded as `object | 1`. Object
/// references are word-aligned, which makes the low bit available for this tag. Child entries are
/// stored untagged.
pub struct LogBuffer {
    entries: Vec<Address>,
}

impl View for LogBuffer {
    type V = Seq<Address>;

    closed spec fn view(&self) -> Seq<Address> {
        self.entries@
    }
}

impl LogBuffer {
    /// Create an empty log buffer.
    pub fn new() -> (buffer: Self)
        ensures
            buffer@ == Seq::<Address>::empty(),
    {
        LogBuffer { entries: Vec::new() }
    }

    /// Return true if the buffer has no entries.
    pub fn is_empty(&self) -> (empty: bool)
        ensures
            empty == (self@.len() == 0),
    {
        self.entries.is_empty()
    }

    /// Return the number of encoded entries in the buffer.
    pub fn len(&self) -> (n: usize)
        ensures
            n == self@.len(),
    {
        self.entries.len()
    }

    /// Return true if the buffer has reached the default work-packet capacity.
    pub fn is_full(&self) -> (full: bool)
        ensures
            full == (self@.len() >= EDGES_WORK_BUFFER_SIZE),
    {
        self.entries.len() >= EDGES_WORK_BUFFER_SIZE
    }

    /// Push an object-start entry, encoded as `object | 1`.
    pub fn push_object(&mut self, object: ObjectReference)
        ensures
            final(self)@ == old(self)@.push(start_entry(object)),
            well_grouped(old(self)@) ==> well_grouped(final(self)@),
    {
        self.reserve_if_empty();
        let entry: Address = Self::encode_object_start(object);
        self.entries.push(entry);
    }

    /// Push an untagged child reference entry.
    pub fn push_child(&mut self, object: ObjectReference)
        ensures
            final(self)@ == old(self)@.push(object.address()),
            well_grouped(old(self)@) && old(self)@.len() > 0 ==> well_grouped(final(self)@),
    {
        self.reserve_if_empty();
        let address: Address = object.to_raw_address();
        proof {
            law_entries_decode(object);
        }
        self.entries.push(address);
    }

    /// Return the encoded entries without draining the buffer.
    pub fn as_slice(&self) -> (entries: &[Address])
        ensures
            entries@ == self@,
    {
        self.entries.as_slice()
    }

    /// Drain the buffer and return the encoded entries.
    pub fn take(&mut self) -> (entries: Vec<Address>)
        ensures
            entries@ == old(self)@,
            final(self)@ == Seq::<Address>::empty(),
    {
        let mut entries: Vec<Address> = Vec::new();
        std::mem::swap(&mut entries, &mut self.entries);
        entries
    }

    /// Iterate over logged object groups in this buffer.
    pub fn iter_object_groups(&self) -> (groups: LogBufferObjectIter<'_>)
        ensures
            groups.remaining() == self@,
    {
        Self::iter_object_groups_in(self.entries.as_slice())
    }

    /// Iterate over logged object groups in an encoded entry slice.
    pub fn iter_object_groups_in(entries: &[Address]) -> (groups: LogBufferObjectIter<'_>)
        ensures
            groups.remaining() == entries@,
    {
        let groups = LogBufferObjectIter { entries, cursor: 0 };
        assert(groups.remaining() =~= entries@);
        groups
    }

    /// Return true if this encoded entry starts a new logged object.
    pub fn is_object_start(entry: Address) -> (start: bool)
        ensures
            start == is_start(entry),
    {
        entry.as_usize() & OBJECT_START_TAG != 0
    }

    /// Decode either an object-start entry or a child entry as an object reference.
    pub fn decode_object(entry: Address) -> (object: ObjectReference)
        requires
            is_decodable(entry),
        ensures
            object == decoded(entry),
    {
        let raw: usize = entry.as_usize() & !OBJECT_START_TAG;
        ObjectReference::from_raw_address(Address::from_usize(raw)).unwrap()
    }

    /// The entry that starts `object`.
    fn encode_object_start(object: ObjectReference) -> (entry: Address)
        ensures
            entry == start_entry(object),
            is_start(entry),
            is_decodable(entry),
    {
        let address: Address = object.to_raw_address();
        proof {
            law_entries_decode(object);
        }
        Address::from_usize(address.as_usize() | OBJECT_START_TAG)
    }

    /// Makes room for a full buffer before the first entry is pushed.
    fn reserve_if_empty(&mut self)
        ensures
            final(self)@ == old(self)@,
    {
        if self.entries.is_empty() {
            self.entries.reserve(EDGES_WORK_BUFFER_SIZE);
        }
    }
}

impl Default for LogBuffer {
    fn default() -> (buffer: Self)
        ensures
            buffer@ == Seq::<Address>::empty(),
    {
        Self::new()
    }
}

/// A decoded object group in a [`LogBuffer`].
pub struct LoggedObject<'a> {
    /// The tagged object-start entry decoded as an object reference.
    pub object: ObjectReference,
    /// The encoded child entries that follow it.
    pub children: &'a [Address],
}

impl LoggedObject<'_> {
    /// The encoded child entries of this object.
    pub open spec fn child_entries(self) -> Seq<Address> {
        self.children@
    }

    /// The group that was logged.
    pub open spec fn group(self) -> Group {
        Group { object: self.object, children: decoded_all(self.child_entries()) }
    }

    /// The logged children of this object.
    pub fn children(&self) -> (children: Vec<ObjectReference>)
        requires
            all_decodable(self.child_entries()),
        ensures
            children@ == self.group().children,
    {
        let mut children: Vec<ObjectReference> = Vec::new();
        let mut i: usize = 0;
        while i < self.children.len()
            invariant
                i <= self.children@.len(),
                all_decodable(self.children@),
                children@ == decoded_all(self.children@.take(i as int)),
            decreases self.children@.len() - i,
        {
            children.push(LogBuffer::decode_object(self.children[i]));
            i = i + 1;
            assert(children@ =~= decoded_all(self.children@.take(i as int)));
        }
        assert(self.children@.take(i as int) =~= self.children@);
        children
    }

    /// Return the encoded, untagged child entries for this object.
    pub fn encoded_children(&self) -> (entries: &[Address])
        ensures
            entries@ == self.child_entries(),
    {
        self.children
    }
}

/// Iterator over object-start entries and their following child entries.
pub struct LogBufferObjectIter<'a> {
    entries: &'a [Address],
    cursor: usize,
}

impl<'a> LogBufferObjectIter<'a> {
    /// The cursor is inside the slice or at its end.
    #[verifier::type_invariant]
    pub closed spec fn wf(self) -> bool {
        self.cursor <= self.entries@.len()
    }

    /// The entries that are still to be visited.
    pub closed spec fn remaining(self) -> Seq<Address> {
        self.entries@.skip(self.cursor as int)
    }

    /// The next logged object with its children, or `None` at the end. An entry that should start a
    /// group and does not ends the iteration.
    pub fn next(&mut self) -> (logged: Option<LoggedObject<'a>>)
        requires
            old(self).remaining().len() > 0 && is_start(old(self).remaining()[0]) ==> is_decodable(
                old(self).remaining()[0],
            ),
        ensures
            match logged {
                Some(object) => {
                    let entries = old(self).remaining();
                    let n = leading_children(entries.skip(1)) as int;
                    &&& entries.len() > 0 && is_start(entries[0])
                    &&& object.object == decoded(entries[0])
                    &&& object.child_entries() == entries.subrange(1, 1 + n)
                    &&& final(self).remaining() == entries.skip(1 + n)
                    &&& final(self).remaining().len() < entries.len()
                    &&& all_decodable(entries) ==> all_decodable(object.child_entries())
                        && all_decodable(final(self).remaining())
                    &&& logged_groups(entries) == seq![object.group()] + logged_groups(
                        final(self).remaining(),
                    )
                },
                None => {
                    let entries = old(self).remaining();
                    &&& entries.len() == 0 || !is_start(entries[0])
                    &&& logged_groups(entries) == Seq::<Group>::empty()
                    &&& final(self).remaining().len() == 0
                },
            },
    {
        proof {
            use_type_invariant(&*self);
        }
        let ghost entries = self.remaining();
        let ghost start = self.cursor as int;
        if self.cursor < self.entries.len() && !LogBuffer::is_object_start(
            self.entries[self.cursor],
        ) {
            self.cursor = self.entries.len();
            return None;
        }
        if self.cursor == self.entries.len() {
            return None;
        }
        let object: ObjectReference = LogBuffer::decode_object(self.entries[self.cursor]);
        let children_start: usize = self.cursor + 1;
        let mut next_object: usize = children_start;
        while next_object < self.entries.len() && !LogBuffer::is_object_start(
            self.entries[next_object],
        )
            invariant
                children_start <= next_object <= self.entries@.len(),
                forall|i: int|
                    children_start <= i < next_object ==> !is_start(#[trigger] self.entries@[i]),
            ensures
                children_start <= next_object <= self.entries@.len(),
                forall|i: int|
                    children_start <= i < next_object ==> !is_start(#[trigger] self.entries@[i]),
                next_object < self.entries@.len() ==> is_start(self.entries@[next_object as int]),
            decreases self.entries@.len() - next_object,
        {
            next_object += 1;
        }
        self.cursor = next_object;
        proof {
            let rest = entries.skip(1);
            let n = next_object - children_start;
            assert forall|i: int| 0 <= i < rest.len() implies rest[i] == self.entries@[children_start
                + i] by {}
            lemma_leading_children_is(rest, n);
            assert(entries.skip(1 + n) =~= self.entries@.skip(next_object as int));
            assert(entries.subrange(1, 1 + n) =~= self.entries@.subrange(
                children_start as int,
                next_object as int,
            ));
        }
        Some(
            LoggedObject {
                object,
                children: slice_subrange(self.entries, children_start, next_object),
            },
        )
    }
}

/// A destination for combining per-mutator log buffers.
pub struct GlobalLogBuffer {
    entries: Vec<Address>,
}

impl View for GlobalLogBuffer {
    type V = Seq<Address>;

    closed spec fn view(&self) -> Seq<Address> {
        self.entries@
    }
}

impl GlobalLogBuffer {
    /// Create an empty global log buffer.
    pub fn new() -> (buffer: Self)
        ensures
            buffer@ == Seq::<Address>::empty(),
    {
        GlobalLogBuffer { entries: Vec::new() }
    }

    /// Append a drained mutator-local log buffer.
    pub fn combine(&mut self, entries: Vec<Address>)
        ensures
            final(self)@ == old(self)@ + entries@,
    {
        if entries.is_empty() {
            assert(self@ + entries@ =~= self@);
            return ;
        }
        let mut entries = entries;
        self.entries.append(&mut entries);
    }

    /// Drain all globally combined entries.
    pub fn take(&mut self) -> (entries: Vec<Address>)
        ensures
            entries@ == old(self)@,
            final(self)@ == Seq::<Address>::empty(),
    {
        let mut entries: Vec<Address> = Vec::new();
        std::mem::swap(&mut entries, &mut self.entries);
        entries
    }

    /// Return true if no entries are currently combined globally.
    pub fn is_empty(&self) -> (empty: bool)
        ensures
            empty == (self@.len() == 0),
    {
        self.entries.is_empty()
    }

    /// Return the number of globally combined entries.
    pub fn len(&self) -> (n: usize)
        ensures
            n == self@.len(),
    {
        self.entries.len()
    }
}

impl Default for GlobalLogBuffer {
    fn default() -> (buffer: Self)
        ensures
            buffer@ == Seq::<Address>::empty(),
    {
        Self::new()
    }
}

/// Combining two buffers that are made of whole groups combines their groups: neither buffer loses
/// a group, and no child moves from one group to another.
pub proof fn law_combining_keeps_groups(first: Seq<Address>, second: Seq<Address>)
    requires
        well_grouped(first),
        well_grouped(second),
    ensures
        well_grouped(first + second),
        logged_groups(first + second) == logged_groups(first) + logged_groups(second),
    decreases first.len(),
{
    if first.len() == 0 {
        assert(first + second =~= second);
        assert(logged_groups(first) + logged_groups(second) =~= logged_groups(second));
    } else {
        let rest = first.skip(1);
        let n = leading_children(rest) as int;
        lemma_leading_children(rest);
        assert((first + second).skip(1) =~= rest + second);
        assert forall|i: int| 0 <= i < n implies !is_start(#[trigger] (rest + second)[i]) by {
            assert((rest + second)[i] == rest[i]);
        }
        lemma_leading_children_is(rest + second, n);
        let tail = first.skip(1 + n);
        assert((first + second).skip(1 + n) =~= tail + second);
        assert((first + second).subrange(1, 1 + n) =~= first.subrange(1, 1 + n));
        if tail.len() > 0 {
            assert(tail[0] == rest[n]);
        }
        assert forall|i: int| 0 <= i < tail.len() implies is_decodable(#[trigger] tail[i]) by {
            assert(tail[i] == first[1 + n + i]);
        }
        law_combining_keeps_groups(tail, second);
        let head = Group {
            object: decoded(first[0]),
            children: decoded_all(first.subrange(1, 1 + n)),
        };
        assert(logged_groups(first + second) == seq![head] + logged_groups(tail + second));
        assert(seq![head] + (logged_groups(tail) + logged_groups(second)) =~= (seq![head]
            + logged_groups(tail)) + logged_groups(second));
        assert forall|i: int| 0 <= i < (first + second).len() implies is_decodable(
            #[trigger] (first + second)[i],
        ) by {
            if i >= first.len() {
                assert((first + second)[i] == second[i - first.len()]);
            }
        }
    }
}

/// The entries of a single group decode to that group.
pub proof fn lemma_group_entries(group: Group)
    requires
        group.wf(),
    ensures
        well_grouped(group.entries()),
        logged_groups(group.entries()) == seq![group],
{
    let entries = group.entries();
    let children = child_entries(group.children);
    law_entries_decode(group.object);
    assert forall|i: int| 0 <= i < children.len() implies !is_start(#[trigger] children[i])
        && is_decodable(children[i]) && decoded(children[i]) == group.children[i] by {
        assert(group.children[i].wf());
        law_entries_decode(group.children[i]);
    }
    assert(entries.skip(1) =~= children);
    lemma_leading_children_is(children, children.len() as int);
    assert forall|i: int| 0 <= i < entries.len() implies is_decodable(#[trigger] entries[i]) by {
        if i > 0 {
            assert(entries[i] == children[i - 1]);
        }
    }
    let n = children.len() as int;
    assert(entries.subrange(1, 1 + n) =~= children);
    assert(decoded_all(children) =~= group.children);
    assert(logged_groups(entries.skip(1 + n)) =~= Seq::<Group>::empty());
    assert(logged_groups(entries) =~= seq![group]);
}

/// What was logged is what is iterated over: the entries of any groups decode to those groups, in
/// the same order and with the same children.
pub proof fn law_logged_groups_round_trip(groups: Seq<Group>)
    requires
        forall|i: int| 0 <= i < groups.len() ==> (#[trigger] groups[i]).wf(),
    ensures
        well_grouped(group_entries(groups)),
        logged_groups(group_entries(groups)) == groups,
    decreases groups.len(),
{
    if groups.len() > 0 {
        let rest = groups.skip(1);
        assert forall|i: int| 0 <= i < rest.len() implies (#[trigger] rest[i]).wf() by {
            assert(rest[i] == groups[i + 1]);
        }
        law_logged_groups_round_trip(rest);
        lemma_group_entries(groups[0]);
        law_combining_keeps_groups(groups[0].entries(), group_entries(rest));
        assert(seq![groups[0]] + rest =~= groups);
    } else {
        assert(logged_groups(group_entries(groups)) =~= groups);
    }
}

/// Decoding loses nothing: entries that are made of whole groups are the entries of the groups that
/// they decode to. So what was logged can be written down again, entry by entry.
pub proof fn law_entries_round_trip(entries: Seq<Address>)
    requires
        well_grouped(entries),
    ensures
        group_entries(logged_groups(entries)) == entries,
    decreases entries.len(),
{
    if entries.len() > 0 {
        let rest = entries.skip(1);
        let n = leading_children(rest) as int;
        lemma_leading_children(rest);
        let tail = entries.skip(1 + n);
        let raw_children = entries.subrange(1, 1 + n);
        let first = Group { object: decoded(entries[0]), children: decoded_all(raw_children) };
        if tail.len() > 0 {
            assert(tail[0] == rest[n]);
        }
        assert forall|i: int| 0 <= i < tail.len() implies is_decodable(#[trigger] tail[i]) by {
            assert(tail[i] == entries[1 + n + i]);
        }
        law_entries_round_trip(tail);
        lemma_tagged(entries[0]);
        assert forall|i: int| 0 <= i < n implies #[trigger] child_entries(first.children)[i]
            == raw_children[i] by {
            assert(raw_children[i] == rest[i]);
            lemma_untagged(raw_children[i]);
        }
        assert(child_entries(first.children) =~= raw_children);
        assert(logged_groups(entries) == seq![first] + logged_groups(tail));
        assert(logged_groups(entries).skip(1) =~= logged_groups(tail));
        assert(first.entries() + tail =~= entries);
    }
}

/// The entry of the object that an object start stands for is that object start.
proof fn lemma_tagged(entry: Address)
    requires
        is_start(entry),
    ensures
        start_entry(decoded(entry)) == entry,
{
    broadcast use group_object_reference;

    let raw = entry.0;
    assert((raw & !1usize) | 1 == raw) by (bit_vector)
        requires
            raw & 1 != 0,
    ;
}

/// The address of the object that a child entry stands for is that entry.
proof fn lemma_untagged(entry: Address)
    requires
        !is_start(entry),
    ensures
        decoded(entry).address() == entry,
{
    broadcast use group_object_reference;

    let raw = entry.0;
    assert(raw & !1usize == raw) by (bit_vector)
        requires
            raw & 1 == 0,
    ;
}

}
