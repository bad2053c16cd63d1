//! Addresses, object references, and sets of object references.

use std::collections::HashSet;
use vstd::prelude::*;
use vstd::set_lib::*;

verus! {

/// A raw machine address.
#[derive(Clone, Copy, PartialEq, Eq, Structural, Debug, Hash)]
pub struct Address(pub usize);

impl Address {
    /// The address with the given numeric value.
    pub fn from_usize(raw: usize) -> (address: Address)
        ensures
            address == Address(raw),
    {
        Address(raw)
    }

    /// The numeric value of this address.
    pub fn as_usize(self) -> (raw: usize)
        ensures
            raw == self.0,
    {
        self.0
    }

    /// Whether the address is a multiple of the machine's word size.
    pub open spec fn word_aligned(self) -> bool {
        self.0 as int % (usize::BITS as int / 8) == 0
    }
}

/// A reference to an object: the address of its first header word, never null and always
/// word-aligned.
#[derive(Clone, Copy, PartialEq, Eq, Structural, Debug, Hash)]
pub struct ObjectReference {
    address: Address,
}

impl ObjectReference {
    /// What every object reference satisfies.
    #[verifier::type_invariant]
    pub closed spec fn wf(self) -> bool {
        Self::valid_address(self.address)
    }

    /// The addresses at which an object may start.
    pub open spec fn valid_address(address: Address) -> bool {
        address.0 != 0 && address.word_aligned()
    }

    /// The address of the object.
    pub closed spec fn address(self) -> Address {
        self.address
    }

    /// The reference to the object at `address`.
    pub closed spec fn at(address: Address) -> ObjectReference {
        ObjectReference { address }
    }

    /// The reference to the object at `address`, or `None` for the null address.
    pub fn from_raw_address(address: Address) -> (object: Option<ObjectReference>)
        requires
            address.word_aligned(),
        ensures
            object == if address.0 == 0 {
                None
            } else {
                Some(ObjectReference::at(address))
            },
    {
        if address.0 == 0 {
            None
        } else {
            Some(ObjectReference { address })
        }
    }

    /// The address of this object.
    pub fn to_raw_address(self) -> (address: Address)
        ensures
            address == self.address(),
            Self::valid_address(address),
            self.wf(),
    {
        proof {
            use_type_invariant(&self);
        }
        self.address
    }
}

/// An object reference is determined by its address, and is well formed when that address is.
pub broadcast proof fn lemma_object_at(address: Address)
    ensures
        #![trigger ObjectReference::at(address)]
        ObjectReference::at(address).address() == address,
        ObjectReference::at(address).wf() == ObjectReference::valid_address(address),
{
}

/// The object at an object's address is that object.
pub broadcast proof fn lemma_object_address(object: ObjectReference)
    ensures
        #![trigger object.address()]
        ObjectReference::at(object.address()) == object,
        object.wf() == ObjectReference::valid_address(object.address()),
{
}

/// Object references and their addresses determine each other.
pub broadcast group group_object_reference {
    lemma_object_at,
    lemma_object_address,
}

/// A set of object references.
pub struct ObjectSet {
    addresses: HashSet<usize>,
}

impl View for ObjectSet {
    type V = Set<ObjectReference>;

    closed spec fn view(&self) -> Set<ObjectReference> {
        Set::new(|object: ObjectReference| self.addresses@.contains(object.address().0))
    }
}

impl ObjectSet {
    /// The empty set.
    pub fn new() -> (set: ObjectSet)
        ensures
            set@ == Set::<ObjectReference>::empty(),
    {
        let set = ObjectSet { addresses: HashSet::new() };
        assert(set@ =~= Set::<ObjectReference>::empty());
        set
    }

    /// Adds an object, and says whether it was missing before.
    pub fn insert(&mut self, object: ObjectReference) -> (added: bool)
        ensures
            final(self)@ == old(self)@.insert(object),
            added == !old(self)@.contains(object),
    {
        broadcast use vstd::std_specs::hash::group_hash_axioms, group_object_reference;

        let added = self.addresses.insert(object.to_raw_address().as_usize());
        assert forall|o: ObjectReference| o.address().0 == object.address().0 implies o
            == object by {
            assert(o.address() == object.address());
        }
        assert(self@ =~= old(self)@.insert(object));
        added
    }

    /// Whether the set holds the given object.
    pub fn contains(&self, object: &ObjectReference) -> (found: bool)
        ensures
            found == self@.contains(*object),
    {
        broadcast use vstd::std_specs::hash::group_hash_axioms;

        self.addresses.contains(&object.to_raw_address().as_usize())
    }
}

/// There are only as many object references as there are addresses.
pub proof fn lemma_objects_finite(objects: Set<ObjectReference>)
    ensures
        objects.finite(),
        objects.len() <= usize::MAX + 1,
{
    broadcast use group_object_reference;

    let numbers = set_int_range(0, usize::MAX + 1);
    let place = |i: int| ObjectReference::at(Address(i as usize));
    let all = numbers.map(place);
    lemma_int_range(0, usize::MAX + 1);
    numbers.lemma_map_finite(place);
    lemma_map_size_bound(numbers, all, place);
    assert forall|object: ObjectReference| objects.contains(object) implies all.contains(
        object,
    ) by {
        let i = object.address().0 as int;
        assert(numbers.contains(i));
        assert(place(i) == object);
    }
    lemma_set_subset_finite(all, objects);
    lemma_len_subset(objects, all);
}

}
