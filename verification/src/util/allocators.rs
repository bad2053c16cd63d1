//! Which allocator serves which kind of allocation.

use enum_map::EnumMap;
use vstd::prelude::*;

verus! {

/// What an allocation asks for.
#[derive(Clone, Copy, PartialEq, Eq, Structural, Debug)]
pub enum AllocationSemantics {
    /// An ordinary object.
    Default,
    /// An object that is never reclaimed.
    Immortal,
    /// A large object.
    Los,
    /// Executable code.
    Code,
    /// Data that is never written after it was set up.
    ReadOnly,
    /// Executable code of large size.
    LargeCode,
    /// An object that never moves.
    NonMoving,
}

impl AllocationSemantics {
    /// The key that stands for these semantics in a mapping.
    pub open spec fn key(self) -> u8 {
        match self {
            AllocationSemantics::Default => 0,
            AllocationSemantics::Immortal => 1,
            AllocationSemantics::Los => 2,
            AllocationSemantics::Code => 3,
            AllocationSemantics::ReadOnly => 4,
            AllocationSemantics::LargeCode => 5,
            AllocationSemantics::NonMoving => 6,
        }
    }

    /// The key that stands for these semantics in a mapping.
    fn to_key(self) -> (key: u8)
        ensures
            key == self.key(),
    {
        match self {
            AllocationSemantics::Default => 0,
            AllocationSemantics::Immortal => 1,
            AllocationSemantics::Los => 2,
            AllocationSemantics::Code => 3,
            AllocationSemantics::ReadOnly => 4,
            AllocationSemantics::LargeCode => 5,
            AllocationSemantics::NonMoving => 6,
        }
    }
}

/// An allocator of a mutator, by its kind and its number among those of the same kind.
#[derive(Clone, Copy, PartialEq, Eq, Structural, Debug)]
pub enum AllocatorSelector {
    BumpPointer(u8),
    LargeObject(u8),
    Malloc(u8),
    Immix(u8),
    MarkCompact(u8),
    FreeList(u8),
    /// No allocator.
    Absent,
}

impl Default for AllocatorSelector {
    fn default() -> (selector: Self)
        ensures
            selector == AllocatorSelector::Absent,
    {
        AllocatorSelector::Absent
    }
}

/// How many allocators of each kind a plan keeps for itself.
#[derive(Clone, Copy, PartialEq, Eq, Structural, Debug)]
pub struct ReservedAllocators {
    pub n_bump_pointer: u8,
    pub n_large_object: u8,
    pub n_malloc: u8,
    pub n_immix: u8,
    pub n_mark_compact: u8,
    pub n_free_list: u8,
}

impl ReservedAllocators {
    /// No allocator is reserved.
    pub open spec fn none_reserved() -> ReservedAllocators {
        ReservedAllocators {
            n_bump_pointer: 0,
            n_large_object: 0,
            n_malloc: 0,
            n_immix: 0,
            n_mark_compact: 0,
            n_free_list: 0,
        }
    }
}

impl Default for ReservedAllocators {
    fn default() -> (reserved: Self)
        ensures
            reserved == ReservedAllocators::none_reserved(),
    {
        ReservedAllocators {
            n_bump_pointer: 0,
            n_large_object: 0,
            n_malloc: 0,
            n_immix: 0,
            n_mark_compact: 0,
            n_free_list: 0,
        }
    }
}

/// The allocator of each key, in an `enum_map::EnumMap`.
#[verifier::external_body]
pub struct SelectorTable {
    map: EnumMap<u8, AllocatorSelector>,
}

/// What a table holds for each key.
pub uninterp spec fn table_of(table: SelectorTable) -> Map<u8, AllocatorSelector>;

impl SelectorTable {
    /// Calls `EnumMap::default`, which gives every key the default value of the value type.
    #[verifier::external_body]
    fn filled_with_default() -> (table: SelectorTable)
        ensures
            table_of(table) == Map::new(
                |key: u8| true,
                |key: u8| AllocatorSelector::Absent,
            ),
    {
        SelectorTable { map: EnumMap::default() }
    }

    /// Calls `EnumMap::index`, which gives the value of a key.
    #[verifier::external_body]
    fn get(&self, key: u8) -> (selector: AllocatorSelector)
        ensures
            selector == table_of(*self)[key],
    {
        self.map[key]
    }

    /// Calls `EnumMap::index_mut`, through which the value of a key is replaced and no other.
    #[verifier::external_body]
    fn set(&mut self, key: u8, selector: AllocatorSelector)
        ensures
            table_of(*final(self)) == table_of(*old(self)).insert(key, selector),
    {
        self.map[key] = selector;
    }

    /// Calls `EnumMap::clone`, which clones the value of every key.
    #[verifier::external_body]
    fn duplicate(&self) -> (table: SelectorTable)
        ensures
            table_of(table) == table_of(*self),
    {
        SelectorTable { map: self.map.clone() }
    }
}

/// The allocator that serves each kind of allocation.
pub struct AllocatorMapping {
    table: SelectorTable,
}

impl View for AllocatorMapping {
    type V = spec_fn(AllocationSemantics) -> AllocatorSelector;

    closed spec fn view(&self) -> spec_fn(AllocationSemantics) -> AllocatorSelector {
        |semantics: AllocationSemantics| table_of(self.table)[semantics.key()]
    }
}

impl AllocatorMapping {
    /// A mapping that has no allocator for anything.
    pub fn new() -> (mapping: Self)
        ensures
            mapping@ == (|semantics: AllocationSemantics| AllocatorSelector::Absent),
    {
        let mapping = AllocatorMapping { table: SelectorTable::filled_with_default() };
        assert(mapping@ =~= (|semantics: AllocationSemantics| AllocatorSelector::Absent));
        mapping
    }

    /// Another mapping with the same content.
    pub fn duplicate(&self) -> (mapping: Self)
        ensures
            mapping@ == self@,
    {
        AllocatorMapping { table: self.table.duplicate() }
    }

    /// The allocator for the given kind of allocation.
    pub fn select(&self, semantics: AllocationSemantics) -> (selector: AllocatorSelector)
        ensures
            selector == (self@)(semantics),
    {
        self.table.get(semantics.to_key())
    }

    /// Makes `selector` serve the given kind of allocation.
    pub fn assign(&mut self, semantics: AllocationSemantics, selector: AllocatorSelector)
        ensures
            final(self)@ == (|other: AllocationSemantics|
                if other == semantics {
                    selector
                } else {
                    (old(self)@)(other)
                }),
    {
        self.table.set(semantics.to_key(), selector);
        let ghost expected = |other: AllocationSemantics|
            if other == semantics {
                selector
            } else {
                (old(self)@)(other)
            };
        assert forall|other: AllocationSemantics| #[trigger]
            (self@)(other) == expected(other) by {
            assert(other.key() == semantics.key() ==> other == semantics);
        }
        assert(self@ =~= expected);
    }
}

}
