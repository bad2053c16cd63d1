# deferred_rc

A verified library for deferred reference counting.

Mutators do not touch reference counts. The write barrier of a mutator logs an object the first time
it is modified after a collection, together with the objects it referred to. A collection counts the
references from roots, takes back those of the last collection, and brings the counts of logged
objects up to date. Then objects whose count is zero die, and with them whatever only they kept alive.
Garbage in cycles is not reclaimed.

## Layout

- `src/util/` has addresses, object references, metadata fields in object headers (reference counts
  and unlog bits) and the mapping from allocations to allocators.
- `src/vm.rs` is the interface to a language runtime, with a model of its memory. `src/vm/heap.rs` is
  a runtime that keeps its heap in maps.
- `src/policy.rs` has the spaces that hold objects.
- `src/plan/barriers.rs` and `src/plan/barriers/` have the barriers and the log buffers.
- `src/plan/deferred_reference_counting/` has the plan:
  - `zero_counts.rs` lets objects die, and `cascade.rs` says what that means;
  - `gc_work.rs` has the work of a collection;
  - `global.rs` and `mutator.rs` have the state of the plan and its mutators;
  - `exactness.rs` and `faithful_log.rs` prove that counts stay exact from one collection to the next,
    and that what roots reach is kept.
- `app/` shares the library between threads: locks, barriers as trait objects, atomic header words.

## What is proved

Every function in `src/` is verified against its contract. The proof functions whose names start
with `law_` state what holds of several functions together.

What is not proved is what `enum_map::EnumMap` does, which `src/util/allocators.rs` states in the
contracts of four small functions.
