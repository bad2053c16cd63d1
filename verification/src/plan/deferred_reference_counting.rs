//! Plan: deferred reference counting.

pub mod cascade;
pub mod exactness;
pub mod faithful_log;
pub mod gc_work;
pub mod global;
pub mod mutator;
pub mod zero_counts;
