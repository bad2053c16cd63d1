//! Addresses, object references, per-object metadata and allocators.

pub mod address;
pub mod allocators;
pub mod metadata;
