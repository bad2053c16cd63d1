//! Deferred reference counting over a heap whose mutators log the objects they overwrite.

pub mod plan;
pub mod policy;
pub mod util;
pub mod vm;
