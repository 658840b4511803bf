//! The storage that the rest of the machine is built on.

pub mod dynarray;
pub mod stack;
