//! Virtual memory: addresses, page numbers and the per-task address space.

pub mod address;
pub mod permission;
pub mod space;
pub mod memory_set;
