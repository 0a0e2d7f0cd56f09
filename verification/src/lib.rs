//! Scheduling and virtual-memory core of a small single-hart multitasking kernel.

pub mod config;
pub mod marshal;
pub mod mm;
pub mod fs;
pub mod task;
pub mod syscall;
