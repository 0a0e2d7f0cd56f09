//! Constants shared by the memory manager, the scheduler and the syscall layer.

use vstd::prelude::*;

verus! {

/// Size of one page of virtual memory, in bytes.
pub const PAGE_SIZE: usize = 4096;

/// Number of syscall ids for which a task keeps an invocation counter.
pub const MAX_SYSCALL_NUM: usize = 500;

/// The stride of a task advances by `BIG_STRIDE / priority` at every dispatch.
pub const BIG_STRIDE: u64 = 0xFFFF_FFFF_FFFF_FFFF;

/// Smallest priority a task may have.
pub const MIN_PRIORITY: u64 = 2;

/// Priority given to a freshly created task.
pub const DEFAULT_PRIORITY: u64 = 16;

} // verus!
