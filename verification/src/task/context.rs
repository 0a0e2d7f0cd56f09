//! The saved registers of a control flow, and the states of a task.

use vstd::prelude::*;

verus! {

/// The registers that a switch between two control flows saves and restores.
#[derive(Clone, Copy, Debug)]
pub struct TaskContext {
    /// Where the flow goes on once it is resumed.
    pub ra: usize,
    /// Its stack pointer.
    pub sp: usize,
    /// Its callee-saved registers.
    pub s: [usize; 12],
}

impl TaskContext {
    /// A context with every register zero.
    pub fn zero_init() -> (cx: TaskContext)
        ensures
            cx.ra == 0,
            cx.sp == 0,
            forall|i: int| 0 <= i < 12 ==> cx.s@[i] == 0,
    {
        TaskContext { ra: 0, sp: 0, s: [0usize; 12] }
    }
}

/// The user registers of a task as they were when it entered the kernel.
#[derive(Clone, Copy, Debug)]
pub struct TrapContext {
    /// The general registers.
    pub x: [usize; 32],
    /// The status register.
    pub sstatus: usize,
    /// The address at which the task goes on.
    pub sepc: usize,
}

impl TrapContext {
    /// A trap context with every register zero.
    pub fn zero_init() -> (cx: TrapContext)
        ensures
            cx.sstatus == 0,
            cx.sepc == 0,
            forall|i: int| 0 <= i < 32 ==> cx.x@[i] == 0,
    {
        TrapContext { x: [0usize; 32], sstatus: 0, sepc: 0 }
    }
}

/// Where a task stands in its life.
#[derive(Clone, Copy, Debug, PartialEq, Eq, Structural)]
pub enum TaskStatus {
    /// Created, never dispatched.
    UnInit,
    /// Waiting in the ready queue.
    Ready,
    /// Owning the processor.
    Running,
    /// Exited, not yet collected.
    Zombie,
}

impl TaskStatus {
    /// The byte that stands for this state in a record handed to a task.
    pub open spec fn spec_code(self) -> u8 {
        match self {
            TaskStatus::UnInit => 0u8,
            TaskStatus::Ready => 1u8,
            TaskStatus::Running => 2u8,
            TaskStatus::Zombie => 3u8,
        }
    }

    /// The byte that stands for this state in a record handed to a task.
    pub fn code(&self) -> (code: u8)
        ensures
            code == self.spec_code(),
    {
        match self {
            TaskStatus::UnInit => 0u8,
            TaskStatus::Ready => 1u8,
            TaskStatus::Running => 2u8,
            TaskStatus::Zombie => 3u8,
        }
    }
}

} // verus!
