//! Tasks, the queue of those that are ready, and the processor that runs one of them.

use vstd::prelude::*;
use crate::task::context::{TaskContext, TaskStatus};
use crate::task::control_block::{TaskControlBlock, TaskView};
use crate::task::manager::TaskManager;
use crate::task::processor::{schedule, take_current_task, Processor, ProcessorView};

pub mod context;
pub mod control_block;
pub mod stride;
pub mod manager;
pub mod processor;

verus! {

/// The task that owns the CPU gives it up and stays ready: it joins the ready queue at
/// its end, with the registers `regs` saved for the time it is resumed. Returns the
/// registers of the idle control flow, which takes over.
pub fn suspend_current_and_run_next(
    processor: &mut Processor,
    manager: &mut TaskManager,
    regs: TaskContext,
) -> (idle: TaskContext)
    requires
        old(processor)@.current is Some,
    ensures
        idle == old(processor)@.idle_task_cx,
        final(processor)@ == (ProcessorView { current: None, ..old(processor)@ }),
        final(manager)@ == old(manager)@.push(
            TaskView { status: TaskStatus::Ready, task_cx: regs, ..old(processor)@.current.unwrap() },
        ),
{
    let mut task = match take_current_task(processor) {
        Some(task) => task,
        None => vstd::pervasive::unreached(),
    };
    task.set_status(TaskStatus::Ready);
    let idle = schedule(processor, task.task_cx_mut(), regs);
    manager.add(task);
    idle
}

/// The task that owns the CPU ends with the exit code `exit_code`. Returns the task, now
/// a zombie without address space, and the registers of the idle control flow, which
/// takes over.
pub fn exit_current_and_run_next(processor: &mut Processor, exit_code: i32) -> (exited: (
    TaskControlBlock,
    TaskContext,
))
    requires
        old(processor)@.current is Some,
    ensures
        exited.1 == old(processor)@.idle_task_cx,
        final(processor)@ == (ProcessorView { current: None, ..old(processor)@ }),
        exited.0@.space.areas.len() == 0,
        exited.0@ == (TaskView {
            status: TaskStatus::Zombie,
            exit_code,
            space: exited.0@.space,
            ..old(processor)@.current.unwrap()
        }),
{
    let mut task = match take_current_task(processor) {
        Some(task) => task,
        None => vstd::pervasive::unreached(),
    };
    task.exit(exit_code);
    let mut unused = TaskContext::zero_init();
    let idle = schedule(processor, &mut unused, TaskContext::zero_init());
    (task, idle)
}

/// Moves the end of the dynamic data segment of the task that owns the CPU by `size`
/// bytes and returns where it was before; `None`, with nothing changed, where the
/// request is refused.
pub fn change_program_brk(processor: &mut Processor, size: i32) -> (old_brk: Option<usize>)
    requires
        old(processor).wf(),
        old(processor)@.current is Some,
    ensures
        final(processor).wf(),
        match old(processor)@.current.unwrap().brk_result(size) {
            Some(task) => old_brk == Some(old(processor)@.current.unwrap().program_brk)
                && final(processor)@ == old(processor)@.with_current(task),
            None => old_brk is None && final(processor)@ == old(processor)@,
        },
{
    processor.current_mut().change_program_brk(size)
}

} // verus!
