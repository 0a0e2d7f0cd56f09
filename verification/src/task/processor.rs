//! The processor: which task owns the CPU, and the hand-over of control between the
//! idle control flow and the tasks.

use vstd::prelude::*;
use crate::config::MAX_SYSCALL_NUM;
use crate::mm::address::VirtAddr;
use crate::mm::permission::MapPermission;
use crate::task::context::{TaskContext, TaskStatus, TrapContext};
use crate::task::control_block::{count_syscall, TaskControlBlock, TaskView};
use crate::task::manager::{next_task, TaskManager};

verus! {

/// What the processor is, as a mathematical value.
pub struct ProcessorView {
    /// The task that owns the CPU, if one does.
    pub current: Option<TaskView>,
    /// The saved registers of the idle control flow.
    pub idle_task_cx: TaskContext,
}

impl ProcessorView {
    /// The task that owns the CPU is well formed.
    pub open spec fn wf(self) -> bool {
        self.current is Some ==> self.current.unwrap().wf()
    }

    /// The processor with `task` in the place of the task that owns the CPU.
    pub open spec fn with_current(self, task: TaskView) -> ProcessorView {
        ProcessorView { current: Some(task), idle_task_cx: self.idle_task_cx }
    }
}

/// The processor of the machine.
pub struct Processor {
    /// The task that owns the CPU.
    current: Option<TaskControlBlock>,
    /// The saved registers of the idle control flow, which selects and dispatches tasks.
    idle_task_cx: TaskContext,
}

impl View for Processor {
    type V = ProcessorView;

    closed spec fn view(&self) -> ProcessorView {
        ProcessorView {
            current: match self.current {
                Some(task) => Some(task@),
                None => None,
            },
            idle_task_cx: self.idle_task_cx,
        }
    }
}

impl Processor {
    /// The invariant of the processor.
    pub open spec fn wf(&self) -> bool {
        self@.wf()
    }

    /// A processor that runs no task.
    pub fn new() -> (processor: Processor)
        ensures
            processor.wf(),
            processor@.current is None,
            processor@.idle_task_cx.ra == 0,
            processor@.idle_task_cx.sp == 0,
            forall|i: int| 0 <= i < 12 ==> processor@.idle_task_cx.s@[i] == 0,
    {
        Processor { current: None, idle_task_cx: TaskContext::zero_init() }
    }

    /// The saved registers of the idle control flow, to be changed in place.
    fn get_idle_task_cx_ptr(&mut self) -> (cx: &mut TaskContext)
        ensures
            *cx == old(self)@.idle_task_cx,
            final(self)@ == (ProcessorView { idle_task_cx: *final(cx), ..old(self)@ }),
    {
        &mut self.idle_task_cx
    }

    /// Takes the task that owns the CPU away from the processor.
    pub fn take_current(&mut self) -> (task: Option<TaskControlBlock>)
        ensures
            final(self)@ == (ProcessorView { current: None, ..old(self)@ }),
            match task {
                Some(task) => old(self)@.current == Some(task@),
                None => old(self)@.current is None,
            },
    {
        self.current.take()
    }

    /// The task that owns the CPU.
    pub fn current(&self) -> (task: Option<&TaskControlBlock>)
        ensures
            match task {
                Some(task) => self@.current == Some(task@),
                None => self@.current is None,
            },
    {
        self.current.as_ref()
    }

    /// The task that owns the CPU, to be changed in place.
    pub fn current_mut(&mut self) -> (task: &mut TaskControlBlock)
        requires
            old(self)@.current is Some,
        ensures
            task@ == old(self)@.current.unwrap(),
            final(self)@ == old(self)@.with_current(final(task)@),
    {
        match &mut self.current {
            Some(task) => task,
            None => vstd::pervasive::unreached(),
        }
    }

    /// Counts one more invocation of syscall `syscall_id` for the task that owns the CPU.
    fn increase_syscall_times(&mut self, syscall_id: usize)
        requires
            old(self)@.current is Some,
            old(self)@.current.unwrap().syscall_times.len() == MAX_SYSCALL_NUM,
            syscall_id < MAX_SYSCALL_NUM,
            old(self)@.current.unwrap().syscall_times[syscall_id as int] < u32::MAX,
        ensures
            final(self)@ == old(self)@.with_current(
                TaskView {
                    syscall_times: count_syscall(
                        old(self)@.current.unwrap().syscall_times,
                        syscall_id as int,
                    ),
                    ..old(self)@.current.unwrap()
                },
            ),
    {
        let current_task = self.current_mut();
        current_task.increase_syscall_times(syscall_id);
    }

    /// The syscall counters of the task that owns the CPU.
    fn get_syscall_times(&self) -> (times: [u32; MAX_SYSCALL_NUM])
        requires
            self@.current is Some,
        ensures
            times@ == self@.current.unwrap().syscall_times,
    {
        match &self.current {
            Some(task) => task.syscall_times(),
            None => vstd::pervasive::unreached(),
        }
    }

    /// When the task that owns the CPU was created.
    fn get_current_begin_time(&self) -> (begin_time: usize)
        requires
            self@.current is Some,
        ensures
            begin_time == self@.current.unwrap().begin_time,
    {
        match &self.current {
            Some(task) => task.begin_time(),
            None => vstd::pervasive::unreached(),
        }
    }

    /// Maps the addresses `start..end`, rounded up to whole pages, into the address
    /// space of the task that owns the CPU. Refuses, changing nothing, where `start` is
    /// not the first address of a page or one of the pages is mapped already.
    fn alloc_framed_area(&mut self, start: usize, end: usize, permission: MapPermission) -> (done:
        bool)
        requires
            old(self).wf(),
            old(self)@.current is Some,
        ensures
            final(self).wf(),
            match old(self)@.current.unwrap().space.map_result(start as int, end as int, permission) {
                Some(space) => done && final(self)@ == old(self)@.with_current(
                    TaskView { space, ..old(self)@.current.unwrap() },
                ),
                None => !done && final(self)@ == old(self)@,
            },
    {
        let current_task = self.current_mut();
        let memory_set = current_task.memory_set_mut();
        let start_va = VirtAddr(start);
        let end_va = VirtAddr(end);
        if !start_va.aligned() || memory_set.check_overlap(start_va, end_va) {
            return false;
        }
        memory_set.insert_framed_area(start_va, end_va, permission);
        true
    }

    /// Unmaps the addresses `start..end`, rounded up to whole pages, from the address
    /// space of the task that owns the CPU. Refuses, changing nothing, where `start` is
    /// not the first address of a page, one of the pages is not mapped, or the pages
    /// are not whole regions.
    fn dealloc_framed_area(&mut self, start: usize, end: usize) -> (done: bool)
        requires
            old(self).wf(),
            old(self)@.current is Some,
        ensures
            final(self).wf(),
            match old(self)@.current.unwrap().space.unmap_result(start as int, end as int) {
                Some(space) => done && final(self)@ == old(self)@.with_current(
                    TaskView { space, ..old(self)@.current.unwrap() },
                ),
                None => !done && final(self)@ == old(self)@,
            },
    {
        let current_task = self.current_mut();
        let memory_set = current_task.memory_set_mut();
        let start_va = VirtAddr(start);
        let end_va = VirtAddr(end);
        if !start_va.aligned() || memory_set.check_gap(start_va, end_va)
            || !memory_set.remove_framed_area(start_va, end_va) {
            return false;
        }
        true
    }
}

/// One turn of the idle control flow, which runs with the registers `regs`: takes the
/// task that runs next out of the ready queue, marks it running, advances its stride
/// and makes it the task that owns the CPU. Returns the registers to switch to, after
/// those of the idle control flow were saved; `None`, with nothing changed, where no
/// task is ready.
pub fn run_tasks(processor: &mut Processor, manager: &mut TaskManager, regs: TaskContext) -> (next:
    Option<TaskContext>)
    requires
        old(manager).wf(),
    ensures
        final(manager).wf(),
        old(manager)@.len() == 0 ==> {
            &&& next is None
            &&& final(manager)@ == old(manager)@
            &&& final(processor)@ == old(processor)@
        },
        old(manager)@.len() > 0 ==> {
            &&& next == Some(old(manager)@[next_task(old(manager)@)].task_cx)
            &&& final(manager)@ == old(manager)@.remove(next_task(old(manager)@))
            &&& final(processor)@ == (ProcessorView {
                current: Some(old(manager)@[next_task(old(manager)@)].dispatched()),
                idle_task_cx: regs,
            })
            &&& final(processor).wf()
        },
{
    if let Some(mut task) = manager.fetch() {
        proof {
            crate::task::stride::lemma_pick_in_range(crate::task::manager::queue_strides(old(manager)@));
            assert(old(manager)@[next_task(old(manager)@)].wf());
        }
        let idle_task_cx_ptr = processor.get_idle_task_cx_ptr();
        let next_task_cx = task.task_cx();
        task.set_status(TaskStatus::Running);
        task.advance_stride();
        *idle_task_cx_ptr = regs;
        processor.current = Some(task);
        Some(next_task_cx)
    } else {
        None
    }
}

/// Takes the task that owns the CPU away from the processor.
pub fn take_current_task(processor: &mut Processor) -> (task: Option<TaskControlBlock>)
    ensures
        final(processor)@ == (ProcessorView { current: None, ..old(processor)@ }),
        match task {
            Some(task) => old(processor)@.current == Some(task@),
            None => old(processor)@.current is None,
        },
{
    processor.take_current()
}

/// The task that owns the CPU.
pub fn current_task(processor: &Processor) -> (task: Option<&TaskControlBlock>)
    ensures
        match task {
            Some(task) => processor@.current == Some(task@),
            None => processor@.current is None,
        },
{
    processor.current()
}

/// The identifier of the translation root of the task that owns the CPU.
pub fn current_user_token(processor: &Processor) -> (token: usize)
    requires
        processor@.current is Some,
    ensures
        token == processor@.current.unwrap().token,
{
    match current_task(processor) {
        Some(task) => task.get_user_token(),
        None => vstd::pervasive::unreached(),
    }
}

/// The saved user registers of the task that owns the CPU, to be changed in place.
pub fn current_trap_cx(processor: &mut Processor) -> (cx: &mut TrapContext)
    requires
        old(processor)@.current is Some,
    ensures
        *cx == old(processor)@.current.unwrap().trap_cx,
        final(processor)@ == old(processor)@.with_current(
            TaskView { trap_cx: *final(cx), ..old(processor)@.current.unwrap() },
        ),
{
    processor.current_mut().get_trap_cx()
}

/// Hands control back to the idle control flow: saves the registers `regs` of the flow
/// that gives up the CPU into `switched_task_cx` and returns the registers of the idle
/// control flow, to be resumed.
pub fn schedule(processor: &mut Processor, switched_task_cx: &mut TaskContext, regs: TaskContext) -> (idle:
    TaskContext)
    ensures
        *final(switched_task_cx) == regs,
        idle == old(processor)@.idle_task_cx,
        final(processor)@ == old(processor)@,
{
    let idle_task_cx_ptr = processor.get_idle_task_cx_ptr();
    let idle = *idle_task_cx_ptr;
    *switched_task_cx = regs;
    idle
}

/// Counts one more invocation of syscall `syscall_id` for the task that owns the CPU.
pub fn increase_syscall_times(processor: &mut Processor, syscall_id: usize)
    requires
        old(processor)@.current is Some,
        old(processor)@.current.unwrap().syscall_times.len() == MAX_SYSCALL_NUM,
        syscall_id < MAX_SYSCALL_NUM,
        old(processor)@.current.unwrap().syscall_times[syscall_id as int] < u32::MAX,
    ensures
        final(processor)@ == old(processor)@.with_current(
            TaskView {
                syscall_times: count_syscall(
                    old(processor)@.current.unwrap().syscall_times,
                    syscall_id as int,
                ),
                ..old(processor)@.current.unwrap()
            },
        ),
{
    processor.increase_syscall_times(syscall_id);
}

/// The syscall counters of the task that owns the CPU.
pub fn get_syscall_times(processor: &Processor) -> (times: [u32; MAX_SYSCALL_NUM])
    requires
        processor@.current is Some,
    ensures
        times@ == processor@.current.unwrap().syscall_times,
{
    processor.get_syscall_times()
}

/// When the task that owns the CPU was created.
pub fn get_current_begin_time(processor: &Processor) -> (begin_time: usize)
    requires
        processor@.current is Some,
    ensures
        begin_time == processor@.current.unwrap().begin_time,
{
    processor.get_current_begin_time()
}

/// Maps the addresses `start..end`, rounded up to whole pages, into the address space of
/// the task that owns the CPU. Refuses, changing nothing, where `start` is not the first
/// address of a page or one of the pages is mapped already.
pub fn alloc_framed_area(processor: &mut Processor, start: usize, end: usize, permission: MapPermission) -> (done:
    bool)
    requires
        old(processor).wf(),
        old(processor)@.current is Some,
    ensures
        final(processor).wf(),
        match old(processor)@.current.unwrap().space.map_result(
            start as int,
            end as int,
            permission,
        ) {
            Some(space) => done && final(processor)@ == old(processor)@.with_current(
                TaskView { space, ..old(processor)@.current.unwrap() },
            ),
            None => !done && final(processor)@ == old(processor)@,
        },
{
    processor.alloc_framed_area(start, end, permission)
}

/// Unmaps the addresses `start..end`, rounded up to whole pages, from the address space
/// of the task that owns the CPU. Refuses, changing nothing, where `start` is not the
/// first address of a page, one of the pages is not mapped, or the pages are not whole
/// regions.
pub fn dealloc_framed_area(processor: &mut Processor, start: usize, end: usize) -> (done: bool)
    requires
        old(processor).wf(),
        old(processor)@.current is Some,
    ensures
        final(processor).wf(),
        match old(processor)@.current.unwrap().space.unmap_result(start as int, end as int) {
            Some(space) => done && final(processor)@ == old(processor)@.with_current(
                TaskView { space, ..old(processor)@.current.unwrap() },
            ),
            None => !done && final(processor)@ == old(processor)@,
        },
{
    processor.dealloc_framed_area(start, end)
}

} // verus!
