//! The control block of a task: its identity and everything the kernel keeps for it.

use vstd::prelude::*;
use crate::config::{BIG_STRIDE, DEFAULT_PRIORITY, MAX_SYSCALL_NUM, MIN_PRIORITY, PAGE_SIZE};
use crate::fs::FileHandle;
use crate::mm::address::{page_ceil, page_floor, VirtAddr};
use crate::mm::memory_set::MemorySet;
use crate::mm::permission::MapPermission;
use crate::mm::space::AddressSpace;
use crate::task::context::{TaskContext, TaskStatus, TrapContext};

verus! {

/// What a task is, as a mathematical value.
pub struct TaskView {
    pub pid: usize,
    /// The addresses of the kernel stack of the task: the first and the one past the last.
    pub kernel_stack: (usize, usize),
    pub trap_cx: TrapContext,
    pub task_cx: TaskContext,
    pub status: TaskStatus,
    pub priority: u64,
    pub stride: u64,
    /// How often the task has invoked each syscall, by syscall id.
    pub syscall_times: Seq<u32>,
    /// When the task was created, in milliseconds.
    pub begin_time: usize,
    pub space: AddressSpace,
    /// The identifier of the translation root of the address space.
    pub token: usize,
    /// The open files by descriptor; a closed descriptor holds nothing.
    pub fd_table: Seq<Option<FileHandle>>,
    /// Where the dynamic data segment starts.
    pub heap_bottom: usize,
    /// Where the dynamic data segment ends.
    pub program_brk: usize,
    pub exit_code: i32,
}

/// How far the stride of a task with this priority advances at a dispatch.
pub open spec fn pass_of(priority: u64) -> u64 {
    BIG_STRIDE / priority
}

/// The stride after one more dispatch; the counter wraps at the end of its range.
pub open spec fn next_stride(stride: u64, priority: u64) -> u64 {
    vstd::wrapping::u64_specs::wrapping_add(stride, pass_of(priority))
}

/// The counters after one more invocation of syscall `id`.
pub open spec fn count_syscall(times: Seq<u32>, id: int) -> Seq<u32> {
    times.update(id, (times[id] + 1) as u32)
}

/// The counters after `count` more invocations of syscall `id`.
pub open spec fn count_syscalls(times: Seq<u32>, id: int, count: nat) -> Seq<u32>
    decreases count,
{
    if count == 0 {
        times
    } else {
        count_syscall(count_syscalls(times, id, (count - 1) as nat), id)
    }
}

/// Invoking a syscall `count` times adds `count` to its counter and leaves the counters
/// of the other syscalls as they were.
pub proof fn lemma_syscall_counter(times: Seq<u32>, id: int, count: nat)
    requires
        0 <= id < times.len(),
        times[id] + count <= u32::MAX,
    ensures
        count_syscalls(times, id, count).len() == times.len(),
        count_syscalls(times, id, count)[id] == times[id] + count,
        forall|other: int|
            0 <= other < times.len() && other != id ==> #[trigger] count_syscalls(
                times,
                id,
                count,
            )[other] == times[other],
    decreases count,
{
    if count > 0 {
        lemma_syscall_counter(times, id, (count - 1) as nat);
    }
}

/// The rights of the dynamic data segment: read and write, from user mode.
pub open spec fn heap_permission() -> MapPermission {
    MapPermission { readable: true, writable: true, executable: false, user: true }
}

/// The lowest descriptor that holds nothing, or the length of the table where every
/// descriptor is open.
pub open spec fn lowest_free(fd_table: Seq<Option<FileHandle>>) -> int
    decreases fd_table.len(),
{
    if fd_table.len() == 0 {
        0
    } else if fd_table[0] is None {
        0
    } else {
        1 + lowest_free(fd_table.drop_first())
    }
}

/// The lowest free descriptor is free, lies within the table or just behind it, and
/// every descriptor below it is open.
pub proof fn lemma_lowest_free(fd_table: Seq<Option<FileHandle>>)
    ensures
        0 <= lowest_free(fd_table) <= fd_table.len(),
        lowest_free(fd_table) < fd_table.len() ==> fd_table[lowest_free(fd_table)] is None,
        forall|fd: int| 0 <= fd < lowest_free(fd_table) ==> (#[trigger] fd_table[fd]) is Some,
    decreases fd_table.len(),
{
    if fd_table.len() > 0 && fd_table[0] is Some {
        let rest = fd_table.drop_first();
        lemma_lowest_free(rest);
        assert forall|fd: int| 0 <= fd < lowest_free(fd_table) implies (#[trigger] fd_table[fd]) is Some by {
            if fd > 0 {
                assert(rest[fd - 1] is Some);
            }
        }
    }
}

impl TaskView {
    /// The invariant of a task.
    pub open spec fn wf(self) -> bool {
        &&& self.priority >= MIN_PRIORITY
        &&& self.syscall_times.len() == MAX_SYSCALL_NUM
        &&& self.space.wf()
        &&& self.heap_bottom % PAGE_SIZE == 0
        &&& self.heap_bottom <= self.program_brk
    }

    /// The file behind descriptor `fd`, if the descriptor is open.
    pub open spec fn file(self, fd: int) -> Option<FileHandle> {
        if 0 <= fd < self.fd_table.len() {
            self.fd_table[fd]
        } else {
            None
        }
    }

    /// What a request to move the end of the dynamic data segment by `size` bytes does:
    /// `None` where it is refused, else the task that it leaves. The segment is backed
    /// by the region that starts at its first page; the request is refused where the new
    /// end would lie before the start of the segment or beyond the last address, where a
    /// page to be added belongs to another region, and where the region of the segment
    /// is not there to be resized.
    pub open spec fn brk_result(self, size: i32) -> Option<TaskView> {
        let new_brk = self.program_brk + size;
        if new_brk < self.heap_bottom || new_brk > usize::MAX {
            None
        } else {
            let first = page_floor(self.heap_bottom as int);
            let old_end = page_ceil(self.program_brk as int);
            let new_end = page_ceil(new_brk);
            let space = if new_end == old_end {
                Some(self.space)
            } else if new_end < old_end {
                self.space.shrink_result(first, new_end)
            } else if old_end == first {
                if self.space.overlaps(first, new_end) {
                    None
                } else {
                    Some(self.space.map(first, new_end, heap_permission()))
                }
            } else {
                self.space.append_result(first, new_end)
            };
            match space {
                Some(space) => Some(TaskView { space, program_brk: new_brk as usize, ..self }),
                None => None,
            }
        }
    }

    /// The task as the scheduler hands it the processor: running, its stride advanced.
    pub open spec fn dispatched(self) -> TaskView {
        TaskView {
            status: TaskStatus::Running,
            stride: next_stride(self.stride, self.priority),
            ..self
        }
    }
}

/// The control block of a task.
pub struct TaskControlBlock {
    pid: usize,
    kernel_stack: (usize, usize),
    trap_cx: TrapContext,
    task_cx: TaskContext,
    task_status: TaskStatus,
    priority: u64,
    stride: u64,
    syscall_times: [u32; MAX_SYSCALL_NUM],
    begin_time: usize,
    memory_set: MemorySet,
    fd_table: Vec<Option<FileHandle>>,
    heap_bottom: usize,
    program_brk: usize,
    exit_code: i32,
}

impl View for TaskControlBlock {
    type V = TaskView;

    closed spec fn view(&self) -> TaskView {
        TaskView {
            pid: self.pid,
            kernel_stack: self.kernel_stack,
            trap_cx: self.trap_cx,
            task_cx: self.task_cx,
            status: self.task_status,
            priority: self.priority,
            stride: self.stride,
            syscall_times: self.syscall_times@,
            begin_time: self.begin_time,
            space: self.memory_set@,
            token: self.memory_set.spec_token(),
            fd_table: self.fd_table@,
            heap_bottom: self.heap_bottom,
            program_brk: self.program_brk,
            exit_code: self.exit_code,
        }
    }
}

impl TaskControlBlock {
    /// The invariant of a task.
    pub open spec fn wf(&self) -> bool {
        self@.wf()
    }

    /// A task that was never dispatched: default priority, stride zero, no syscall
    /// counted, no file open, an empty dynamic data segment at `heap_bottom`.
    pub fn new(
        pid: usize,
        kernel_stack: (usize, usize),
        memory_set: MemorySet,
        heap_bottom: usize,
        begin_time: usize,
    ) -> (task: TaskControlBlock)
        requires
            memory_set.wf(),
            heap_bottom % PAGE_SIZE == 0,
        ensures
            task.wf(),
            task@.pid == pid,
            task@.kernel_stack == kernel_stack,
            task@.status == TaskStatus::UnInit,
            task@.priority == DEFAULT_PRIORITY,
            task@.stride == 0,
            forall|id: int| 0 <= id < MAX_SYSCALL_NUM ==> task@.syscall_times[id] == 0,
            task@.begin_time == begin_time,
            task@.space == memory_set@,
            task@.token == memory_set.spec_token(),
            task@.fd_table.len() == 0,
            task@.heap_bottom == heap_bottom,
            task@.program_brk == heap_bottom,
            task@.exit_code == 0,
    {
        TaskControlBlock {
            pid,
            kernel_stack,
            trap_cx: TrapContext::zero_init(),
            task_cx: TaskContext::zero_init(),
            task_status: TaskStatus::UnInit,
            priority: DEFAULT_PRIORITY,
            stride: 0,
            syscall_times: [0u32; MAX_SYSCALL_NUM],
            begin_time,
            memory_set,
            fd_table: Vec::new(),
            heap_bottom,
            program_brk: heap_bottom,
            exit_code: 0,
        }
    }

    pub fn pid(&self) -> (pid: usize)
        ensures
            pid == self@.pid,
    {
        self.pid
    }

    pub fn status(&self) -> (status: TaskStatus)
        ensures
            status == self@.status,
    {
        self.task_status
    }

    pub fn priority(&self) -> (priority: u64)
        ensures
            priority == self@.priority,
    {
        self.priority
    }

    pub fn stride(&self) -> (stride: u64)
        ensures
            stride == self@.stride,
    {
        self.stride
    }

    pub fn begin_time(&self) -> (begin_time: usize)
        ensures
            begin_time == self@.begin_time,
    {
        self.begin_time
    }

    pub fn program_brk(&self) -> (brk: usize)
        ensures
            brk == self@.program_brk,
    {
        self.program_brk
    }

    pub fn exit_code(&self) -> (code: i32)
        ensures
            code == self@.exit_code,
    {
        self.exit_code
    }

    pub fn task_cx(&self) -> (cx: TaskContext)
        ensures
            cx == self@.task_cx,
    {
        self.task_cx
    }

    /// The identifier of the translation root of the address space of the task.
    pub fn get_user_token(&self) -> (token: usize)
        ensures
            token == self@.token,
    {
        self.memory_set.token()
    }

    /// The counters of the syscalls that the task has invoked.
    pub fn syscall_times(&self) -> (times: [u32; MAX_SYSCALL_NUM])
        ensures
            times@ == self@.syscall_times,
    {
        self.syscall_times
    }

    /// The address space of the task.
    pub fn memory_set(&self) -> (set: &MemorySet)
        ensures
            set@ == self@.space,
            set.spec_token() == self@.token,
    {
        &self.memory_set
    }

    /// The address space of the task, to be changed in place.
    pub fn memory_set_mut(&mut self) -> (set: &mut MemorySet)
        ensures
            set@ == old(self)@.space,
            set.spec_token() == old(self)@.token,
            final(self)@ == (TaskView {
                space: final(set)@,
                token: final(set).spec_token(),
                ..old(self)@
            }),
    {
        &mut self.memory_set
    }

    /// The saved user registers of the task, to be changed in place.
    pub fn get_trap_cx(&mut self) -> (cx: &mut TrapContext)
        ensures
            *cx == old(self)@.trap_cx,
            final(self)@ == (TaskView { trap_cx: *final(cx), ..old(self)@ }),
    {
        &mut self.trap_cx
    }

    pub fn set_status(&mut self, status: TaskStatus)
        ensures
            final(self)@ == (TaskView { status, ..old(self)@ }),
    {
        self.task_status = status;
    }

    pub fn set_task_cx(&mut self, cx: TaskContext)
        ensures
            final(self)@ == (TaskView { task_cx: cx, ..old(self)@ }),
    {
        self.task_cx = cx;
    }

    pub fn set_exit_code(&mut self, code: i32)
        ensures
            final(self)@ == (TaskView { exit_code: code, ..old(self)@ }),
    {
        self.exit_code = code;
    }

    /// Gives the task the priority `priority`. Refuses, changing nothing, a priority
    /// below the smallest one allowed.
    pub fn set_priority(&mut self, priority: u64) -> (accepted: bool)
        ensures
            accepted == (priority >= MIN_PRIORITY),
            accepted ==> final(self)@ == (TaskView { priority, ..old(self)@ }),
            !accepted ==> final(self)@ == old(self)@,
    {
        if priority < MIN_PRIORITY {
            return false;
        }
        self.priority = priority;
        true
    }

    /// Advances the stride by the pass of the task, as at every dispatch.
    pub fn advance_stride(&mut self)
        requires
            old(self)@.priority >= MIN_PRIORITY,
        ensures
            final(self)@ == (TaskView {
                stride: next_stride(old(self)@.stride, old(self)@.priority),
                ..old(self)@
            }),
    {
        self.stride = self.stride.wrapping_add(BIG_STRIDE / self.priority);
    }

    /// Counts one more invocation of syscall `syscall_id`.
    pub fn increase_syscall_times(&mut self, syscall_id: usize)
        requires
            syscall_id < MAX_SYSCALL_NUM,
            old(self)@.syscall_times.len() == MAX_SYSCALL_NUM,
            old(self)@.syscall_times[syscall_id as int] < u32::MAX,
        ensures
            final(self)@ == (TaskView {
                syscall_times: count_syscall(old(self)@.syscall_times, syscall_id as int),
                ..old(self)@
            }),
    {
        self.syscall_times[syscall_id] = self.syscall_times[syscall_id] + 1;
    }

    /// The file behind descriptor `fd`, if the descriptor is open.
    pub fn file(&self, fd: usize) -> (file: Option<FileHandle>)
        ensures
            file == self@.file(fd as int),
    {
        if fd >= self.fd_table.len() {
            return None;
        }
        self.fd_table[fd]
    }

    /// Finds the lowest descriptor that holds nothing; where every descriptor is open,
    /// the table grows by one.
    pub fn alloc_fd(&mut self) -> (fd: usize)
        ensures
            fd == lowest_free(old(self)@.fd_table),
            fd < final(self)@.fd_table.len(),
            final(self)@.fd_table[fd as int] is None,
            final(self)@ == (TaskView {
                fd_table: if fd < old(self)@.fd_table.len() {
                    old(self)@.fd_table
                } else {
                    old(self)@.fd_table.push(None)
                },
                ..old(self)@
            }),
    {
        let mut fd: usize = 0;
        assert(self.fd_table@.skip(0) =~= self.fd_table@);
        while fd < self.fd_table.len()
            invariant
                0 <= fd <= self.fd_table@.len(),
                *self == *old(self),
                lowest_free(self.fd_table@) == fd + lowest_free(self.fd_table@.skip(fd as int)),
            decreases self.fd_table@.len() - fd,
        {
            if self.fd_table[fd].is_none() {
                assert(self.fd_table@.skip(fd as int)[0] is None);
                return fd;
            }
            proof {
                let rest = self.fd_table@.skip(fd as int);
                assert(rest[0] is Some);
                assert(rest.drop_first() =~= self.fd_table@.skip(fd + 1));
            }
            fd = fd + 1;
        }
        assert(self.fd_table@.skip(fd as int).len() == 0);
        self.fd_table.push(None);
        fd
    }

    /// Puts `file` behind the descriptor `fd`.
    pub fn set_file(&mut self, fd: usize, file: Option<FileHandle>)
        requires
            fd < old(self)@.fd_table.len(),
        ensures
            final(self)@ == (TaskView {
                fd_table: old(self)@.fd_table.update(fd as int, file),
                ..old(self)@
            }),
    {
        self.fd_table[fd] = file;
    }

    /// The saved registers of the task, to be changed in place.
    pub fn task_cx_mut(&mut self) -> (cx: &mut TaskContext)
        ensures
            *cx == old(self)@.task_cx,
            final(self)@ == (TaskView { task_cx: *final(cx), ..old(self)@ }),
    {
        &mut self.task_cx
    }

    /// Moves the end of the dynamic data segment by `size` bytes and returns where it
    /// was before. Refuses, changing nothing, what `brk_result` refuses.
    pub fn change_program_brk(&mut self, size: i32) -> (old_brk: Option<usize>)
        requires
            old(self).wf(),
        ensures
            final(self).wf(),
            match old(self)@.brk_result(size) {
                Some(task) => old_brk == Some(old(self)@.program_brk) && final(self)@ == task,
                None => old_brk is None && final(self)@ == old(self)@,
            },
    {
        let old_brk = self.program_brk;
        let target: i128 = old_brk as i128 + size as i128;
        if target < self.heap_bottom as i128 || target > usize::MAX as i128 {
            return None;
        }
        let new_brk = target as usize;
        let bottom = VirtAddr(self.heap_bottom);
        let first = bottom.floor().0;
        let old_end = VirtAddr(old_brk).ceil().0;
        let new_end = VirtAddr(new_brk).ceil().0;
        let done = if new_end == old_end {
            true
        } else if new_end < old_end {
            self.memory_set.shrink_to(bottom, VirtAddr(new_brk))
        } else if old_end == first {
            if self.memory_set.check_overlap(bottom, VirtAddr(new_brk)) {
                false
            } else {
                let permission = MapPermission {
                    readable: true,
                    writable: true,
                    executable: false,
                    user: true,
                };
                self.memory_set.insert_framed_area(bottom, VirtAddr(new_brk), permission);
                true
            }
        } else {
            self.memory_set.append_to(bottom, VirtAddr(new_brk))
        };
        if done {
            self.program_brk = new_brk;
            Some(old_brk)
        } else {
            None
        }
    }

    /// Ends the task: it becomes a zombie with the exit code `exit_code`, and its
    /// address space is released.
    pub fn exit(&mut self, exit_code: i32)
        ensures
            final(self)@.space.areas.len() == 0,
            final(self)@ == (TaskView {
                status: TaskStatus::Zombie,
                exit_code,
                space: final(self)@.space,
                ..old(self)@
            }),
    {
        self.task_status = TaskStatus::Zombie;
        self.exit_code = exit_code;
        self.memory_set.recycle_data_pages();
    }
}

} // verus!
