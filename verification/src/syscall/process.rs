//! The syscalls on the task itself: its time, its accounting, its address space and its
//! place on the processor.

use vstd::prelude::*;
use crate::config::MAX_SYSCALL_NUM;
use crate::marshal::{as_isize, le_bytes, lemma_le_bytes_len, push_le, push_zeros, wrapped_isize, zeros};
use crate::mm::permission::MapPermission;
use crate::mm::space::{lemma_map_then_unmap_restores, lemma_overlapping_map_refused, AddressSpace};
use crate::mm::address::{page_ceil, page_floor};
use crate::task::context::{TaskContext, TaskStatus};
use crate::task::control_block::{TaskControlBlock, TaskView};
use crate::task::manager::TaskManager;
use crate::task::processor::{
    alloc_framed_area, dealloc_framed_area, get_current_begin_time, get_syscall_times, Processor,
    ProcessorView,
};
use crate::task::{change_program_brk, exit_current_and_run_next, suspend_current_and_run_next};

verus! {

/// Number of bytes of a time value as a task sees it.
pub const TIME_VAL_SIZE: usize = 16;

/// Number of bytes of a task information record as a task sees it.
pub const TASK_INFO_SIZE: usize = 2016;

/// Number of microseconds in a second.
pub const MICROS_PER_SEC: usize = 1_000_000;

/// A point in time: seconds, and the microseconds of the second that has begun.
#[derive(Clone, Copy, Debug, PartialEq, Eq, Structural)]
pub struct TimeVal {
    pub sec: usize,
    pub usec: usize,
}

impl TimeVal {
    /// The time value that a clock reading of `now_us` microseconds stands for.
    pub open spec fn of_micros(now_us: usize) -> TimeVal {
        TimeVal { sec: now_us / MICROS_PER_SEC, usec: now_us % MICROS_PER_SEC }
    }

    /// The time value as a task sees it: both fields as words of eight bytes, least
    /// significant byte first.
    pub open spec fn encoding(self) -> Seq<u8> {
        le_bytes(self.sec as nat, 8) + le_bytes(self.usec as nat, 8)
    }

    /// The time value as a task sees it.
    pub fn to_bytes(&self) -> (bytes: Vec<u8>)
        ensures
            bytes@ == self.encoding(),
            bytes@.len() == TIME_VAL_SIZE,
    {
        let mut bytes: Vec<u8> = Vec::new();
        push_le(&mut bytes, self.sec as u64, 8);
        push_le(&mut bytes, self.usec as u64, 8);
        proof {
            lemma_le_bytes_len(self.sec as nat, 8);
            lemma_le_bytes_len(self.usec as nat, 8);
            assert(bytes@ =~= self.encoding());
        }
        bytes
    }
}

/// What a task learns about itself.
#[derive(Clone, Copy, Debug)]
pub struct TaskInfo {
    /// Where the task stands in its life.
    pub status: TaskStatus,
    /// How often the task has invoked each syscall, by syscall id.
    pub syscall_times: [u32; MAX_SYSCALL_NUM],
    /// For how long the task has existed, in milliseconds.
    pub time: usize,
}

/// The counters `times` as a task sees them: each a word of four bytes, least
/// significant byte first.
pub open spec fn counters_encoding(times: Seq<u32>) -> Seq<u8>
    decreases times.len(),
{
    if times.len() == 0 {
        Seq::empty()
    } else {
        counters_encoding(times.drop_last()) + le_bytes(times.last() as nat, 4)
    }
}

/// The encoding of counters has four bytes for each of them.
pub proof fn lemma_counters_encoding_len(times: Seq<u32>)
    ensures
        counters_encoding(times).len() == 4 * times.len(),
    decreases times.len(),
{
    if times.len() > 0 {
        lemma_counters_encoding_len(times.drop_last());
        lemma_le_bytes_len(times.last() as nat, 4);
    }
}

/// In the encoding of counters, the four bytes of counter `id` stand at four times `id`.
pub proof fn lemma_counter_in_encoding(times: Seq<u32>, id: int)
    requires
        0 <= id < times.len(),
    ensures
        counters_encoding(times).len() == 4 * times.len(),
        counters_encoding(times).subrange(4 * id, 4 * id + 4) == le_bytes(times[id] as nat, 4),
    decreases times.len(),
{
    let front = times.drop_last();
    lemma_counters_encoding_len(times);
    lemma_counters_encoding_len(front);
    lemma_le_bytes_len(times.last() as nat, 4);
    if id == times.len() - 1 {
        assert(counters_encoding(times).subrange(4 * id, 4 * id + 4) =~= le_bytes(
            times[id] as nat,
            4,
        ));
    } else {
        lemma_counter_in_encoding(front, id);
        assert(front[id] == times[id]);
        assert(counters_encoding(times).subrange(4 * id, 4 * id + 4) =~= counters_encoding(
            front,
        ).subrange(4 * id, 4 * id + 4));
    }
}

/// In the record that a task is handed about itself, the state stands in the first
/// byte, the counter of syscall `id` in the four bytes from four times `id` plus four
/// on, and the time in the last eight bytes. So a syscall that was invoked so many
/// times shows that number.
pub proof fn lemma_task_info_fields(status: TaskStatus, times: Seq<u32>, time: usize, id: int)
    requires
        times.len() == MAX_SYSCALL_NUM,
        0 <= id < MAX_SYSCALL_NUM,
    ensures
        task_info_encoding(status, times, time).len() == TASK_INFO_SIZE,
        task_info_encoding(status, times, time)[0] == status.spec_code(),
        task_info_encoding(status, times, time).subrange(4 + 4 * id, 8 + 4 * id) == le_bytes(
            times[id] as nat,
            4,
        ),
        task_info_encoding(status, times, time).subrange(
            TASK_INFO_SIZE - 8,
            TASK_INFO_SIZE as int,
        ) == le_bytes(time as nat, 8),
{
    lemma_counter_in_encoding(times, id);
    lemma_le_bytes_len(time as nat, 8);
    let record = task_info_encoding(status, times, time);
    let counters = counters_encoding(times);
    assert(record.subrange(4 + 4 * id, 8 + 4 * id) =~= counters.subrange(4 * id, 4 * id + 4));
    assert(record.subrange(TASK_INFO_SIZE - 8, TASK_INFO_SIZE as int) =~= le_bytes(time as nat, 8));
}

/// The record that a task is handed about itself.
pub open spec fn task_info_encoding(status: TaskStatus, times: Seq<u32>, time: usize) -> Seq<u8> {
    seq![status.spec_code()] + zeros(3) + counters_encoding(times) + zeros(4) + le_bytes(
        time as nat,
        8,
    )
}

impl TaskInfo {
    /// The record as a task sees it: the state in one byte, the counters from the fifth
    /// byte on, and the time as a word of eight bytes in the last eight bytes.
    pub open spec fn encoding(self) -> Seq<u8> {
        task_info_encoding(self.status, self.syscall_times@, self.time)
    }

    /// The record as a task sees it.
    pub fn to_bytes(&self) -> (bytes: Vec<u8>)
        ensures
            bytes@ == self.encoding(),
            bytes@.len() == TASK_INFO_SIZE,
    {
        let mut bytes: Vec<u8> = Vec::new();
        bytes.push(self.status.code());
        push_zeros(&mut bytes, 3);
        let ghost head = bytes@;
        let mut id: usize = 0;
        while id < MAX_SYSCALL_NUM
            invariant
                0 <= id <= MAX_SYSCALL_NUM,
                self.syscall_times@.len() == MAX_SYSCALL_NUM,
                bytes@ == head + counters_encoding(self.syscall_times@.take(id as int)),
            decreases MAX_SYSCALL_NUM - id,
        {
            let ghost before = bytes@;
            push_le(&mut bytes, self.syscall_times[id] as u64, 4);
            proof {
                let taken = self.syscall_times@.take(id + 1);
                assert(taken.drop_last() =~= self.syscall_times@.take(id as int));
                assert(taken.last() == self.syscall_times@[id as int]);
                assert(bytes@ =~= head + counters_encoding(taken));
            }
            id = id + 1;
        }
        proof {
            assert(self.syscall_times@.take(MAX_SYSCALL_NUM as int) =~= self.syscall_times@);
            lemma_counters_encoding_len(self.syscall_times@);
            lemma_le_bytes_len(self.time as nat, 8);
        }
        push_zeros(&mut bytes, 4);
        push_le(&mut bytes, self.time as u64, 8);
        assert(bytes@ =~= self.encoding());
        bytes
    }
}

/// The task that owns the CPU ends with the exit code `exit_code`. Control does not
/// return to the task: the call hands back the task, now a zombie without address
/// space, and the registers of the idle control flow, which takes over.
pub fn sys_exit(processor: &mut Processor, exit_code: i32) -> (exited: (TaskControlBlock, TaskContext))
    requires
        old(processor)@.current is Some,
    ensures
        exited.1 == old(processor)@.idle_task_cx,
        final(processor)@ == (ProcessorView { current: None, ..old(processor)@ }),
        exited.0@.space.areas.len() == 0,
        exited.0@ == (TaskView {
            status: TaskStatus::Zombie,
            exit_code,
            space: exited.0@.space,
            ..old(processor)@.current.unwrap()
        }),
{
    exit_current_and_run_next(processor, exit_code)
}

/// The task that owns the CPU gives it up for the other tasks and stays ready: it joins
/// the ready queue at its end with the registers `regs`. Returns 0, the status of the
/// syscall, and the registers of the idle control flow, which takes over.
pub fn sys_yield(processor: &mut Processor, manager: &mut TaskManager, regs: TaskContext) -> (yielded: (
    isize,
    TaskContext,
))
    requires
        old(processor)@.current is Some,
    ensures
        yielded.0 == 0,
        yielded.1 == old(processor)@.idle_task_cx,
        final(processor)@ == (ProcessorView { current: None, ..old(processor)@ }),
        final(manager)@ == old(manager)@.push(
            TaskView { status: TaskStatus::Ready, task_cx: regs, ..old(processor)@.current.unwrap() },
        ),
{
    let idle = suspend_current_and_run_next(processor, manager, regs);
    (0, idle)
}

/// Stores the time of a clock that reads `now_us` microseconds at address `ts` of the
/// task that owns the CPU, also where the value lies across pages. Returns 0, or -1,
/// with nothing changed, where the value would not lie in mapped memory.
pub fn sys_get_time(processor: &mut Processor, ts: usize, tz: usize, now_us: usize) -> (status: isize)
    requires
        old(processor).wf(),
        old(processor)@.current is Some,
    ensures
        final(processor).wf(),
        final(processor)@.current is Some,
        final(processor)@ == old(processor)@.with_current(
            TaskView {
                space: final(processor)@.current.unwrap().space,
                ..old(processor)@.current.unwrap()
            },
        ),
        old(processor)@.current.unwrap().space.accessible(ts as int, TIME_VAL_SIZE as int) ==> {
            &&& status == 0
            &&& old(processor)@.current.unwrap().space.written(
                ts as int,
                TimeVal::of_micros(now_us).encoding(),
                final(processor)@.current.unwrap().space,
            )
        },
        !old(processor)@.current.unwrap().space.accessible(ts as int, TIME_VAL_SIZE as int) ==> {
            &&& status == -1
            &&& final(processor)@ == old(processor)@
        },
{
    let time = TimeVal { sec: now_us / MICROS_PER_SEC, usec: now_us % MICROS_PER_SEC };
    let record = time.to_bytes();
    let memory_set = processor.current_mut().memory_set_mut();
    if memory_set.write_bytes(ts, record.as_slice()) {
        0
    } else {
        -1
    }
}

/// Stores what the task that owns the CPU learns about itself at its address `ti`, also
/// where the record lies across pages: that it is running, how often it has invoked
/// each syscall, and for how long it has existed on a clock that reads `now_ms`
/// milliseconds. Returns 0, or -1, with nothing changed, where the record would not lie
/// in mapped memory.
pub fn sys_task_info(processor: &mut Processor, ti: usize, now_ms: usize) -> (status: isize)
    requires
        old(processor).wf(),
        old(processor)@.current is Some,
        old(processor)@.current.unwrap().begin_time <= now_ms,
    ensures
        final(processor).wf(),
        final(processor)@.current is Some,
        final(processor)@ == old(processor)@.with_current(
            TaskView {
                space: final(processor)@.current.unwrap().space,
                ..old(processor)@.current.unwrap()
            },
        ),
        old(processor)@.current.unwrap().space.accessible(ti as int, TASK_INFO_SIZE as int) ==> {
            &&& status == 0
            &&& old(processor)@.current.unwrap().space.written(
                ti as int,
                task_info_encoding(
                    TaskStatus::Running,
                    old(processor)@.current.unwrap().syscall_times,
                    (now_ms - old(processor)@.current.unwrap().begin_time) as usize,
                ),
                final(processor)@.current.unwrap().space,
            )
        },
        !old(processor)@.current.unwrap().space.accessible(ti as int, TASK_INFO_SIZE as int) ==> {
            &&& status == -1
            &&& final(processor)@ == old(processor)@
        },
{
    let syscall_time = get_syscall_times(processor);
    let running_time = now_ms - get_current_begin_time(processor);
    let info = TaskInfo {
        status: TaskStatus::Running,
        syscall_times: syscall_time,
        time: running_time,
    };
    let record = info.to_bytes();
    let memory_set = processor.current_mut().memory_set_mut();
    if memory_set.write_bytes(ti, record.as_slice()) {
        0
    } else {
        -1
    }
}

/// What a request to map `len` bytes from address `start` on with the rights `port`
/// does to an address space: `None` where it is refused, else the space that it leaves.
/// The request is refused where `port` names no right or has a bit beyond the three
/// rights, where the bytes reach beyond the last address, where `start` is not the first
/// address of a page, and where one of the pages is mapped already.
pub open spec fn mmap_result(space: AddressSpace, start: usize, len: usize, port: usize) -> Option<
    AddressSpace,
> {
    if port == 0 || port > 7 || start + len > usize::MAX {
        None
    } else {
        space.map_result(start as int, start + len, MapPermission::of_port(port))
    }
}

/// What a request to unmap `len` bytes from address `start` on does to an address
/// space: `None` where it is refused, else the space that it leaves. The request is
/// refused where the bytes reach beyond the last address, where `start` is not the first
/// address of a page, where one of the pages is not mapped, and where the pages are not
/// whole regions.
pub open spec fn munmap_result(space: AddressSpace, start: usize, len: usize) -> Option<AddressSpace> {
    if start + len > usize::MAX {
        None
    } else {
        space.unmap_result(start as int, start + len)
    }
}

/// Mapping and then unmapping the same bytes restores the address space that was there
/// before, region for region.
pub proof fn lemma_mmap_then_munmap(space: AddressSpace, start: usize, len: usize, port: usize)
    requires
        space.wf(),
        mmap_result(space, start, len, port) is Some,
    ensures
        munmap_result(mmap_result(space, start, len, port).unwrap(), start, len) == Some(space),
{
    lemma_map_then_unmap_restores(space, start as int, start + len, MapPermission::of_port(port));
}

/// After bytes were mapped, a request to map bytes whose pages share a page with theirs
/// is refused.
pub proof fn lemma_overlapping_mmap_refused(
    space: AddressSpace,
    start: usize,
    len: usize,
    port: usize,
    other_start: usize,
    other_len: usize,
    other_port: usize,
)
    requires
        mmap_result(space, start, len, port) is Some,
        page_floor(start as int) < page_ceil(other_start + other_len),
        page_floor(other_start as int) < page_ceil(start + len),
        page_floor(start as int) < page_ceil(start + len),
        page_floor(other_start as int) < page_ceil(other_start + other_len),
    ensures
        mmap_result(
            mmap_result(space, start, len, port).unwrap(),
            other_start,
            other_len,
            other_port,
        ) is None,
{
    if !(other_port == 0 || other_port > 7 || other_start + other_len > usize::MAX) {
        lemma_overlapping_map_refused(
            space,
            start as int,
            start + len,
            MapPermission::of_port(port),
            other_start as int,
            other_start + other_len,
            MapPermission::of_port(other_port),
        );
    }
}

/// Maps `len` bytes from address `start` on, rounded up to whole pages, into the address
/// space of the task that owns the CPU, with the rights that the three low bits of
/// `port` name and open to user mode. Returns 0, or -1, with nothing changed, where the
/// request is refused.
pub fn sys_mmap(processor: &mut Processor, start: usize, len: usize, port: usize) -> (status: isize)
    requires
        old(processor).wf(),
        old(processor)@.current is Some,
    ensures
        final(processor).wf(),
        match mmap_result(old(processor)@.current.unwrap().space, start, len, port) {
            Some(space) => status == 0 && final(processor)@ == old(processor)@.with_current(
                TaskView { space, ..old(processor)@.current.unwrap() },
            ),
            None => status == -1 && final(processor)@ == old(processor)@,
        },
{
    assert((port & 0x7 == 0 || port & !0x7 != 0) == (port == 0 || port > 7)) by (bit_vector);
    if port & 0x7 == 0 || port & !0x7 != 0 {
        return -1;
    }
    let bits: u8 = (port as u8) << 1;
    assert((bits & 2 != 0) == (port & 1 != 0) && (bits & 4 != 0) == (port & 2 != 0) && (bits & 8
        != 0) == (port & 4 != 0)) by (bit_vector)
        requires
            port <= 7,
            bits == (port as u8) << 1,
    ;
    let permission = MapPermission::from_bits_truncate(bits).union(MapPermission::user_only());
    assert(permission == MapPermission::of_port(port));
    let end = match start.checked_add(len) {
        Some(end) => end,
        None => {
            return -1;
        },
    };
    if alloc_framed_area(processor, start, end, permission) {
        0
    } else {
        -1
    }
}

/// Unmaps `len` bytes from address `start` on, rounded up to whole pages, from the
/// address space of the task that owns the CPU. Returns 0, or -1, with nothing changed,
/// where the request is refused.
pub fn sys_munmap(processor: &mut Processor, start: usize, len: usize) -> (status: isize)
    requires
        old(processor).wf(),
        old(processor)@.current is Some,
    ensures
        final(processor).wf(),
        match munmap_result(old(processor)@.current.unwrap().space, start, len) {
            Some(space) => status == 0 && final(processor)@ == old(processor)@.with_current(
                TaskView { space, ..old(processor)@.current.unwrap() },
            ),
            None => status == -1 && final(processor)@ == old(processor)@,
        },
{
    let end = match start.checked_add(len) {
        Some(end) => end,
        None => {
            return -1;
        },
    };
    if dealloc_framed_area(processor, start, end) {
        0
    } else {
        -1
    }
}

/// Moves the end of the dynamic data segment of the task that owns the CPU by `size`
/// bytes. Returns where the end was before, or -1, with nothing changed, where the
/// request is refused.
pub fn sys_sbrk(processor: &mut Processor, size: i32) -> (old_brk: isize)
    requires
        old(processor).wf(),
        old(processor)@.current is Some,
    ensures
        final(processor).wf(),
        match old(processor)@.current.unwrap().brk_result(size) {
            Some(task) => old_brk == wrapped_isize(old(processor)@.current.unwrap().program_brk)
                && final(processor)@ == old(processor)@.with_current(task),
            None => old_brk == -1 && final(processor)@ == old(processor)@,
        },
{
    if let Some(old_brk) = change_program_brk(processor, size) {
        as_isize(old_brk)
    } else {
        -1
    }
}

} // verus!
