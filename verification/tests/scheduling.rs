use kernel_core::config::{BIG_STRIDE, DEFAULT_PRIORITY};
use kernel_core::mm::memory_set::MemorySet;
use kernel_core::syscall::process::{sys_exit, sys_yield};
use kernel_core::task::context::{TaskContext, TaskStatus};
use kernel_core::task::control_block::TaskControlBlock;
use kernel_core::task::manager::TaskManager;
use kernel_core::task::processor::{
    current_task, current_trap_cx, current_user_token, run_tasks, schedule, take_current_task,
    Processor,
};
use kernel_core::task::stride::stride_lt;
use kernel_core::task::suspend_current_and_run_next;

fn regs(ra: usize) -> TaskContext {
    let mut cx = TaskContext::zero_init();
    cx.ra = ra;
    cx
}

fn task(pid: usize, priority: u64) -> TaskControlBlock {
    let mut task = TaskControlBlock::new(pid, (0, 0), MemorySet::new_bare(pid), 0x10000, 0);
    assert!(task.set_priority(priority));
    task.set_task_cx(regs(pid));
    task
}

#[test]
fn new_processor_runs_nothing() {
    let mut processor = Processor::new();
    assert!(processor.current().is_none());
    assert!(current_task(&processor).is_none());
    assert!(processor.take_current().is_none());
    assert!(take_current_task(&mut processor).is_none());
}

#[test]
fn new_task_has_defaults() {
    let task = TaskControlBlock::new(3, (0x100, 0x200), MemorySet::new_bare(42), 0x8000, 77);
    assert_eq!(task.pid(), 3);
    assert_eq!(task.status(), TaskStatus::UnInit);
    assert_eq!(task.priority(), DEFAULT_PRIORITY);
    assert_eq!(task.stride(), 0);
    assert_eq!(task.begin_time(), 77);
    assert_eq!(task.program_brk(), 0x8000);
    assert_eq!(task.get_user_token(), 42);
    assert_eq!(task.exit_code(), 0);
    assert!(task.syscall_times().iter().all(|count| *count == 0));
    assert!(task.file(0).is_none());
}

#[test]
fn priority_below_two_is_refused() {
    let mut task = TaskControlBlock::new(1, (0, 0), MemorySet::new_bare(0), 0, 0);
    assert!(!task.set_priority(0));
    assert!(!task.set_priority(1));
    assert_eq!(task.priority(), DEFAULT_PRIORITY);
    assert!(task.set_priority(2));
    assert_eq!(task.priority(), 2);
}

#[test]
fn stride_advances_by_the_pass_and_wraps() {
    let mut task = task(1, 2);
    task.advance_stride();
    assert_eq!(task.stride(), BIG_STRIDE / 2);
    task.advance_stride();
    assert_eq!(task.stride(), u64::MAX - 1);
    task.advance_stride();
    assert_eq!(task.stride(), 0x7FFF_FFFF_FFFF_FFFD);
    let mut other = self::task(2, 16);
    other.advance_stride();
    assert_eq!(other.stride(), 0x0FFF_FFFF_FFFF_FFFF);
}

#[test]
fn strides_compare_on_a_circle() {
    assert!(stride_lt(1, 2));
    assert!(!stride_lt(2, 1));
    assert!(!stride_lt(5, 5));
    assert!(stride_lt(u64::MAX - 1, 3));
    assert!(!stride_lt(3, u64::MAX - 1));
    assert!(stride_lt(0, 0x7FFF_FFFF_FFFF_FFFF));
    assert!(!stride_lt(0, 0x8000_0000_0000_0000));
}

#[test]
fn run_tasks_without_tasks_changes_nothing() {
    let mut processor = Processor::new();
    let mut manager = TaskManager::new();
    assert!(run_tasks(&mut processor, &mut manager, regs(9)).is_none());
    assert!(current_task(&processor).is_none());
    assert_eq!(manager.len(), 0);
}

#[test]
fn run_tasks_dispatches_the_smallest_stride() {
    let mut processor = Processor::new();
    let mut manager = TaskManager::new();
    let mut first = task(1, 4);
    first.advance_stride();
    manager.add(first);
    manager.add(task(2, 8));
    manager.add(task(3, 8));
    let next = run_tasks(&mut processor, &mut manager, regs(99)).unwrap();
    assert_eq!(next.ra, 2);
    assert_eq!(manager.len(), 2);
    let current = current_task(&processor).unwrap();
    assert_eq!(current.pid(), 2);
    assert_eq!(current.status(), TaskStatus::Running);
    assert_eq!(current.stride(), BIG_STRIDE / 8);
    assert_eq!(current_user_token(&processor), 2);
}

#[test]
fn fetch_prefers_the_task_that_waited_longest() {
    let mut manager = TaskManager::new();
    manager.add(task(1, 16));
    manager.add(task(2, 16));
    assert_eq!(manager.fetch().unwrap().pid(), 1);
    assert_eq!(manager.fetch().unwrap().pid(), 2);
    assert!(manager.fetch().is_none());
}

#[test]
fn fetch_is_aware_of_wrapped_strides() {
    let mut manager = TaskManager::new();
    let mut wrapped = task(1, 2);
    wrapped.advance_stride();
    wrapped.advance_stride();
    wrapped.advance_stride();
    wrapped.advance_stride();
    assert_eq!(wrapped.stride(), u64::MAX - 3);
    let mut ahead = task(2, 4);
    ahead.advance_stride();
    ahead.advance_stride();
    ahead.advance_stride();
    ahead.advance_stride();
    ahead.advance_stride();
    assert_eq!(ahead.stride(), 0x3FFF_FFFF_FFFF_FFFB);
    manager.add(ahead);
    manager.add(wrapped);
    assert_eq!(manager.fetch().unwrap().pid(), 1);
}

#[test]
fn yield_puts_the_task_back_and_resumes_idle() {
    let mut processor = Processor::new();
    let mut manager = TaskManager::new();
    manager.add(task(1, 16));
    manager.add(task(2, 16));
    run_tasks(&mut processor, &mut manager, regs(50)).unwrap();
    let (status, idle) = sys_yield(&mut processor, &mut manager, regs(77));
    assert_eq!(status, 0);
    assert_eq!(idle.ra, 50);
    assert!(current_task(&processor).is_none());
    assert_eq!(manager.len(), 2);
    assert_eq!(manager.fetch().unwrap().pid(), 2);
    let back = manager.fetch().unwrap();
    assert_eq!(back.pid(), 1);
    assert_eq!(back.status(), TaskStatus::Ready);
    assert_eq!(back.task_cx().ra, 77);
}

#[test]
fn suspend_saves_the_registers_of_the_task() {
    let mut processor = Processor::new();
    let mut manager = TaskManager::new();
    manager.add(task(5, 16));
    run_tasks(&mut processor, &mut manager, regs(1)).unwrap();
    let idle = suspend_current_and_run_next(&mut processor, &mut manager, regs(1234));
    assert_eq!(idle.ra, 1);
    let next = run_tasks(&mut processor, &mut manager, regs(2)).unwrap();
    assert_eq!(next.ra, 1234);
}

#[test]
fn schedule_saves_and_hands_back_the_idle_context() {
    let mut processor = Processor::new();
    let mut manager = TaskManager::new();
    manager.add(task(1, 16));
    run_tasks(&mut processor, &mut manager, regs(31)).unwrap();
    let mut slot = TaskContext::zero_init();
    let idle = schedule(&mut processor, &mut slot, regs(8));
    assert_eq!(slot.ra, 8);
    assert_eq!(idle.ra, 31);
    assert_eq!(current_task(&processor).unwrap().pid(), 1);
}

#[test]
fn exit_leaves_a_zombie_without_memory() {
    let mut processor = Processor::new();
    let mut manager = TaskManager::new();
    manager.add(task(1, 16));
    run_tasks(&mut processor, &mut manager, regs(60)).unwrap();
    let (zombie, idle) = sys_exit(&mut processor, -3);
    assert_eq!(idle.ra, 60);
    assert_eq!(zombie.pid(), 1);
    assert_eq!(zombie.status(), TaskStatus::Zombie);
    assert_eq!(zombie.exit_code(), -3);
    assert_eq!(zombie.memory_set().area_count(), 0);
    assert!(current_task(&processor).is_none());
    assert_eq!(manager.len(), 0);
}

#[test]
fn trap_context_is_changed_in_place() {
    let mut processor = Processor::new();
    let mut manager = TaskManager::new();
    manager.add(task(1, 16));
    run_tasks(&mut processor, &mut manager, regs(0)).unwrap();
    current_trap_cx(&mut processor).x[10] = 5;
    current_trap_cx(&mut processor).sepc = 0x1000;
    assert_eq!(current_trap_cx(&mut processor).x[10], 5);
    assert_eq!(current_trap_cx(&mut processor).sepc, 0x1000);
}

#[test]
fn dispatches_follow_the_priorities() {
    let priorities: [u64; 4] = [2, 3, 16, 40];
    let mut processor = Processor::new();
    let mut manager = TaskManager::new();
    for (pid, priority) in priorities.iter().enumerate() {
        manager.add(task(pid, *priority));
    }
    let mut runs = [0u128; 4];
    let bound = (BIG_STRIDE / 2) as u128;
    for _ in 0..5000 {
        run_tasks(&mut processor, &mut manager, regs(0)).unwrap();
        runs[current_task(&processor).unwrap().pid()] += 1;
        sys_yield(&mut processor, &mut manager, regs(0));
        for i in 0..4 {
            for j in 0..4 {
                let left = runs[i] * (BIG_STRIDE / priorities[i]) as u128;
                let right = runs[j] * (BIG_STRIDE / priorities[j]) as u128;
                assert!(left <= right + bound);
            }
        }
    }
    assert_eq!(runs.iter().sum::<u128>(), 5000);
    assert!(runs[3] > runs[2] && runs[2] > runs[1] && runs[1] > runs[0]);
    let share = runs[3] as f64 / runs[0] as f64;
    assert!((share - 20.0).abs() < 1.0);
}
