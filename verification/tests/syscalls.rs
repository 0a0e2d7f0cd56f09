use kernel_core::config::MAX_SYSCALL_NUM;
use kernel_core::fs::{FileHandle, Stat};
use kernel_core::mm::address::VirtAddr;
use kernel_core::mm::memory_set::MemorySet;
use kernel_core::mm::permission::MapPermission;
use kernel_core::syscall::fs::{
    finish_fstat, finish_open, finish_read, sys_close, sys_fstat, sys_linkat, sys_open, sys_read,
    sys_unlinkat, sys_write, ReadRequest,
};
use kernel_core::syscall::process::{
    sys_get_time, sys_mmap, sys_munmap, sys_sbrk, sys_task_info, TaskInfo, TimeVal,
};
use kernel_core::task::context::{TaskContext, TaskStatus};
use kernel_core::task::control_block::TaskControlBlock;
use kernel_core::task::manager::TaskManager;
use kernel_core::task::processor::{
    alloc_framed_area, current_task, dealloc_framed_area, get_current_begin_time,
    get_syscall_times, increase_syscall_times, run_tasks, Processor,
};
use kernel_core::task::change_program_brk;

const HEAP: usize = 0x40000;

fn rw() -> MapPermission {
    MapPermission { readable: true, writable: true, executable: false, user: true }
}

/// A processor that runs a task with the pages 0x10000..0x12000 mapped, created at 100 ms.
fn boot() -> Processor {
    let mut set = MemorySet::new_bare(1);
    set.insert_framed_area(VirtAddr(0x10000), VirtAddr(0x12000), rw());
    let task = TaskControlBlock::new(1, (0, 0), set, HEAP, 100);
    let mut manager = TaskManager::new();
    manager.add(task);
    let mut processor = Processor::new();
    run_tasks(&mut processor, &mut manager, TaskContext::zero_init()).unwrap();
    processor
}

fn regions(processor: &Processor) -> Vec<(usize, usize, MapPermission)> {
    let set = current_task(processor).unwrap().memory_set();
    (0..set.area_count()).map(|i| set.area(i)).collect()
}

fn poke(processor: &mut Processor, ptr: usize, data: &[u8]) {
    assert!(processor.current_mut().memory_set_mut().write_bytes(ptr, data));
}

fn peek(processor: &Processor, ptr: usize, len: usize) -> Vec<u8> {
    current_task(processor).unwrap().memory_set().read_bytes(ptr, len).unwrap()
}

fn file(id: usize, readable: bool, writable: bool) -> FileHandle {
    FileHandle { id, readable, writable }
}

#[test]
fn open_takes_the_lowest_free_descriptor() {
    let mut processor = boot();
    assert_eq!(finish_open(&mut processor, Some(file(10, true, false))), 0);
    assert_eq!(finish_open(&mut processor, Some(file(11, false, true))), 1);
    assert_eq!(finish_open(&mut processor, Some(file(12, true, true))), 2);
    assert_eq!(sys_close(&mut processor, 1), 0);
    assert_eq!(finish_open(&mut processor, Some(file(13, true, true))), 1);
    assert_eq!(finish_open(&mut processor, Some(file(14, true, true))), 3);
    let task = current_task(&processor).unwrap();
    assert_eq!(task.file(0), Some(file(10, true, false)));
    assert_eq!(task.file(1), Some(file(13, true, true)));
    assert_eq!(task.file(2), Some(file(12, true, true)));
    assert_eq!(task.file(3), Some(file(14, true, true)));
    assert_eq!(task.file(4), None);
}

#[test]
fn failed_open_returns_minus_one() {
    let mut processor = boot();
    assert_eq!(finish_open(&mut processor, None), -1);
    assert_eq!(current_task(&processor).unwrap().file(0), None);
}

#[test]
fn open_reads_the_path_from_the_task() {
    let mut processor = boot();
    poke(&mut processor, 0x10ffc, b"file_a\0");
    let request = sys_open(&processor, 0x10ffc, 0x201).ok().unwrap();
    assert_eq!(request.path, b"file_a".to_vec());
    assert_eq!(request.flags, 0x201);
    assert_eq!(sys_open(&processor, 0x20000, 0).err(), Some(-1));
    let fill = vec![b'x'; 0x1000];
    poke(&mut processor, 0x11000, &fill);
    assert_eq!(sys_open(&processor, 0x11000, 0).err(), Some(-1));
}

#[test]
fn close_fails_on_what_is_not_open() {
    let mut processor = boot();
    assert_eq!(sys_close(&mut processor, 0), -1);
    assert_eq!(finish_open(&mut processor, Some(file(1, true, true))), 0);
    assert_eq!(sys_close(&mut processor, 1), -1);
    assert_eq!(sys_close(&mut processor, usize::MAX), -1);
    assert_eq!(sys_close(&mut processor, 0), 0);
    assert_eq!(sys_close(&mut processor, 0), -1);
}

#[test]
fn closed_descriptor_refuses_read_and_write() {
    let mut processor = boot();
    assert_eq!(finish_open(&mut processor, Some(file(1, true, true))), 0);
    assert!(sys_read(&processor, 0, 0x10000, 8).is_ok());
    assert!(sys_write(&processor, 0, 0x10000, 8).is_ok());
    assert_eq!(sys_close(&mut processor, 0), 0);
    assert_eq!(sys_read(&processor, 0, 0x10000, 8).err(), Some(-1));
    assert_eq!(sys_write(&processor, 0, 0x10000, 8).err(), Some(-1));
    assert_eq!(sys_read(&processor, 0, 0x10000, 0).err(), Some(-1));
    assert_eq!(sys_write(&processor, 0, 0x10000, 0).err(), Some(-1));
}

#[test]
fn write_collects_the_bytes_of_the_buffer() {
    let mut processor = boot();
    assert_eq!(finish_open(&mut processor, Some(file(4, false, true))), 0);
    poke(&mut processor, 0x10ffe, b"abcd");
    let request = sys_write(&processor, 0, 0x10ffe, 4).ok().unwrap();
    assert_eq!(request.file, file(4, false, true));
    assert_eq!(request.data, b"abcd".to_vec());
    let empty = sys_write(&processor, 0, 0x10ffe, 0).ok().unwrap();
    assert!(empty.data.is_empty());
}

#[test]
fn write_fails_without_the_right_or_the_memory() {
    let mut processor = boot();
    assert_eq!(finish_open(&mut processor, Some(file(4, true, false))), 0);
    assert_eq!(finish_open(&mut processor, Some(file(5, false, true))), 1);
    assert_eq!(sys_write(&processor, 0, 0x10000, 4).err(), Some(-1));
    assert_eq!(sys_write(&processor, 2, 0x10000, 4).err(), Some(-1));
    assert_eq!(sys_write(&processor, 1, 0x11ffe, 4).err(), Some(-1));
    assert_eq!(sys_write(&processor, 1, 0xf000, 4).err(), Some(-1));
    assert!(sys_write(&processor, 1, 0x11ffc, 4).is_ok());
}

#[test]
fn read_checks_and_finish_read_stores() {
    let mut processor = boot();
    assert_eq!(finish_open(&mut processor, Some(file(6, true, false))), 0);
    assert_eq!(finish_open(&mut processor, Some(file(7, false, true))), 1);
    assert_eq!(
        sys_read(&processor, 0, 0x10ffa, 12),
        Ok(ReadRequest { file: file(6, true, false), buf: 0x10ffa, len: 12 })
    );
    assert_eq!(sys_read(&processor, 1, 0x10ffa, 12), Err(-1));
    assert_eq!(sys_read(&processor, 9, 0x10ffa, 12), Err(-1));
    assert_eq!(sys_read(&processor, 0, 0x11ffa, 12), Err(-1));
    assert_eq!(finish_read(&mut processor, 0x10ffa, 12, b"0123456789"), 10);
    assert_eq!(peek(&processor, 0x10ffa, 12), b"0123456789\0\0".to_vec());
    assert_eq!(finish_read(&mut processor, 0x10ffa, 4, b"abcdefgh"), 4);
    assert_eq!(peek(&processor, 0x10ffa, 12), b"abcd456789\0\0".to_vec());
    assert_eq!(finish_read(&mut processor, 0x11ffe, 8, b"abcdefgh"), -1);
    assert_eq!(peek(&processor, 0x11ffe, 2), vec![0, 0]);
    assert_eq!(finish_read(&mut processor, 0x30000, 8, b""), 0);
}

#[test]
fn fstat_writes_the_record_across_pages() {
    let mut processor = boot();
    assert_eq!(finish_open(&mut processor, Some(file(6, true, false))), 0);
    assert_eq!(sys_fstat(&processor, 0, 0x10fe0), Ok(file(6, true, false)));
    assert_eq!(sys_fstat(&processor, 1, 0x10fe0), Err(-1));
    assert_eq!(sys_fstat(&processor, 0, 0x11fe0), Err(-1));
    let stat = Stat { dev: 0, ino: 0x0102_0304_0506_0708, mode: 0o100000, nlink: 3 };
    let fill = vec![0xffu8; 80];
    poke(&mut processor, 0x10fe0, &fill);
    assert_eq!(finish_fstat(&mut processor, 0x10fe0, &stat), 0);
    let record = peek(&processor, 0x10fe0, 80);
    assert_eq!(record, stat.to_bytes());
    assert_eq!(&record[0..8], &[0u8; 8]);
    assert_eq!(&record[8..16], &[8, 7, 6, 5, 4, 3, 2, 1]);
    assert_eq!(&record[16..20], &[0, 0x80, 0, 0]);
    assert_eq!(&record[20..24], &[3, 0, 0, 0]);
    assert_eq!(&record[24..80], &[0u8; 56]);
    assert_eq!(finish_fstat(&mut processor, 0x11fe0, &stat), -1);
}

#[test]
fn linkat_refuses_identical_names() {
    let mut processor = boot();
    poke(&mut processor, 0x10000, b"a\0a\0b\0");
    assert_eq!(sys_linkat(&processor, 0x10000, 0x10000).err(), Some(-1));
    assert_eq!(sys_linkat(&processor, 0x10000, 0x10002).err(), Some(-1));
    let request = sys_linkat(&processor, 0x10000, 0x10004).ok().unwrap();
    assert_eq!(request.old_name, b"a".to_vec());
    assert_eq!(request.new_name, b"b".to_vec());
    assert_eq!(sys_linkat(&processor, 0x10000, 0x50000).err(), Some(-1));
    assert_eq!(sys_linkat(&processor, 0x50000, 0x10000).err(), Some(-1));
}

#[test]
fn unlinkat_refuses_the_reserved_names() {
    let mut processor = boot();
    poke(&mut processor, 0x10000, b".\0..\0...\0.a\0");
    assert_eq!(sys_unlinkat(&processor, 0x10000), Err(-1));
    assert_eq!(sys_unlinkat(&processor, 0x10002), Err(-1));
    assert_eq!(sys_unlinkat(&processor, 0x10005), Ok(b"...".to_vec()));
    assert_eq!(sys_unlinkat(&processor, 0x10009), Ok(b".a".to_vec()));
    assert_eq!(sys_unlinkat(&processor, 0x1000b), Ok(Vec::new()));
    assert_eq!(sys_unlinkat(&processor, 0x50000), Err(-1));
}

#[test]
fn get_time_across_two_pages() {
    let mut processor = boot();
    assert_eq!(sys_get_time(&mut processor, 0x10ffb, 0, 3_000_250_017), 0);
    let record = peek(&processor, 0x10ffb, 16);
    assert_eq!(u64::from_le_bytes(record[0..8].try_into().unwrap()), 3000);
    assert_eq!(u64::from_le_bytes(record[8..16].try_into().unwrap()), 250_017);
    assert_eq!(record, TimeVal { sec: 3000, usec: 250_017 }.to_bytes());
    assert_eq!(peek(&processor, 0x10ffa, 1), vec![0]);
    assert_eq!(peek(&processor, 0x1100b, 1), vec![0]);
}

#[test]
fn get_time_fails_outside_mapped_memory() {
    let mut processor = boot();
    assert_eq!(sys_get_time(&mut processor, 0x11ff8, 0, 5), -1);
    assert_eq!(peek(&processor, 0x11ff8, 8), vec![0; 8]);
    assert_eq!(sys_get_time(&mut processor, 0xfff8, 0, 5), -1);
    assert_eq!(sys_get_time(&mut processor, 0x11ff0, 0, 999_999), 0);
    assert_eq!(peek(&processor, 0x11ff0, 16), TimeVal { sec: 0, usec: 999_999 }.to_bytes());
}

#[test]
fn syscall_counters_show_in_task_info() {
    let mut processor = boot();
    for _ in 0..7 {
        increase_syscall_times(&mut processor, 64);
    }
    increase_syscall_times(&mut processor, 0);
    for _ in 0..300 {
        increase_syscall_times(&mut processor, MAX_SYSCALL_NUM - 1);
    }
    let times = get_syscall_times(&processor);
    assert_eq!(times[64], 7);
    assert_eq!(times[0], 1);
    assert_eq!(times[MAX_SYSCALL_NUM - 1], 300);
    assert_eq!(times[63], 0);
    assert_eq!(get_current_begin_time(&processor), 100);
    let at = 0x11000 - 1000;
    assert_eq!(sys_task_info(&mut processor, at, 350), 0);
    let record = peek(&processor, at, 2016);
    assert_eq!(record[0], 2);
    assert_eq!(&record[1..4], &[0, 0, 0]);
    let counter = |id: usize| u32::from_le_bytes(record[4 + 4 * id..8 + 4 * id].try_into().unwrap());
    assert_eq!(counter(64), 7);
    assert_eq!(counter(0), 1);
    assert_eq!(counter(MAX_SYSCALL_NUM - 1), 300);
    assert_eq!(counter(1), 0);
    assert_eq!(counter(249), 0);
    assert_eq!(u64::from_le_bytes(record[2008..2016].try_into().unwrap()), 250);
    let info = TaskInfo { status: TaskStatus::Running, syscall_times: times, time: 250 };
    assert_eq!(record, info.to_bytes());
}

#[test]
fn task_info_fails_outside_mapped_memory() {
    let mut processor = boot();
    assert_eq!(sys_task_info(&mut processor, 0x11900, 100), -1);
    assert_eq!(peek(&processor, 0x11900, 0x700), vec![0; 0x700]);
}

#[test]
fn mmap_checks_the_port() {
    let mut processor = boot();
    assert_eq!(sys_mmap(&mut processor, 0x20000, 4096, 0), -1);
    assert_eq!(sys_mmap(&mut processor, 0x20000, 4096, 8), -1);
    assert_eq!(sys_mmap(&mut processor, 0x20000, 4096, 0x13), -1);
    assert_eq!(sys_mmap(&mut processor, 0x20000, 4096, usize::MAX), -1);
    assert_eq!(regions(&processor).len(), 1);
    assert_eq!(sys_mmap(&mut processor, 0x20000, 4096, 1), 0);
    assert_eq!(sys_mmap(&mut processor, 0x21000, 4096, 2), 0);
    assert_eq!(sys_mmap(&mut processor, 0x22000, 4096, 4), 0);
    assert_eq!(sys_mmap(&mut processor, 0x23000, 4096, 7), 0);
    let all = regions(&processor);
    let perm = |r, w, x| MapPermission { readable: r, writable: w, executable: x, user: true };
    assert_eq!(all[1], (0x20, 0x21, perm(true, false, false)));
    assert_eq!(all[2], (0x21, 0x22, perm(false, true, false)));
    assert_eq!(all[3], (0x22, 0x23, perm(false, false, true)));
    assert_eq!(all[4], (0x23, 0x24, perm(true, true, true)));
}

#[test]
fn mmap_checks_the_range() {
    let mut processor = boot();
    assert_eq!(sys_mmap(&mut processor, 0x20001, 4096, 3), -1);
    assert_eq!(sys_mmap(&mut processor, 0x20000, usize::MAX, 3), -1);
    assert_eq!(sys_mmap(&mut processor, 0x11000, 4096, 3), -1);
    assert_eq!(sys_mmap(&mut processor, 0xf000, 4097, 3), -1);
    assert_eq!(regions(&processor), vec![(0x10, 0x12, rw())]);
    assert_eq!(sys_mmap(&mut processor, 0xf000, 4096, 3), 0);
    assert_eq!(sys_mmap(&mut processor, 0x12000, 1, 3), 0);
    assert_eq!(regions(&processor), vec![(0x10, 0x12, rw()), (0xf, 0x10, rw()), (0x12, 0x13, rw())]);
    assert_eq!(sys_mmap(&mut processor, 0x30000, 0, 3), 0);
    assert_eq!(regions(&processor).len(), 3);
}

#[test]
fn mmap_then_munmap_restores_the_regions() {
    let mut processor = boot();
    poke(&mut processor, 0x10010, b"kept");
    let before = regions(&processor);
    assert_eq!(sys_mmap(&mut processor, 0x20000, 3 * 4096 - 5, 3), 0);
    assert_eq!(regions(&processor).len(), 2);
    assert_eq!(sys_munmap(&mut processor, 0x20000, 3 * 4096 - 5), 0);
    assert_eq!(regions(&processor), before);
    assert_eq!(peek(&processor, 0x10010, 4), b"kept".to_vec());
    assert_eq!(sys_mmap(&mut processor, 0x30000, 0, 1), 0);
    assert_eq!(sys_munmap(&mut processor, 0x30000, 0), 0);
    assert_eq!(regions(&processor), before);
}

#[test]
fn munmap_refuses_what_does_not_match() {
    let mut processor = boot();
    assert_eq!(sys_mmap(&mut processor, 0x20000, 2 * 4096, 3), 0);
    let before = regions(&processor);
    assert_eq!(sys_munmap(&mut processor, 0x20000, 4096), -1);
    assert_eq!(sys_munmap(&mut processor, 0x21000, 4096), -1);
    assert_eq!(sys_munmap(&mut processor, 0x20000, 2 * 4096 + 1), -1);
    assert_eq!(sys_munmap(&mut processor, 0x20001, 2 * 4096 - 1), -1);
    assert_eq!(sys_munmap(&mut processor, 0x1f000, 3 * 4096), -1);
    assert_eq!(sys_munmap(&mut processor, 0x20000, usize::MAX), -1);
    assert_eq!(regions(&processor), before);
    assert_eq!(sys_munmap(&mut processor, 0x20000, 2 * 4096), 0);
    assert_eq!(sys_munmap(&mut processor, 0x20000, 2 * 4096), -1);
    assert_eq!(regions(&processor), vec![(0x10, 0x12, rw())]);
}

#[test]
fn munmap_takes_adjacent_regions_together() {
    let mut processor = boot();
    assert_eq!(sys_mmap(&mut processor, 0x20000, 4096, 3), 0);
    assert_eq!(sys_mmap(&mut processor, 0x21000, 4096, 1), 0);
    assert_eq!(sys_munmap(&mut processor, 0x20000, 2 * 4096), 0);
    assert_eq!(regions(&processor), vec![(0x10, 0x12, rw())]);
}

#[test]
fn second_overlapping_mmap_fails() {
    let mut processor = boot();
    assert_eq!(sys_mmap(&mut processor, 0x20000, 2 * 4096, 3), 0);
    poke(&mut processor, 0x20ffe, b"data");
    let before = regions(&processor);
    assert_eq!(sys_mmap(&mut processor, 0x21000, 4096, 1), -1);
    assert_eq!(sys_mmap(&mut processor, 0x1f000, 4097, 1), -1);
    assert_eq!(sys_mmap(&mut processor, 0x20000, 1, 7), -1);
    assert_eq!(sys_mmap(&mut processor, 0x1e000, 5 * 4096, 7), -1);
    assert_eq!(regions(&processor), before);
    assert_eq!(peek(&processor, 0x20ffe, 4), b"data".to_vec());
}

#[test]
fn framed_areas_through_the_processor() {
    let mut processor = boot();
    assert!(alloc_framed_area(&mut processor, 0x20000, 0x20001, rw()));
    assert!(!alloc_framed_area(&mut processor, 0x20000, 0x20001, rw()));
    assert!(!alloc_framed_area(&mut processor, 0x30010, 0x31000, rw()));
    assert!(!dealloc_framed_area(&mut processor, 0x20000, 0x21001));
    assert!(!dealloc_framed_area(&mut processor, 0x20010, 0x21000));
    assert!(dealloc_framed_area(&mut processor, 0x20000, 0x20800));
    assert_eq!(regions(&processor), vec![(0x10, 0x12, rw())]);
}

#[test]
fn sbrk_grows_and_shrinks_the_heap() {
    let mut processor = boot();
    assert_eq!(sys_sbrk(&mut processor, 0), HEAP as isize);
    assert_eq!(regions(&processor).len(), 1);
    assert_eq!(sys_sbrk(&mut processor, 10), HEAP as isize);
    assert_eq!(regions(&processor)[1], (0x40, 0x41, rw()));
    poke(&mut processor, HEAP, b"heap");
    assert_eq!(sys_sbrk(&mut processor, 4096), HEAP as isize + 10);
    assert_eq!(regions(&processor)[1], (0x40, 0x42, rw()));
    assert_eq!(peek(&processor, HEAP, 4), b"heap".to_vec());
    assert_eq!(sys_sbrk(&mut processor, -4000), HEAP as isize + 4106);
    assert_eq!(regions(&processor)[1], (0x40, 0x41, rw()));
    assert_eq!(sys_sbrk(&mut processor, -107), -1);
    assert_eq!(sys_sbrk(&mut processor, -106), HEAP as isize + 106);
    assert_eq!(regions(&processor), vec![(0x10, 0x12, rw())]);
    assert_eq!(current_task(&processor).unwrap().program_brk(), HEAP);
    assert_eq!(sys_sbrk(&mut processor, -1), -1);
}

#[test]
fn sbrk_does_not_grow_into_another_region() {
    let mut processor = boot();
    assert_eq!(sys_mmap(&mut processor, HEAP + 0x2000, 4096, 3), 0);
    assert_eq!(sys_sbrk(&mut processor, 0x2000), HEAP as isize);
    assert_eq!(sys_sbrk(&mut processor, 1), -1);
    assert_eq!(change_program_brk(&mut processor, 1), None);
    assert_eq!(current_task(&processor).unwrap().program_brk(), HEAP + 0x2000);
    assert_eq!(change_program_brk(&mut processor, -1), Some(HEAP + 0x2000));
    assert_eq!(sys_munmap(&mut processor, HEAP, 0x2000), 0);
    assert_eq!(sys_sbrk(&mut processor, -4096), -1);
    assert_eq!(sys_sbrk(&mut processor, 4096), -1);
}
