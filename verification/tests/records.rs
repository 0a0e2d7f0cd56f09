use kernel_core::fs::Stat;
use kernel_core::marshal::{as_isize, bytes_equal, push_le, push_zeros};
use kernel_core::syscall::process::{TaskInfo, TimeVal};
use kernel_core::task::context::TaskStatus;

#[test]
fn little_endian_words() {
    let mut out = vec![0xaa];
    push_le(&mut out, 0x0102_0304_0506_0708, 8);
    assert_eq!(out, vec![0xaa, 8, 7, 6, 5, 4, 3, 2, 1]);
    let mut short = Vec::new();
    push_le(&mut short, 0x0102_0304, 2);
    assert_eq!(short, vec![4, 3]);
    push_le(&mut short, 7, 0);
    assert_eq!(short, vec![4, 3]);
    push_zeros(&mut short, 3);
    assert_eq!(short, vec![4, 3, 0, 0, 0]);
}

#[test]
fn unsigned_words_read_as_signed() {
    assert_eq!(as_isize(0), 0);
    assert_eq!(as_isize(5), 5);
    assert_eq!(as_isize(isize::MAX as usize), isize::MAX);
    assert_eq!(as_isize(isize::MAX as usize + 1), isize::MIN);
    assert_eq!(as_isize(usize::MAX), -1);
}

#[test]
fn byte_strings_compare() {
    assert!(bytes_equal(&b"abc".to_vec(), &b"abc".to_vec()));
    assert!(!bytes_equal(&b"abc".to_vec(), &b"abd".to_vec()));
    assert!(!bytes_equal(&b"abc".to_vec(), &b"ab".to_vec()));
    assert!(bytes_equal(&Vec::new(), &Vec::new()));
}

#[test]
fn time_value_layout() {
    let bytes = TimeVal { sec: 0x0102, usec: 999_999 }.to_bytes();
    assert_eq!(bytes.len(), 16);
    assert_eq!(&bytes[0..8], &[2, 1, 0, 0, 0, 0, 0, 0]);
    assert_eq!(&bytes[8..16], &[0x3f, 0x42, 0x0f, 0, 0, 0, 0, 0]);
}

#[test]
fn task_info_layout() {
    let mut times = [0u32; 500];
    times[0] = 0x0a0b_0c0d;
    times[499] = 1;
    let bytes = TaskInfo { status: TaskStatus::Zombie, syscall_times: times, time: 0x0102 }.to_bytes();
    assert_eq!(bytes.len(), 2016);
    assert_eq!(&bytes[0..4], &[3, 0, 0, 0]);
    assert_eq!(&bytes[4..8], &[0x0d, 0x0c, 0x0b, 0x0a]);
    assert_eq!(&bytes[8..12], &[0, 0, 0, 0]);
    assert_eq!(&bytes[2000..2004], &[1, 0, 0, 0]);
    assert_eq!(&bytes[2004..2008], &[0, 0, 0, 0]);
    assert_eq!(&bytes[2008..2016], &[2, 1, 0, 0, 0, 0, 0, 0]);
}

#[test]
fn status_codes() {
    assert_eq!(TaskStatus::UnInit.code(), 0);
    assert_eq!(TaskStatus::Ready.code(), 1);
    assert_eq!(TaskStatus::Running.code(), 2);
    assert_eq!(TaskStatus::Zombie.code(), 3);
}

#[test]
fn stat_layout() {
    let bytes = Stat { dev: 1, ino: 2, mode: 0o040000, nlink: 0x0102_0304 }.to_bytes();
    assert_eq!(bytes.len(), 80);
    assert_eq!(&bytes[0..8], &[1, 0, 0, 0, 0, 0, 0, 0]);
    assert_eq!(&bytes[8..16], &[2, 0, 0, 0, 0, 0, 0, 0]);
    assert_eq!(&bytes[16..20], &[0, 0x40, 0, 0]);
    assert_eq!(&bytes[20..24], &[4, 3, 2, 1]);
    assert!(bytes[24..].iter().all(|byte| *byte == 0));
}
