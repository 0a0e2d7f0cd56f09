use kernel_core::mm::address::{VirtAddr, VirtPageNum};
use kernel_core::mm::memory_set::MemorySet;
use kernel_core::mm::permission::MapPermission;

fn rw() -> MapPermission {
    MapPermission { readable: true, writable: true, executable: false, user: true }
}

#[test]
fn rounding_of_addresses() {
    assert_eq!(VirtAddr(0).floor(), VirtPageNum(0));
    assert_eq!(VirtAddr(0).ceil(), VirtPageNum(0));
    assert_eq!(VirtAddr(4095).floor(), VirtPageNum(0));
    assert_eq!(VirtAddr(4095).ceil(), VirtPageNum(1));
    assert_eq!(VirtAddr(4096).floor(), VirtPageNum(1));
    assert_eq!(VirtAddr(4096).ceil(), VirtPageNum(1));
    assert_eq!(VirtAddr(4097).ceil(), VirtPageNum(2));
    assert_eq!(VirtAddr(4097).page_offset(), 1);
    assert!(VirtAddr(8192).aligned());
    assert!(!VirtAddr(8193).aligned());
    assert_eq!(VirtAddr(usize::MAX).ceil(), VirtPageNum(usize::MAX / 4096 + 1));
}

#[test]
fn permission_bits_round_trip() {
    let perm = MapPermission::from_bits_truncate(0b0001_0110);
    assert_eq!(perm, MapPermission { readable: true, writable: true, executable: false, user: true });
    assert_eq!(perm.bits(), 0b0001_0110);
    assert_eq!(MapPermission::from_bits_truncate(0xE1), MapPermission::empty());
    assert_eq!(MapPermission::empty().union(MapPermission::user_only()).bits(), 16);
}

#[test]
fn insert_and_query_regions() {
    let mut set = MemorySet::new_bare(7);
    assert_eq!(set.token(), 7);
    assert_eq!(set.area_count(), 0);
    set.insert_framed_area(VirtAddr(0x1000), VirtAddr(0x2800), rw());
    assert_eq!(set.area_count(), 1);
    assert_eq!(set.area(0), (1, 3, rw()));
    assert!(set.is_mapped(1));
    assert!(set.is_mapped(2));
    assert!(!set.is_mapped(0));
    assert!(!set.is_mapped(3));
    assert!(set.check_overlap(VirtAddr(0x2000), VirtAddr(0x5000)));
    assert!(set.check_overlap(VirtAddr(0), VirtAddr(0x1001)));
    assert!(!set.check_overlap(VirtAddr(0), VirtAddr(0x1000)));
    assert!(!set.check_overlap(VirtAddr(0x3000), VirtAddr(0x4000)));
    assert!(!set.check_overlap(VirtAddr(0x2000), VirtAddr(0x2000)));
    assert!(!set.check_gap(VirtAddr(0x1000), VirtAddr(0x3000)));
    assert!(set.check_gap(VirtAddr(0x1000), VirtAddr(0x3001)));
    assert!(set.check_gap(VirtAddr(0), VirtAddr(0x2000)));
    assert!(!set.check_gap(VirtAddr(0x5000), VirtAddr(0x5000)));
}

#[test]
fn empty_range_inserts_nothing() {
    let mut set = MemorySet::new_bare(0);
    set.insert_framed_area(VirtAddr(0x4000), VirtAddr(0x4000), rw());
    assert_eq!(set.area_count(), 0);
}

#[test]
fn remove_takes_whole_regions_only() {
    let mut set = MemorySet::new_bare(0);
    set.insert_framed_area(VirtAddr(0x1000), VirtAddr(0x3000), rw());
    set.insert_framed_area(VirtAddr(0x3000), VirtAddr(0x4000), rw());
    set.insert_framed_area(VirtAddr(0x8000), VirtAddr(0x9000), rw());
    assert!(!set.remove_framed_area(VirtAddr(0x1000), VirtAddr(0x2000)));
    assert!(!set.remove_framed_area(VirtAddr(0x2000), VirtAddr(0x4000)));
    assert_eq!(set.area_count(), 3);
    assert!(set.remove_framed_area(VirtAddr(0x1000), VirtAddr(0x4000)));
    assert_eq!(set.area_count(), 1);
    assert_eq!(set.area(0), (8, 9, rw()));
    assert!(set.remove_framed_area(VirtAddr(0x5000), VirtAddr(0x6000)));
    assert_eq!(set.area_count(), 1);
}

#[test]
fn fresh_pages_read_as_zero() {
    let mut set = MemorySet::new_bare(0);
    set.insert_framed_area(VirtAddr(0x1000), VirtAddr(0x2000), rw());
    assert_eq!(set.read_bytes(0x1ff0, 16), Some(vec![0u8; 16]));
    assert_eq!(set.read_byte(0x1000), Some(0));
    assert_eq!(set.read_byte(0x2000), None);
}

#[test]
fn bytes_written_across_pages_read_back() {
    let mut set = MemorySet::new_bare(0);
    set.insert_framed_area(VirtAddr(0x1000), VirtAddr(0x2000), rw());
    set.insert_framed_area(VirtAddr(0x2000), VirtAddr(0x3000), rw());
    let data: Vec<u8> = (1..=10).collect();
    assert!(set.write_bytes(0x1ffb, &data));
    assert_eq!(set.read_bytes(0x1ffb, 10), Some(data.clone()));
    assert_eq!(set.read_bytes(0x1ffa, 12), Some(vec![0, 1, 2, 3, 4, 5, 6, 7, 8, 9, 10, 0]));
    assert_eq!(set.read_byte(0x1fff), Some(5));
    assert_eq!(set.read_byte(0x2000), Some(6));
}

#[test]
fn translation_splits_at_page_boundaries() {
    let mut set = MemorySet::new_bare(0);
    set.insert_framed_area(VirtAddr(0x3000), VirtAddr(0x4000), rw());
    set.insert_framed_area(VirtAddr(0x1000), VirtAddr(0x3000), rw());
    let ranges = set.translated_byte_buffer(0x1ff0, 0x1020).unwrap();
    assert_eq!(ranges.len(), 3);
    assert_eq!((ranges[0].offset, ranges[0].area, ranges[0].page), (0, 1, 0));
    assert_eq!((ranges[0].start, ranges[0].end), (0xff0, 0x1000));
    assert_eq!((ranges[1].offset, ranges[1].area, ranges[1].page), (0x10, 1, 1));
    assert_eq!((ranges[1].start, ranges[1].end), (0, 0x1000));
    assert_eq!((ranges[2].offset, ranges[2].area, ranges[2].page), (0x1010, 0, 0));
    assert_eq!((ranges[2].start, ranges[2].end), (0, 0x10));
    assert_eq!(set.translated_byte_buffer(0x1000, 0).unwrap().len(), 0);
    assert!(set.translated_byte_buffer(0x3ff0, 0x11).is_none());
    assert!(set.translated_byte_buffer(0xfff, 2).is_none());
    assert!(set.translated_byte_buffer(usize::MAX, 2).is_none());
}

#[test]
fn refused_write_changes_nothing() {
    let mut set = MemorySet::new_bare(0);
    set.insert_framed_area(VirtAddr(0x1000), VirtAddr(0x2000), rw());
    assert!(!set.write_bytes(0x1ffe, &[1, 2, 3]));
    assert_eq!(set.read_bytes(0x1ffe, 2), Some(vec![0, 0]));
}

#[test]
fn strings_end_at_the_first_zero() {
    let mut set = MemorySet::new_bare(0);
    set.insert_framed_area(VirtAddr(0x1000), VirtAddr(0x3000), rw());
    assert!(set.write_bytes(0x1ffd, b"hello\0world\0"));
    assert_eq!(set.translated_str(0x1ffd), Some(b"hello".to_vec()));
    assert_eq!(set.translated_str(0x2003), Some(b"world".to_vec()));
    assert_eq!(set.translated_str(0x2002), Some(Vec::new()));
    assert_eq!(set.translated_str(0x5000), None);
    let fill = vec![b'a'; 16];
    assert!(set.write_bytes(0x2ff0, &fill));
    assert_eq!(set.translated_str(0x2ff0), None);
}

#[test]
fn shrink_and_append_resize_a_region() {
    let mut set = MemorySet::new_bare(0);
    set.insert_framed_area(VirtAddr(0x1000), VirtAddr(0x3000), rw());
    set.insert_framed_area(VirtAddr(0x5000), VirtAddr(0x6000), rw());
    assert!(set.write_bytes(0x1000, &[9]));
    assert!(set.write_bytes(0x2000, &[8]));
    assert!(set.append_to(VirtAddr(0x1000), VirtAddr(0x4001)));
    assert_eq!(set.area(0), (1, 5, rw()));
    assert_eq!(set.read_byte(0x1000), Some(9));
    assert_eq!(set.read_byte(0x2000), Some(8));
    assert_eq!(set.read_byte(0x4fff), Some(0));
    assert!(!set.append_to(VirtAddr(0x1000), VirtAddr(0x5001)));
    assert!(!set.append_to(VirtAddr(0x2000), VirtAddr(0x5000)));
    assert!(!set.append_to(VirtAddr(0x1000), VirtAddr(0x2000)));
    assert_eq!(set.area(0), (1, 5, rw()));
    assert!(set.shrink_to(VirtAddr(0x1000), VirtAddr(0x2000)));
    assert_eq!(set.area(0), (1, 2, rw()));
    assert_eq!(set.read_byte(0x1000), Some(9));
    assert_eq!(set.read_byte(0x2000), None);
    assert!(!set.shrink_to(VirtAddr(0x1000), VirtAddr(0x3000)));
    assert!(!set.shrink_to(VirtAddr(0x1000), VirtAddr(0)));
    assert!(!set.shrink_to(VirtAddr(0x7000), VirtAddr(0x7000)));
    assert!(set.shrink_to(VirtAddr(0x1000), VirtAddr(0x1000)));
    assert_eq!(set.area_count(), 1);
    assert_eq!(set.area(0), (5, 6, rw()));
    set.recycle_data_pages();
    assert_eq!(set.area_count(), 0);
}
