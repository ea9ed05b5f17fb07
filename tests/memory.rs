use flow_core::batcher::PhysicalMemoryBatcher;
use flow_core::error::Error;
use flow_core::phys_mem::{MemoryBackend, MemoryMapping, PhysicalMemory, PhysicalReadData, PhysicalWriteData};
use flow_core::section::Section;
use flow_core::text::truncate_at_nul;
use flow_core::types::{Address, Length, PageType, PhysicalAddress};

fn at(a: u64) -> PhysicalAddress {
    PhysicalAddress::from_address(Address(a))
}

#[test]
fn backend_reads_and_writes() {
    let mut mem = MemoryBackend::new((0..32u8).collect());
    assert_eq!(mem.phys_read_raw(at(4), 3).unwrap(), vec![4, 5, 6]);
    mem.phys_write_raw(at(5), &vec![9, 9]).unwrap();
    assert_eq!(mem.phys_read_raw(at(4), 4).unwrap(), vec![4, 9, 9, 7]);
    let md = mem.metadata();
    assert_eq!(md.size, 32);
    assert!(!md.readonly);
}

#[test]
fn backend_rejects_out_of_bounds() {
    let mut mem = MemoryBackend::new(vec![0; 16]);
    assert_eq!(mem.phys_read_raw(at(14), 4), Err(Error::OutOfBounds));
    assert_eq!(mem.phys_write_raw(at(16), &vec![1]), Err(Error::OutOfBounds));
    // an empty request reads nothing and needs no room
    assert_eq!(mem.phys_read_raw(at(100), 0), Ok(vec![]));
}

#[test]
fn read_only_backend_refuses_writes() {
    let mut mem = MemoryBackend::new_readonly(vec![0; 16]);
    assert_eq!(mem.phys_write_raw(at(0), &vec![1]), Err(Error::ReadOnly));
    assert!(mem.metadata().readonly);
}

#[test]
fn later_writes_of_a_batch_win() {
    let mut mem = MemoryBackend::new(vec![0; 8]);
    let batch = vec![PhysicalWriteData(at(0), vec![1, 1, 1]), PhysicalWriteData(at(2), vec![2, 2])];
    mem.phys_write_raw_list(&batch).unwrap();
    assert_eq!(mem.bytes(), &vec![1, 1, 2, 2, 0, 0, 0, 0]);
}

#[test]
fn batched_reads_fill_each_buffer() {
    let mut mem = MemoryBackend::new((0..16u8).collect());
    let mut batch = vec![PhysicalReadData(at(8), vec![0; 2]), PhysicalReadData(at(0), vec![0; 3])];
    mem.phys_read_raw_list(&mut batch).unwrap();
    assert_eq!(batch[0].1, vec![8, 9]);
    assert_eq!(batch[1].1, vec![0, 1, 2]);
    assert_eq!(mem.read_calls(), 1);
    mem.set_mem_map(vec![MemoryMapping { base: Address(0), size: 16, real_base: Address(0) }]);
    assert_eq!(mem.phys_read_raw(at(15), 1).unwrap(), vec![15]);
}

#[test]
fn char_array_stops_at_nul() {
    let mut m = b"kernel32\0junk".to_vec();
    m.resize(64, 0x41);
    let mut mem = MemoryBackend::new(m);
    assert_eq!(mem.phys_read_char_array(at(0), 12).unwrap(), "kernel32");
    assert_eq!(mem.phys_read_char_array(at(0), 6).unwrap(), "kernel");
    assert_eq!(mem.phys_read_char_array(at(0), 0).unwrap(), "");
}

#[test]
fn char_string_reads_until_nul() {
    let mut m = vec![0x42u8; 8192];
    m[100] = 0;
    let mut mem = MemoryBackend::new(m);
    let s = mem.phys_read_char_string(at(0)).unwrap();
    assert_eq!(s.len(), 100);
    assert_eq!(mem.phys_read_char_string(at(100)).unwrap(), "");
}

#[test]
fn char_string_without_nul_fails() {
    let mut mem = MemoryBackend::new(vec![0x42u8; 8192]);
    assert_eq!(mem.phys_read_char_string(at(0)), Err(Error::OutOfBounds));
}

#[test]
fn invalid_utf8_becomes_replacement() {
    let mut mem = MemoryBackend::new(vec![0x66, 0xff, 0x67, 0]);
    assert_eq!(mem.phys_read_char_array(at(0), 4).unwrap(), "f\u{fffd}g");
}

#[test]
fn truncate_at_first_nul() {
    let mut b = vec![1, 2, 0, 3, 0];
    assert!(truncate_at_nul(&mut b));
    assert_eq!(b, vec![1, 2]);
    let mut c = vec![1, 2];
    assert!(!truncate_at_nul(&mut c));
    assert_eq!(c, vec![1, 2]);
}

#[test]
fn section_from_parts() {
    let s = Section::from_parts(b".text\0\0\0".to_vec(), 0x1000, 0x2345, 0x2400, 0x6000_0020);
    assert_eq!(s.name(), ".text\0\0\0");
    assert_eq!(s.virt_addr(), Address(0x1000));
    assert_eq!(s.virt_size(), Length(0x2345));
    assert_eq!(s.size_of_raw_data, Length(0x2400));
    assert_eq!(s.characteristics, 0x6000_0020);
    let bad = Section::from_parts(vec![0xff, 0xfe, 0, 0, 0, 0, 0, 0], 0, 0, 0, 0);
    assert_eq!(bad.name(), "");
}

#[test]
fn section_from_goblin_header() {
    let mut t = goblin::pe::section_table::SectionTable::default();
    t.name = *b".data\0\0\0";
    t.virtual_address = 0x3000;
    t.virtual_size = 0x100;
    t.size_of_raw_data = 0x200;
    t.characteristics = 0xC000_0040;
    let s = Section::from(&t);
    assert_eq!(s.name(), ".data\0\0\0");
    assert_eq!(s.virt_addr(), Address(0x3000));
    assert_eq!(s.virt_size(), Length(0x100));
    assert_eq!(s.size_of_raw_data, Length(0x200));
}

#[test]
fn types_arithmetic() {
    assert_eq!(Length::from_kb(4).0, 4096);
    assert_eq!(Length::from_mb(2).0, 2 * 1024 * 1024);
    assert_eq!(Length::from_gb(1).0, 1 << 30);
    assert_eq!(Address(0x1000).add_len(Length(0x10)), Address(0x1010));
    assert!(Address(0x2000).is_aligned(Length(0x1000)));
    assert!(!Address(0x2001).is_aligned(Length(0x1000)));
    assert_eq!(Address(0x2345).page_base(Length(0x1000)), Address(0x2000));
    assert!(Address::null().is_null());
    assert!(PageType::read_only().union(PageType::noexec()).contains(PageType::noexec()));
    assert!(!PageType::read_only().intersects(PageType::writeable()));
}

#[test]
fn batcher_reads_then_writes() {
    let mut mem = MemoryBackend::new((0..16u8).collect());
    let mut b = PhysicalMemoryBatcher::new();
    let i0 = b.read_raw(at(2), 2);
    let i1 = b.read_raw(at(10), 3);
    b.write_raw(at(2), vec![0xEE]);
    let bufs = b.commit_rw(&mut mem).unwrap();
    assert_eq!((i0, i1), (0, 1));
    assert_eq!(bufs, vec![vec![2, 3], vec![10, 11, 12]]);
    assert_eq!(mem.bytes()[2], 0xEE);
    assert_eq!(mem.read_calls(), 1);
    let again = b.commit_rw(&mut mem).unwrap();
    assert!(again.is_empty());
    assert_eq!(mem.read_calls(), 1);
}

#[test]
fn scan_stops_at_first_nul() {
    assert_eq!(flow_core::text::scan_char_string(vec![0x61, 0x62, 0, 0x63]), Some("ab".to_string()));
    assert_eq!(flow_core::text::scan_char_string(vec![0x61, 0x62]), None);
    assert_eq!(flow_core::text::scan_char_string(vec![0]), Some(String::new()));
}

#[test]
fn empty_batch_reads_nothing() {
    let mut mem = MemoryBackend::new(vec![0; 16]);
    let mut out = Vec::new();
    flow_core::architecture::Architecture::X64
        .virt_to_phys_iter(&mut mem, Address(0), &Vec::new(), &mut out)
        .unwrap();
    assert!(out.is_empty());
    assert_eq!(mem.read_calls(), 0);
}

#[test]
fn typed_little_endian_reads() {
    let mut mem = MemoryBackend::new(vec![0x78, 0x56, 0x34, 0x12, 0xef, 0xcd, 0xab, 0x90, 0]);
    assert_eq!(mem.phys_read_u32(at(0)).unwrap(), 0x1234_5678);
    assert_eq!(mem.phys_read_u64(at(0)).unwrap(), 0x90ab_cdef_1234_5678);
    assert_eq!(mem.phys_read_u64(at(4)), Err(Error::OutOfBounds));
}

#[test]
fn typed_little_endian_writes() {
    let mut mem = MemoryBackend::new(vec![0; 12]);
    mem.phys_write_u64(at(0), 0x0102_0304_0506_0708).unwrap();
    mem.phys_write_u32(at(8), 0xa1b2_c3d4).unwrap();
    assert_eq!(mem.bytes(), &vec![8, 7, 6, 5, 4, 3, 2, 1, 0xd4, 0xc3, 0xb2, 0xa1]);
    assert_eq!(mem.phys_write_u32(at(10), 1), Err(Error::OutOfBounds));
}
