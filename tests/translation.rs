use flow_core::architecture::{x64, x86, x86_pae, Architecture, ByteOrder};
use flow_core::error::Error;
use flow_core::phys_mem::MemoryBackend;
use flow_core::types::{
    Address, PhysicalAddress, PAGE_TYPE_NOEXEC, PAGE_TYPE_PAGE_TABLE, PAGE_TYPE_READ_ONLY, PAGE_TYPE_UNKNOWN,
    PAGE_TYPE_WRITEABLE,
};

fn put_u64(mem: &mut Vec<u8>, at: usize, v: u64) {
    mem[at..at + 8].copy_from_slice(&v.to_le_bytes());
}

fn put_u32(mem: &mut Vec<u8>, at: usize, v: u32) {
    mem[at..at + 4].copy_from_slice(&v.to_le_bytes());
}

/// Four-level tables rooted at 0x1000: PML4[0] -> 0x2000, PDPT[0] -> 0x3000,
/// PD[2] = `pd2`, and PT[1] at 0x4008 = `pt1`.
fn x64_tables(pd2: u64, pt1: u64) -> MemoryBackend {
    let mut m = vec![0u8; 0x5000];
    put_u64(&mut m, 0x1000, 0x2000 | 3);
    put_u64(&mut m, 0x2000, 0x3000 | 3);
    put_u64(&mut m, 0x3000 + 2 * 8, pd2);
    put_u64(&mut m, 0x4000 + 8, pt1);
    MemoryBackend::new(m)
}

const DTB: Address = Address(0x1000);

#[test]
fn null_architecture_is_identity() {
    let mut mem = MemoryBackend::new(vec![0u8; 16]);
    let r = Architecture::Null.virt_to_phys(&mut mem, Address(0), Address(0xDEAD_BEEF)).unwrap();
    assert_eq!(r.address, Address(0xDEAD_BEEF));
    assert_eq!(r.page_type.0, PAGE_TYPE_UNKNOWN);
    assert_eq!(r.page_size, 0);
    assert_eq!(mem.read_calls(), 0);
}

#[test]
fn x64_four_kib_walk() {
    let mut mem = x64_tables(0x4000 | 3, 0x7777_1000 | 3);
    let r = Architecture::X64.virt_to_phys(&mut mem, DTB, Address(0x0040_1234)).unwrap();
    assert_eq!(r.address, Address(0x7777_1234));
    assert_eq!(r.page_size, 4096);
    assert_eq!(r.page_type.0, PAGE_TYPE_WRITEABLE | PAGE_TYPE_PAGE_TABLE);
    assert_eq!(mem.read_calls(), 4);
}

#[test]
fn x64_two_mib_large_page() {
    let mut mem = x64_tables(0x8000_0000 | 0x83, 0);
    let r = Architecture::X64.virt_to_phys(&mut mem, DTB, Address(0x0040_1234)).unwrap();
    assert_eq!(r.address, Address(0x8000_1234));
    assert_eq!(r.page_size, 2 * 1024 * 1024);
    assert_eq!(r.page_type.0, PAGE_TYPE_WRITEABLE);
    assert_eq!(mem.read_calls(), 3);
}

#[test]
fn x64_page_not_present() {
    let mut mem = x64_tables(0x4000 | 3, 0x7777_1000 | 2);
    let r = Architecture::X64.virt_to_phys(&mut mem, DTB, Address(0x0040_1234));
    assert_eq!(r, Err(Error::PageNotPresent));
}

#[test]
fn x64_entry_beyond_physical_width() {
    let mut mem = x64_tables(0x4000 | 3, (1u64 << 60) | 0x7777_1000 | 3);
    let r = Architecture::X64.virt_to_phys(&mut mem, DTB, Address(0x0040_1234));
    assert_eq!(r, Err(Error::InvalidPageTable));
}

#[test]
fn x64_no_execute_read_only_page() {
    let mut mem = x64_tables(0x4000 | 3, (1u64 << 63) | 0x7777_1000 | 1);
    let r = Architecture::X64.virt_to_phys(&mut mem, DTB, Address(0x0040_1234)).unwrap();
    assert_eq!(r.address, Address(0x7777_1234));
    assert_eq!(r.page_type.0, PAGE_TYPE_READ_ONLY | PAGE_TYPE_NOEXEC | PAGE_TYPE_PAGE_TABLE);
}

#[test]
fn backend_failure_fails_the_batch() {
    let mut mem = x64_tables(0x4000 | 3, 0x7777_1000 | 3);
    let mut out = Vec::new();
    let addrs = vec![Address(0x0040_1234)];
    let r = Architecture::X64.virt_to_phys_iter(&mut mem, Address(0x10_0000), &addrs, &mut out);
    assert_eq!(r, Err(Error::OutOfBounds));
    assert!(out.is_empty());
}

#[test]
fn batch_matches_single_translations() {
    let mut mem = x64_tables(0x4000 | 3, 0x7777_1000 | 3);
    let addrs = vec![
        Address(0x0040_1234),
        Address(0x0040_1ff8),
        Address(0x0040_2000),
        Address(0x0080_0000_0000),
        Address(0x0040_1000),
    ];
    let mut out = vec![Err(Error::Io)];
    Architecture::X64.virt_to_phys_iter(&mut mem, DTB, &addrs, &mut out).unwrap();
    assert_eq!(out.len(), 1 + addrs.len());
    assert_eq!(out[0], Err(Error::Io));
    // at most one batched read per level for the whole batch
    assert_eq!(mem.read_calls(), 4);
    for (i, a) in addrs.iter().enumerate() {
        let single = Architecture::X64.virt_to_phys(&mut mem, DTB, *a);
        assert_eq!(out[1 + i], single);
    }
    assert_eq!(out[1].unwrap().address, Address(0x7777_1234));
    assert_eq!(out[2].unwrap().address, Address(0x7777_1ff8));
    assert_eq!(out[3], Err(Error::PageNotPresent));
    assert_eq!(out[4], Err(Error::PageNotPresent));
}

#[test]
fn translation_is_deterministic() {
    let mut mem = x64_tables(0x4000 | 3, 0x7777_1000 | 3);
    let a = Architecture::X64.virt_to_phys(&mut mem, DTB, Address(0x0040_1234));
    let b = Architecture::X64.virt_to_phys(&mut mem, DTB, Address(0x0040_1234));
    assert_eq!(a, b);
}

#[test]
fn split_address_translates_the_same() {
    let mut mem = x64_tables(0x4000 | 3, 0x7777_1000 | 3);
    let v: u64 = 0x0040_1234;
    let ps: u64 = 4096;
    let w = (v & !(ps - 1)) + (v & (ps - 1));
    let a = Architecture::X64.virt_to_phys(&mut mem, DTB, Address(v));
    let b = Architecture::X64.virt_to_phys(&mut mem, DTB, Address(w));
    assert_eq!(a, b);
}

#[test]
fn same_leaf_same_page_base() {
    let mut mem = x64_tables(0x8000_0000 | 0x83, 0);
    let a = Architecture::X64.virt_to_phys(&mut mem, DTB, Address(0x0040_1234)).unwrap();
    let b = Architecture::X64.virt_to_phys(&mut mem, DTB, Address(0x005f_fff0)).unwrap();
    assert_eq!(a.page_base(), b.page_base());
    assert_eq!(a.page_base(), Address(0x8000_0000));
    assert_eq!(b.address, Address(0x801f_fff0));
}

#[test]
fn x86_two_level_walk() {
    let mut m = vec![0u8; 0x3000];
    put_u32(&mut m, 0x1000 + 4, 0x2000 | 3);
    put_u32(&mut m, 0x2000 + 4, 0x5555_5000 | 1);
    let mut mem = MemoryBackend::new(m);
    let r = Architecture::X86.virt_to_phys(&mut mem, DTB, Address(0x0040_1234)).unwrap();
    assert_eq!(r.address, Address(0x5555_5234));
    assert_eq!(r.page_size, 4096);
    assert_eq!(r.page_type.0, PAGE_TYPE_READ_ONLY | PAGE_TYPE_PAGE_TABLE);
}

#[test]
fn x86_four_mib_page() {
    let mut m = vec![0u8; 0x2000];
    put_u32(&mut m, 0x1000 + 4, 0x0080_0000 | 0x83);
    let mut mem = MemoryBackend::new(m);
    let r = Architecture::X86.virt_to_phys(&mut mem, DTB, Address(0x0040_1234)).unwrap();
    assert_eq!(r.address, Address(0x0080_1234));
    assert_eq!(r.page_size, 4 * 1024 * 1024);
}

#[test]
fn x86_pae_three_level_walk() {
    let mut m = vec![0u8; 0x4000];
    put_u64(&mut m, 0x1000, 0x2000 | 1);
    put_u64(&mut m, 0x2000 + 2 * 8, 0x3000 | 3);
    put_u64(&mut m, 0x3000 + 8, 0x6666_6000 | 3);
    let mut mem = MemoryBackend::new(m);
    let r = Architecture::X86Pae.virt_to_phys(&mut mem, DTB, Address(0x0040_1234)).unwrap();
    assert_eq!(r.address, Address(0x6666_6234));
    assert_eq!(r.page_size, 4096);
}

#[test]
fn architecture_tags_round_trip() {
    for a in [Architecture::Null, Architecture::X64, Architecture::X86Pae, Architecture::X86] {
        assert_eq!(Architecture::try_from(a.as_u8()), Ok(a));
    }
    assert_eq!(Architecture::X64.as_u8(), 1);
    assert_eq!(Architecture::try_from(1), Ok(Architecture::X64));
    assert_eq!(Architecture::try_from(3), Ok(Architecture::X86));
    for b in 4..=255u8 {
        assert_eq!(Architecture::try_from(b), Err(Error::InvalidArchitecture));
    }
}

#[test]
fn architecture_properties() {
    assert_eq!(Architecture::X86Pae.bits(), 32);
    assert_eq!(Architecture::X64.bits(), 64);
    assert_eq!(Architecture::Null.bits(), 64);
    assert_eq!(Architecture::X86.byte_order(), ByteOrder::LittleEndian);
    assert_eq!(Architecture::X64.page_size().0, 4096);
    assert_eq!(Architecture::X86.len_addr().0, 4);
    assert_eq!(Architecture::X64.len_addr().0, 8);
}

#[test]
fn x64_module_values() {
    assert_eq!(x64::bits(), 64);
    assert_eq!(x64::endianess(), ByteOrder::LittleEndian);
    assert_eq!(x64::len_addr().0, 8);
    assert_eq!(x64::page_size().0, 4096);
    assert_eq!(x64::page_size_level(1).0, 4096);
    assert_eq!(x64::page_size_level(2).0, 2 * 1024 * 1024);
    assert_eq!(x64::page_size_level(3).0, 1024 * 1024 * 1024);
    let spec = x64::get_mmu_spec();
    assert_eq!(spec.virtual_address_splits, vec![9, 9, 9, 9, 12]);
    assert_eq!(spec.valid_final_page_steps, vec![2, 3, 4]);
    assert_eq!(spec.address_space_bits, 52);
    assert_eq!(spec.pte_size, 8);
    assert_eq!(x86::page_size_level(2).0, 4 * 1024 * 1024);
    assert_eq!(x86_pae::page_size_level(2).0, 2 * 1024 * 1024);
    assert_eq!(x86_pae::bits(), 32);
}

#[test]
fn physical_address_from_address() {
    let p = PhysicalAddress::from_address(Address(0x1234));
    assert_eq!(p.address, Address(0x1234));
    assert!(!p.has_page_size());
}
