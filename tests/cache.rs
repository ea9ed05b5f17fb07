use flow_core::architecture::Architecture;
use flow_core::cached_memory_access::{CachedMemoryAccess, CachedMemoryAccessBuilder};
use flow_core::error::Error;
use flow_core::page_cache::{AlwaysValid, CountValidator, NeverValid, PageCache};
use flow_core::phys_mem::{MemoryBackend, PhysicalMemory, PhysicalReadData, PhysicalWriteData};
use flow_core::types::{Address, Length, PageType, PhysicalAddress};

fn ro(addr: u64) -> PhysicalAddress {
    PhysicalAddress::with_page(Address(addr), PageType::read_only(), 4096)
}

fn backend_with_aa_page() -> MemoryBackend {
    let mut m = vec![0u8; 0x3000];
    for b in &mut m[0x1000..0x2000] {
        *b = 0xAA;
    }
    MemoryBackend::new(m)
}

fn cached<Q: flow_core::page_cache::CacheValidator>(
    mem: MemoryBackend,
    validator: Q,
    cache_size: u64,
) -> CachedMemoryAccess<MemoryBackend, Q> {
    CachedMemoryAccess::builder()
        .mem(mem)
        .validator(validator)
        .page_size(Length(4096))
        .cache_size(Length(cache_size))
        .build()
        .unwrap()
}

#[test]
fn cache_hit_needs_no_backend_read() {
    let mut c = cached(backend_with_aa_page(), AlwaysValid, 16 * 1024);
    let first = c.phys_read_raw(ro(0x1000), 8).unwrap();
    assert_eq!(first, vec![0xAA; 8]);
    assert_eq!(c.backend().read_calls(), 1);
    let second = c.phys_read_raw(ro(0x1008), 8).unwrap();
    assert_eq!(second, vec![0xAA; 8]);
    assert_eq!(c.backend().read_calls(), 1);
}

#[test]
fn write_through_updates_cached_page() {
    let mut c = cached(backend_with_aa_page(), AlwaysValid, 16 * 1024);
    c.phys_read_raw(ro(0x1000), 16).unwrap();
    assert_eq!(c.backend().read_calls(), 1);
    c.phys_write_raw(ro(0x1004), &vec![0xFF]).unwrap();
    let r = c.phys_read_raw(ro(0x1004), 1).unwrap();
    assert_eq!(r, vec![0xFF]);
    assert_eq!(c.backend().read_calls(), 1);
    assert_eq!(c.backend().bytes()[0x1004], 0xFF);
    assert_eq!(c.backend().bytes()[0x1003], 0xAA);
}

#[test]
fn uncached_page_type_bypasses_cache() {
    let mut c = cached(backend_with_aa_page(), AlwaysValid, 16 * 1024);
    let w = PhysicalAddress::with_page(Address(0x1000), PageType::writeable(), 4096);
    c.phys_read_raw(w, 8).unwrap();
    c.phys_read_raw(w, 8).unwrap();
    assert_eq!(c.backend().read_calls(), 2);
}

#[test]
fn never_valid_reads_backend_each_time() {
    let mut c = cached(backend_with_aa_page(), NeverValid, 16 * 1024);
    c.phys_read_raw(ro(0x1000), 8).unwrap();
    c.phys_read_raw(ro(0x1000), 8).unwrap();
    assert_eq!(c.backend().read_calls(), 2);
}

#[test]
fn count_validator_expires_slots() {
    let mut c = cached(backend_with_aa_page(), CountValidator::new(2), 16 * 1024);
    c.phys_read_raw(ro(0x1000), 8).unwrap();
    c.phys_read_raw(ro(0x1000), 8).unwrap();
    assert_eq!(c.backend().read_calls(), 1);
    c.phys_read_raw(ro(0x1000), 8).unwrap();
    assert_eq!(c.backend().read_calls(), 2);
}

#[test]
fn cached_reads_equal_uncached_reads() {
    let mut m = vec![0u8; 0x4000];
    for (i, b) in m.iter_mut().enumerate() {
        *b = (i * 7 % 251) as u8;
    }
    let mut plain = MemoryBackend::new(m.clone());
    let mut c = cached(MemoryBackend::new(m), AlwaysValid, 4096);
    let reads: [(u64, usize); 7] =
        [(0x0ff0, 40), (0x1000, 4096), (0x2ffc, 9), (0x0ff8, 8), (0x1234, 0), (0x3ff0, 16), (0x0000, 3)];
    for _ in 0..2 {
        for &(a, n) in reads.iter() {
            let x = c.phys_read_raw(ro(a), n).unwrap();
            let y = plain.phys_read_raw(ro(a), n).unwrap();
            assert_eq!(x, y);
        }
    }
}

#[test]
fn batched_cached_read_spans_pages() {
    let mut m = vec![0u8; 0x3000];
    for (i, b) in m.iter_mut().enumerate() {
        *b = (i % 256) as u8;
    }
    let mut c = cached(MemoryBackend::new(m.clone()), AlwaysValid, 8192);
    let mut batch = vec![
        PhysicalReadData(ro(0x0ffe), vec![0; 4]),
        PhysicalReadData(PhysicalAddress::from_address(Address(0x10)), vec![0; 3]),
        PhysicalReadData(ro(0x2000), vec![0; 2]),
    ];
    c.phys_read_raw_list(&mut batch).unwrap();
    assert_eq!(c.backend().read_calls(), 1);
    assert_eq!(batch[0].1, m[0x0ffe..0x1002].to_vec());
    assert_eq!(batch[1].1, m[0x10..0x13].to_vec());
    assert_eq!(batch[2].1, m[0x2000..0x2002].to_vec());
}

#[test]
fn failed_write_reports_read_only() {
    let mem = MemoryBackend::new_readonly(vec![0x11; 0x2000]);
    let mut c = cached(mem, AlwaysValid, 8192);
    assert_eq!(c.phys_read_raw(ro(0x1000), 4).unwrap(), vec![0x11; 4]);
    let r = c.phys_write_raw_list(&vec![PhysicalWriteData(ro(0x1000), vec![0x22])]);
    assert_eq!(r, Err(Error::ReadOnly));
    assert_eq!(c.phys_read_raw(ro(0x1000), 4).unwrap(), vec![0x11; 4]);
    assert_eq!(c.backend().read_calls(), 2);
}

#[test]
fn out_of_bounds_read_fails() {
    let mut c = cached(MemoryBackend::new(vec![0; 0x1000]), AlwaysValid, 8192);
    assert_eq!(c.phys_read_raw(ro(0x2000), 4), Err(Error::OutOfBounds));
    assert_eq!(c.metadata().size, 0x1000);
}

#[test]
fn builder_reports_missing_parts() {
    let b: CachedMemoryAccessBuilder<MemoryBackend, AlwaysValid> = CachedMemoryAccess::builder();
    assert!(matches!(b.build(), Err(Error::Configuration)));
    let b: CachedMemoryAccessBuilder<MemoryBackend, AlwaysValid> =
        CachedMemoryAccess::builder().mem(MemoryBackend::new(vec![0; 16])).page_size(Length(4096));
    assert!(matches!(b.build(), Err(Error::Configuration)));
    let b = CachedMemoryAccess::builder()
        .mem(MemoryBackend::new(vec![0; 16]))
        .validator(AlwaysValid)
        .page_size(Length(4096))
        .cache_size(Length(1024));
    assert!(matches!(b.build(), Err(Error::Configuration)));
    let b = CachedMemoryAccess::builder()
        .mem(MemoryBackend::new(vec![0; 16]))
        .validator(AlwaysValid)
        .arch(Architecture::X64)
        .page_type_mask(PageType::page_table());
    let c = b.build().unwrap();
    assert_eq!(c.page_size().0, 4096);
}

#[test]
fn page_cache_construction() {
    let cache = PageCache::with_page_size(Length(4096), Length::from_mb(2), PageType::read_only(), AlwaysValid);
    assert_eq!(cache.page_size().0, 4096);
    assert!(cache.is_cached_page_type(PageType::read_only().union(PageType::noexec())));
    assert!(!cache.is_cached_page_type(PageType::writeable()));
    let c = CachedMemoryAccess::with(MemoryBackend::new(vec![1, 2, 3]), cache);
    assert_eq!(c.backend().bytes(), &vec![1, 2, 3]);
}

#[test]
fn translation_through_cache() {
    let mut m = vec![0u8; 0x5000];
    m[0x1000..0x1008].copy_from_slice(&(0x2003u64).to_le_bytes());
    m[0x2000..0x2008].copy_from_slice(&(0x3003u64).to_le_bytes());
    m[0x3010..0x3018].copy_from_slice(&(0x4003u64).to_le_bytes());
    m[0x4008..0x4010].copy_from_slice(&(0x7777_1003u64).to_le_bytes());
    let mut c = cached(MemoryBackend::new(m), AlwaysValid, 64 * 1024);
    let a = Architecture::X64.virt_to_phys(&mut c, Address(0x1000), Address(0x0040_1234)).unwrap();
    assert_eq!(a.address, Address(0x7777_1234));
    assert_eq!(c.backend().read_calls(), 4);
    let b = Architecture::X64.virt_to_phys(&mut c, Address(0x1000), Address(0x0040_1234)).unwrap();
    assert_eq!(a, b);
    assert_eq!(c.backend().read_calls(), 4);
}
