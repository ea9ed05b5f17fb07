use vstd::prelude::*;
use bumpalo::Bump;
use crate::architecture::Architecture;
use crate::error::Error;
use crate::page_cache::{CacheValidator, PageCache, all_empty, any_overflow, any_write_overflow, page_of};
use crate::phys_mem::{
    MemoryMapping, PhysicalMemory, PhysicalMemoryMetadata, PhysicalReadData, PhysicalWriteData,
};
use crate::types::{Length, PageType, PAGE_TYPE_PAGE_TABLE, PAGE_TYPE_READ_ONLY};

verus! {

#[verifier::external_type_specification]
#[verifier::external_body]
pub struct ExBump<const MIN_ALIGN: usize>(bumpalo::Bump<MIN_ALIGN>);

/// Relies on bumpalo's `Bump::new`: a fresh arena with nothing allocated.
#[verifier::external_body]
fn new_arena() -> (r: Bump) {
    Bump::new()
}

/// Relies on bumpalo's `Bump::reset`: releases everything the arena holds at
/// once, keeping its largest chunk for reuse.
#[verifier::external_body]
fn reset_arena(arena: &mut Bump) {
    arena.reset()
}

/// A physical memory backend with a page cache in front of it.
///
/// Reads are served from the cache where it holds the page, and the cache
/// always holds what the backend holds; so reading through it returns the
/// same bytes as reading the backend directly.
///
/// The arena is reset at the start of every batched read. The scratch pages
/// of a read are owned vectors rather than arena slices, because a batch of
/// requests owns its buffers and the backend hands them back filled.
pub struct CachedMemoryAccess<T, Q> {
    mem: T,
    cache: PageCache<Q>,
    arena: Bump,
    reads: Ghost<Seq<Seq<PhysicalReadData>>>,
    oks: Ghost<Seq<bool>>,
    writes: Ghost<Seq<Seq<PhysicalWriteData>>>,
}

impl<T: PhysicalMemory, Q: CacheValidator> CachedMemoryAccess<T, Q> {
    /// Puts `cache` in front of `mem`.
    pub fn with(mem: T, cache: PageCache<Q>) -> (r: Self)
        requires
            mem.inv(),
            cache.wf(),
            cache.coherent(mem.phys_view()),
        ensures
            r.inv(),
            r.phys_view() == mem.phys_view(),
            r.backend_spec() == mem,
            r.cache_page_size() == cache.page_size_spec(),
            r.cache_spec() == cache,
            r.read_log().len() == 0,
            r.write_log().len() == 0,
    {
        CachedMemoryAccess { mem, cache, arena: new_arena(), reads: Ghost(Seq::empty()), oks: Ghost(Seq::empty()), writes: Ghost(Seq::empty()) }
    }

    pub fn builder() -> (r: CachedMemoryAccessBuilder<T, Q>)
        ensures
            r.wf(),
            r.mem_spec() is None,
            r.validator_spec() is None,
            r.page_size_spec() is None,
            r.cache_size_spec().0 == 2 * 1024 * 1024,
            r.page_type_mask_spec().0 == PAGE_TYPE_PAGE_TABLE | PAGE_TYPE_READ_ONLY,
    {
        CachedMemoryAccessBuilder::default()
    }

    pub closed spec fn backend_spec(&self) -> T {
        self.mem
    }

    pub closed spec fn cache_spec(&self) -> PageCache<Q> {
        self.cache
    }

    pub closed spec fn cache_page_size(&self) -> u64 {
        self.cache.page_size_spec()
    }

    /// The backend behind the cache.
    pub fn backend(&self) -> (r: &T)
        ensures
            *r == self.backend_spec(),
    {
        &self.mem
    }

    /// The page size of the cache.
    pub fn page_size(&self) -> (r: Length)
        ensures
            r.0 == self.cache_page_size(),
    {
        self.cache.page_size()
    }
}

impl<T: PhysicalMemory, Q: CacheValidator> PhysicalMemory for CachedMemoryAccess<T, Q> {
    closed spec fn phys_view(&self) -> Seq<u8> {
        self.mem.phys_view()
    }

    closed spec fn inv(&self) -> bool {
        &&& self.mem.inv()
        &&& self.cache.wf()
        &&& self.cache.coherent(self.mem.phys_view())
    }

    closed spec fn read_log(&self) -> Seq<Seq<PhysicalReadData>> {
        self.reads@
    }

    closed spec fn write_log(&self) -> Seq<Seq<PhysicalWriteData>> {
        self.writes@
    }

    closed spec fn read_oks(&self) -> Seq<bool> {
        self.oks@
    }

    /// Serves the batch through the cache: see `PageCache::cached_read` for
    /// when the backend is read.
    fn phys_read_raw_list(&mut self, data: &mut Vec<PhysicalReadData>) -> (r: Result<(), Error>)
        ensures
            final(self).backend_spec().phys_view() == old(self).backend_spec().phys_view(),
            final(self).backend_spec().write_log() == old(self).backend_spec().write_log(),
            final(self).backend_spec().read_log() == old(self).backend_spec().read_log() || (final(self).backend_spec().read_log().drop_last() == old(self).backend_spec().read_log() && final(self).backend_spec().read_log().len() == old(self).backend_spec().read_log().len() + 1),
            all_empty(old(data)@) ==> r is Ok && final(self).backend_spec().read_log()
                == old(self).backend_spec().read_log(),
            any_overflow(old(data)@) ==> r == Err::<(), Error>(Error::OutOfBounds) && final(self).backend_spec().read_log() == old(self).backend_spec().read_log(),
            old(self).cache_spec().all_hit(old(data)@, final(self).cache_spec().batch_validator_spec())
                ==> final(self).backend_spec().read_log() == old(self).backend_spec().read_log(),
            r is Ok && old(data)@.len() == 1 && old(self).cache_spec().one_cached_page(old(data)@[0]) ==> final(self).cache_spec().holds(page_of(old(data)@[0].0.address.0 as int, old(self).cache_spec().page_size_spec())),
            final(self).cache_spec().batch_validator_spec().refreshed_from(old(self).cache_spec().validator_spec()),
            final(self).backend_spec().read_log().len() > old(self).backend_spec().read_log().len() ==> forall|j: int|
                0 <= j < final(self).backend_spec().read_log().last().len() ==> #[trigger] old(self).cache_spec().backend_request(
                    final(self).backend_spec().read_log().last()[j],
                    old(data)@,
                ),
            final(self).cache_spec().page_size_spec() == old(self).cache_spec().page_size_spec(),
            final(self).cache_spec().slot_count() == old(self).cache_spec().slot_count(),
            final(self).cache_spec().page_type_mask_spec() == old(self).cache_spec().page_type_mask_spec(),
            !any_overflow(old(data)@) && !old(self).cache_spec().all_hit(old(data)@, final(self).cache_spec().batch_validator_spec())
                ==> final(self).backend_spec().read_log().len() == old(self).backend_spec().read_log().len()
                + 1,
    {
        self.reads = Ghost(self.reads@.push(data@));
        reset_arena(&mut self.arena);
        let r = self.cache.cached_read(&mut self.mem, data);
        self.oks = Ghost(self.oks@.push(r is Ok));
        r
    }

    /// Forwards the batch to the backend unchanged, as one batched write,
    /// and updates the cached pages it touches.
    fn phys_write_raw_list(&mut self, data: &Vec<PhysicalWriteData>) -> (r: Result<(), Error>)
        ensures
            final(self).backend_spec().write_log() == old(self).backend_spec().write_log().push(data@),
            final(self).backend_spec().read_log() == old(self).backend_spec().read_log(),
            forall|p: u64| #[trigger] final(self).cache_spec().holds(p) ==> old(self).cache_spec().holds(p),
            final(self).cache_spec().page_size_spec() == old(self).cache_spec().page_size_spec(),
            final(self).cache_spec().slot_count() == old(self).cache_spec().slot_count(),
            final(self).cache_spec().page_type_mask_spec() == old(self).cache_spec().page_type_mask_spec(),
            r is Ok && !any_write_overflow(data@) ==> forall|p: u64| #[trigger] final(self).cache_spec().holds(p)
                == old(self).cache_spec().holds(p),
    {
        self.writes = Ghost(self.writes@.push(data@));
        self.cache.cached_write(&mut self.mem, data)
    }

    fn metadata(&self) -> (r: PhysicalMemoryMetadata) {
        self.mem.metadata()
    }

    /// Installs the map in the backend and empties the cache, since the
    /// pages it holds may now stand elsewhere.
    fn set_mem_map(&mut self, mem_map: Vec<MemoryMapping>)
        ensures
            forall|p: u64| !#[trigger] final(self).cache_spec().holds(p),
    {
        self.mem.set_mem_map(mem_map);
        self.cache.invalidate_all();
    }
}

/// Gathers what a `CachedMemoryAccess` is built from.
pub struct CachedMemoryAccessBuilder<T, Q> {
    mem: Option<T>,
    validator: Option<Q>,
    page_size: Option<Length>,
    cache_size: Length,
    page_type_mask: PageType,
}

impl<T: PhysicalMemory, Q: CacheValidator> Default for CachedMemoryAccessBuilder<T, Q> {
    /// No backend, validator or page size yet; a cache of 2 MiB for page
    /// tables and read-only pages.
    fn default() -> (r: Self)
        ensures
            r.wf(),
            r.mem_spec() is None,
            r.validator_spec() is None,
            r.page_size_spec() is None,
            r.cache_size_spec().0 == 2 * 1024 * 1024,
            r.page_type_mask_spec().0 == PAGE_TYPE_PAGE_TABLE | PAGE_TYPE_READ_ONLY,
    {
        CachedMemoryAccessBuilder {
            mem: None,
            validator: None,
            page_size: None,
            cache_size: Length::from_mb(2),
            page_type_mask: PageType::page_table().union(PageType::read_only()),
        }
    }
}

impl<T: PhysicalMemory, Q: CacheValidator> CachedMemoryAccessBuilder<T, Q> {
    pub closed spec fn mem_spec(&self) -> Option<T> {
        self.mem
    }

    pub closed spec fn validator_spec(&self) -> Option<Q> {
        self.validator
    }

    pub closed spec fn page_size_spec(&self) -> Option<Length> {
        self.page_size
    }

    pub closed spec fn cache_size_spec(&self) -> Length {
        self.cache_size
    }

    pub closed spec fn page_type_mask_spec(&self) -> PageType {
        self.page_type_mask
    }

    /// A backend, where one is given, is ready for use.
    pub closed spec fn wf(&self) -> bool {
        match self.mem {
            Some(m) => m.inv(),
            None => true,
        }
    }

    /// Whether `build` succeeds: every part is given, and the cache has
    /// room for at least one page.
    pub open spec fn buildable(&self) -> bool {
        &&& self.mem_spec() is Some
        &&& self.validator_spec() is Some
        &&& match self.page_size_spec() {
            Some(ps) => 0 < ps.0 <= self.cache_size_spec().0 && ps.0 <= usize::MAX && self.cache_size_spec().0
                / ps.0 <= usize::MAX,
            None => false,
        }
    }

    /// The cached backend, or `Configuration` where a part is missing or the
    /// sizes leave no room for a page.
    pub fn build(self) -> (r: Result<CachedMemoryAccess<T, Q>, Error>)
        requires
            self.wf(),
        ensures
            r is Ok <==> self.buildable(),
            r is Err ==> r == Err::<CachedMemoryAccess<T, Q>, Error>(Error::Configuration),
            r matches Ok(c) ==> c.inv() && Some(c.backend_spec()) == self.mem_spec() && Some(
                Length(c.cache_page_size()),
            ) == self.page_size_spec() && c.cache_spec().page_type_mask_spec() == self.page_type_mask_spec()
                && c.cache_spec().slot_count() == self.cache_size_spec().0 / c.cache_page_size() && c.read_log().len() == 0 && c.write_log().len() == 0,
    {
        let cache_size = self.cache_size;
        let page_type_mask = self.page_type_mask;
        match (self.mem, self.validator, self.page_size) {
            (Some(mem), Some(validator), Some(page_size)) => {
                if page_size.0 == 0 || page_size.0 > cache_size.0 || page_size.0 > usize::MAX as u64 {
                    return Err(Error::Configuration);
                }
                assert(cache_size.0 / page_size.0 <= cache_size.0) by (nonlinear_arith)
                    requires
                        page_size.0 > 0,
                ;
                if cache_size.0 / page_size.0 > usize::MAX as u64 {
                    return Err(Error::Configuration);
                }
                let cache = PageCache::with_page_size(page_size, cache_size, page_type_mask, validator);
                Ok(CachedMemoryAccess::with(mem, cache))
            },
            _ => Err(Error::Configuration),
        }
    }

    pub fn mem(self, mem: T) -> (r: Self)
        requires
            self.wf(),
            mem.inv(),
        ensures
            r.wf(),
            r.mem_spec() == Some(mem),
            r.validator_spec() == self.validator_spec(),
            r.page_size_spec() == self.page_size_spec(),
            r.cache_size_spec() == self.cache_size_spec(),
            r.page_type_mask_spec() == self.page_type_mask_spec(),
    {
        let mut b = self;
        b.mem = Some(mem);
        b
    }

    pub fn validator(self, validator: Q) -> (r: Self)
        requires
            self.wf(),
        ensures
            r.wf(),
            r.mem_spec() == self.mem_spec(),
            r.validator_spec() == Some(validator),
            r.page_size_spec() == self.page_size_spec(),
            r.cache_size_spec() == self.cache_size_spec(),
            r.page_type_mask_spec() == self.page_type_mask_spec(),
    {
        let mut b = self;
        b.validator = Some(validator);
        b
    }

    pub fn page_size(self, page_size: Length) -> (r: Self)
        requires
            self.wf(),
        ensures
            r.wf(),
            r.mem_spec() == self.mem_spec(),
            r.validator_spec() == self.validator_spec(),
            r.page_size_spec() == Some(page_size),
            r.cache_size_spec() == self.cache_size_spec(),
            r.page_type_mask_spec() == self.page_type_mask_spec(),
    {
        let mut b = self;
        b.page_size = Some(page_size);
        b
    }

    pub fn cache_size(self, cache_size: Length) -> (r: Self)
        requires
            self.wf(),
        ensures
            r.wf(),
            r.mem_spec() == self.mem_spec(),
            r.validator_spec() == self.validator_spec(),
            r.page_size_spec() == self.page_size_spec(),
            r.cache_size_spec() == cache_size,
            r.page_type_mask_spec() == self.page_type_mask_spec(),
    {
        let mut b = self;
        b.cache_size = cache_size;
        b
    }

    /// Takes the page size from an architecture.
    pub fn arch(self, arch: Architecture) -> (r: Self)
        requires
            self.wf(),
        ensures
            r.wf(),
            r.mem_spec() == self.mem_spec(),
            r.validator_spec() == self.validator_spec(),
            r.page_size_spec() == Some(Length(4096)),
            r.cache_size_spec() == self.cache_size_spec(),
            r.page_type_mask_spec() == self.page_type_mask_spec(),
    {
        let mut b = self;
        b.page_size = Some(arch.page_size());
        b
    }

    pub fn page_type_mask(self, page_type_mask: PageType) -> (r: Self)
        requires
            self.wf(),
        ensures
            r.wf(),
            r.mem_spec() == self.mem_spec(),
            r.validator_spec() == self.validator_spec(),
            r.page_size_spec() == self.page_size_spec(),
            r.cache_size_spec() == self.cache_size_spec(),
            r.page_type_mask_spec() == page_type_mask,
    {
        let mut b = self;
        b.page_type_mask = page_type_mask;
        b
    }
}

} // verus!
