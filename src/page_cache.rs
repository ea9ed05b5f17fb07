use vstd::prelude::*;
use crate::error::Error;
use crate::phys_mem::{PhysicalMemory, PhysicalReadData, PhysicalWriteData, reads_filled, apply_writes,
    write_bytes, writes_in_bounds, lemma_apply_writes_len};
use crate::types::{Address, Length, PageType, PhysicalAddress};
use vstd::arithmetic::div_mod::{lemma_fundamental_div_mod, lemma_mod_multiples_basic};

verus! {

/// Decides whether a cached page may still be served.
///
/// `update_validity` is called once per batch, before any `is_valid` of that
/// batch. What a validator answers never changes which bytes a read
/// returns, only whether they come from the cache or from the backend.
pub trait CacheValidator: Sized {
    /// Whether the validator, in its present state, accepts `slot`.
    spec fn accepts(&self, slot: int) -> bool;

    /// Prepares to track `slot_count` slots, all of them not valid.
    fn allocate_slots(&mut self, slot_count: usize)
    ;

    /// Whether this state is what `update_validity` makes of `before`.
    spec fn refreshed_from(&self, before: Self) -> bool;

    /// Brings the validator's idea of the present up to date.
    fn update_validity(&mut self)
        ensures
            final(self).refreshed_from(*old(self)),
    ;

    fn is_valid(&self, slot: usize) -> (r: bool)
        ensures
            r == self.accepts(slot as int),
    ;

    /// Marks a slot as freshly filled.
    fn validate_slot(&mut self, slot: usize)
    ;

    fn invalidate_slot(&mut self, slot: usize)
    ;
}

/// A validator that never invalidates a filled slot.
#[derive(Debug, Clone, Copy, PartialEq, Eq, Structural)]
pub struct AlwaysValid;

impl CacheValidator for AlwaysValid {
    open spec fn accepts(&self, slot: int) -> bool {
        true
    }

    open spec fn refreshed_from(&self, before: Self) -> bool {
        true
    }

    fn allocate_slots(&mut self, slot_count: usize) {
    }

    fn update_validity(&mut self) {
    }

    fn is_valid(&self, slot: usize) -> (r: bool)
        ensures
            r,
    {
        true
    }

    fn validate_slot(&mut self, slot: usize) {
    }

    fn invalidate_slot(&mut self, slot: usize) {
    }
}

/// A validator that accepts no slot: every read goes to the backend.
#[derive(Debug, Clone, Copy, PartialEq, Eq, Structural)]
pub struct NeverValid;

impl CacheValidator for NeverValid {
    open spec fn accepts(&self, slot: int) -> bool {
        false
    }

    open spec fn refreshed_from(&self, before: Self) -> bool {
        true
    }

    fn allocate_slots(&mut self, slot_count: usize) {
    }

    fn update_validity(&mut self) {
    }

    fn is_valid(&self, slot: usize) -> (r: bool)
        ensures
            !r,
    {
        false
    }

    fn validate_slot(&mut self, slot: usize) {
    }

    fn invalidate_slot(&mut self, slot: usize) {
    }
}

/// A validator that keeps a slot valid for a number of batches after it was
/// filled; each batch advances its clock by one tick.
pub struct CountValidator {
    ttl: u64,
    now: u64,
    stamps: Vec<u64>,
    filled: Vec<bool>,
}

impl CountValidator {
    /// A validator under which a slot stays valid for `ttl` batches.
    pub fn new(ttl: u64) -> (r: CountValidator)
        ensures
            r.ttl_spec() == ttl,
            r.now_spec() == 0,
            forall|s: int| #[trigger] r.stamp_spec(s) is None,
    {
        CountValidator { ttl, now: 0, stamps: Vec::new(), filled: Vec::new() }
    }

    pub closed spec fn ttl_spec(&self) -> u64 {
        self.ttl
    }

    /// The number of batches seen so far.
    pub closed spec fn now_spec(&self) -> u64 {
        self.now
    }

    /// Whether the validator keeps track of `slot`.
    pub closed spec fn tracks(&self, slot: int) -> bool {
        0 <= slot < self.filled@.len() && slot < self.stamps@.len()
    }

    /// The tick at which `slot` was last filled, where it is filled.
    pub closed spec fn stamp_spec(&self, slot: int) -> Option<u64> {
        if 0 <= slot < self.filled@.len() && slot < self.stamps@.len() && self.filled@[slot] {
            Some(self.stamps@[slot])
        } else {
            None
        }
    }
}

impl CacheValidator for CountValidator {
    open spec fn accepts(&self, slot: int) -> bool {
        match self.stamp_spec(slot) {
            Some(t) => t <= self.now_spec() && self.now_spec() - t < self.ttl_spec(),
            None => false,
        }
    }

    /// One more batch has begun, and the slots are as they were.
    open spec fn refreshed_from(&self, before: Self) -> bool {
        &&& self.ttl_spec() == before.ttl_spec()
        &&& self.now_spec() == if before.now_spec() < u64::MAX {
            (before.now_spec() + 1) as u64
        } else {
            before.now_spec()
        }
        &&& forall|s: int| #[trigger] self.stamp_spec(s) == before.stamp_spec(s)
    }

    fn allocate_slots(&mut self, slot_count: usize)
        ensures
            final(self).ttl_spec() == old(self).ttl_spec(),
            final(self).now_spec() == old(self).now_spec(),
            forall|s: int| #[trigger] final(self).stamp_spec(s) is None,
            forall|s: int| #[trigger] final(self).tracks(s) <==> 0 <= s < slot_count,
    {
        let mut stamps: Vec<u64> = Vec::new();
        let mut filled: Vec<bool> = Vec::new();
        let mut i: usize = 0;
        while i < slot_count
            invariant
                i <= slot_count,
                stamps@.len() == i,
                filled@.len() == i,
                forall|k: int| 0 <= k < i ==> !(#[trigger] filled@[k]),
            decreases slot_count - i,
        {
            stamps.push(0);
            filled.push(false);
            i = i + 1;
        }
        self.stamps = stamps;
        self.filled = filled;
    }

    fn update_validity(&mut self)
        ensures
            final(self).ttl_spec() == old(self).ttl_spec(),
            final(self).now_spec() == if old(self).now_spec() < u64::MAX {
                (old(self).now_spec() + 1) as u64
            } else {
                old(self).now_spec()
            },
            forall|s: int| #[trigger] final(self).stamp_spec(s) == old(self).stamp_spec(s),
    {
        if self.now < u64::MAX {
            self.now = self.now + 1;
        }
    }

    /// A slot is valid for `ttl` ticks from the tick at which it was filled.
    fn is_valid(&self, slot: usize) -> (r: bool)
        ensures
            r == match self.stamp_spec(slot as int) {
                Some(t) => t <= self.now_spec() && self.now_spec() - t < self.ttl_spec(),
                None => false,
            },
    {
        if slot < self.filled.len() && slot < self.stamps.len() && self.filled[slot] {
            self.now >= self.stamps[slot] && self.now - self.stamps[slot] < self.ttl
        } else {
            false
        }
    }

    fn validate_slot(&mut self, slot: usize)
        ensures
            final(self).ttl_spec() == old(self).ttl_spec(),
            final(self).now_spec() == old(self).now_spec(),
            old(self).tracks(slot as int) ==> final(self).stamp_spec(slot as int) == Some(old(self).now_spec()),
            forall|s: int| #[trigger] final(self).tracks(s) == old(self).tracks(s),
            forall|s: int| s != slot ==> #[trigger] final(self).stamp_spec(s) == old(self).stamp_spec(s),
    {
        if slot < self.filled.len() && slot < self.stamps.len() {
            self.filled.set(slot, true);
            self.stamps.set(slot, self.now);
        }
    }

    fn invalidate_slot(&mut self, slot: usize)
        ensures
            final(self).ttl_spec() == old(self).ttl_spec(),
            final(self).now_spec() == old(self).now_spec(),
            final(self).stamp_spec(slot as int) is None,
            forall|s: int| s != slot ==> #[trigger] final(self).stamp_spec(s) == old(self).stamp_spec(s),
    {
        if slot < self.filled.len() {
            self.filled.set(slot, false);
        }
    }
}

/// What a slot of the cache holds.
pub enum PageValidity {
    Invalid,
    /// The bytes of the page that starts at the entry's address.
    Valid(Vec<u8>),
}

pub struct CacheEntry {
    pub address: u64,
    pub validity: PageValidity,
}

/// A direct-mapped cache of physical pages: the page at `p` can only be held
/// in slot `(p / page_size) % slot count`.
pub struct PageCache<Q> {
    page_size: u64,
    page_type_mask: PageType,
    entries: Vec<CacheEntry>,
    pub validator: Q,
    batch_validator: Ghost<Q>,
}

/// Whether every request of `data` is empty.
pub open spec fn all_empty(data: Seq<PhysicalReadData>) -> bool {
    forall|i: int| 0 <= i < data.len() ==> #[trigger] data[i].1@.len() == 0
}

/// Whether the range of a non-empty request passes the end of the 64-bit
/// address space.
pub open spec fn overflows(d: PhysicalReadData) -> bool {
    d.1@.len() > 0 && d.0.address.0 + d.1@.len() > u64::MAX
}

/// Whether some request of `data` passes the end of the 64-bit address space.
pub open spec fn any_overflow(data: Seq<PhysicalReadData>) -> bool {
    exists|i: int| 0 <= i < data.len() && overflows(#[trigger] data[i])
}

/// Whether some write of `data` passes the end of the 64-bit address space.
pub open spec fn any_write_overflow(data: Seq<PhysicalWriteData>) -> bool {
    exists|i: int| 0 <= i < data.len() && #[trigger] data[i].0.address.0 + data[i].1@.len() > u64::MAX
}

/// The start of the page of size `ps` that holds `pos`.
pub open spec fn page_of(pos: int, ps: u64) -> u64 {
    (pos - pos % (ps as int)) as u64
}

/// The slot for the page that starts at `base`.
pub open spec fn slot_of(base: u64, page_size: u64, slots: nat) -> int {
    ((base as int / page_size as int) % slots as int)
}

impl<Q: CacheValidator> PageCache<Q> {
    pub closed spec fn page_size_spec(&self) -> u64 {
        self.page_size
    }

    pub closed spec fn page_type_mask_spec(&self) -> PageType {
        self.page_type_mask
    }

    /// Whether slot `s` holds a page.
    pub closed spec fn slot_filled(&self, s: int) -> bool {
        0 <= s < self.entries@.len() && self.entries@[s].validity is Valid
    }

    pub closed spec fn validator_spec(&self) -> Q {
        self.validator
    }

    pub closed spec fn slot_count(&self) -> nat {
        self.entries@.len()
    }

    /// Whether the cache holds the page that starts at `page`.
    pub closed spec fn holds(&self, page: u64) -> bool {
        let s = slot_of(page, self.page_size, self.entries@.len());
        &&& self.page_size > 0
        &&& self.entries@.len() > 0
        &&& self.entries@[s].validity is Valid
        &&& self.entries@[s].address == page
    }

    /// The validator as it stood for the last batched read, right after its
    /// `update_validity`.
    pub closed spec fn batch_validator_spec(&self) -> Q {
        self.batch_validator@
    }

    /// Whether a request is served from the cache alone under validator `v`:
    /// it is empty, or its page type goes through the cache and every page it
    /// touches is held, in a slot that `v` accepts.
    pub open spec fn request_hits(&self, d: PhysicalReadData, v: Q) -> bool {
        d.1@.len() == 0 || (d.0.page_type.0 & self.page_type_mask_spec().0 != 0 && forall|x: int|
            d.0.address.0 <= x < d.0.address.0 + d.1@.len() ==> #[trigger] self.piece_hits(x, v))
    }

    /// Whether the byte at `x` is on a held page whose slot `v` accepts.
    pub open spec fn piece_hits(&self, x: int, v: Q) -> bool {
        self.holds(page_of(x, self.page_size_spec())) && v.accepts(
            slot_of(page_of(x, self.page_size_spec()), self.page_size_spec(), self.slot_count()),
        )
    }

    /// Whether `d` is a non-empty request whose page type goes through the
    /// cache and whose bytes all lie in one page.
    pub open spec fn one_cached_page(&self, d: PhysicalReadData) -> bool {
        &&& d.1@.len() > 0
        &&& d.0.page_type.0 & self.page_type_mask_spec().0 != 0
        &&& d.0.address.0 + d.1@.len() <= page_of(d.0.address.0 as int, self.page_size_spec()) + self.page_size_spec()
    }

    /// Whether every request of `data` is served from the cache alone under `v`.
    pub open spec fn all_hit(&self, data: Seq<PhysicalReadData>, v: Q) -> bool {
        forall|i: int| 0 <= i < data.len() ==> #[trigger] self.request_hits(data[i], v)
    }

    pub closed spec fn wf(&self) -> bool {
        &&& self.page_size > 0
        &&& self.page_size <= usize::MAX
        &&& self.entries@.len() > 0
        &&& forall|s: int|
            0 <= s < self.entries@.len() ==> match (#[trigger] self.entries@[s]).validity {
                PageValidity::Valid(buf) => {
                    &&& buf@.len() == self.page_size
                    &&& self.entries@[s].address % self.page_size == 0
                    &&& slot_of(self.entries@[s].address, self.page_size, self.entries@.len()) == s
                },
                PageValidity::Invalid => true,
            }
    }

    /// Whether every filled slot holds the bytes that `mem` holds at its page.
    pub closed spec fn coherent(&self, mem: Seq<u8>) -> bool {
        forall|s: int|
            0 <= s < self.entries@.len() ==> match (#[trigger] self.entries@[s]).validity {
                PageValidity::Valid(buf) => {
                    &&& self.entries@[s].address + self.page_size <= mem.len()
                    &&& buf@ == mem.subrange(
                        self.entries@[s].address as int,
                        self.entries@[s].address + self.page_size,
                    )
                },
                PageValidity::Invalid => true,
            }
    }

    /// An empty cache of `cache_size / page_size` slots, in front of reads
    /// and writes whose page type shares a flag with `page_type_mask`.
    pub fn with_page_size(page_size: Length, cache_size: Length, page_type_mask: PageType, validator: Q) -> (r:
        Self)
        requires
            0 < page_size.0 <= cache_size.0,
            page_size.0 <= usize::MAX,
            cache_size.0 / page_size.0 <= usize::MAX,
        ensures
            r.wf(),
            forall|mem: Seq<u8>| r.coherent(mem),
            r.page_size_spec() == page_size.0,
            r.page_type_mask_spec() == page_type_mask,
            r.slot_count() == cache_size.0 / page_size.0,
    {
        let n = (cache_size.0 / page_size.0) as usize;
        assert(n >= 1) by (nonlinear_arith)
            requires
                0 < page_size.0 <= cache_size.0,
                n == cache_size.0 / page_size.0,
        ;
        let mut entries: Vec<CacheEntry> = Vec::new();
        let mut i: usize = 0;
        while i < n
            invariant
                i <= n,
                entries@.len() == i,
                forall|s: int| 0 <= s < i ==> (#[trigger] entries@[s]).validity is Invalid,
            decreases n - i,
        {
            entries.push(CacheEntry { address: 0, validity: PageValidity::Invalid });
            i = i + 1;
        }
        let mut validator = validator;
        validator.allocate_slots(n);
        PageCache { page_size: page_size.0, page_type_mask, entries, batch_validator: Ghost(validator), validator }
    }

    pub fn page_size(&self) -> (r: Length)
        ensures
            r.0 == self.page_size_spec(),
    {
        Length(self.page_size)
    }

    /// Whether reads and writes of this page type go through the cache.
    pub fn is_cached_page_type(&self, page_type: PageType) -> (r: bool)
        ensures
            r == (page_type.0 & self.page_type_mask_spec().0 != 0),
    {
        page_type.intersects(self.page_type_mask)
    }

    /// Empties every slot.
    pub fn invalidate_all(&mut self)
        requires
            old(self).wf(),
        ensures
            final(self).wf(),
            forall|mem: Seq<u8>| final(self).coherent(mem),
            final(self).page_size_spec() == old(self).page_size_spec(),
            final(self).page_type_mask_spec() == old(self).page_type_mask_spec(),
            final(self).slot_count() == old(self).slot_count(),
            forall|p: u64| !#[trigger] final(self).holds(p),
            forall|s: int| !#[trigger] final(self).slot_filled(s),
    {
        let n = self.entries.len();
        let mut i: usize = 0;
        while i < n
            invariant
                self.wf(),
                n == self.entries@.len(),
                i <= n,
                self.page_size == old(self).page_size,
                self.page_type_mask == old(self).page_type_mask,
                forall|s: int| 0 <= s < i ==> (#[trigger] self.entries@[s]).validity is Invalid,
            decreases n - i,
        {
            self.entries.set(i, CacheEntry { address: 0, validity: PageValidity::Invalid });
            self.validator.invalidate_slot(i);
            i = i + 1;
        }
    }
}


/// Where the bytes of a piece of a read come from.
#[derive(Clone, Copy)]
enum ChunkSource {
    /// A slot of the cache.
    Hit(usize),
    /// A request of the batch that goes to the backend.
    Queued(usize),
}

/// A piece of a read request: `len` bytes at `addr`, found `off` bytes into
/// the page or buffer of `source`.
#[derive(Clone, Copy)]
struct Chunk {
    req: usize,
    addr: u64,
    len: usize,
    off: usize,
    source: ChunkSource,
}

proof fn lemma_page_base(pos: u64, ps: u64)
    requires
        ps > 0,
    ensures
        (pos as int - pos as int % ps as int) % (ps as int) == 0,
        pos % ps <= pos,
        (pos as int - pos as int % ps as int) / (ps as int) == pos as int / (ps as int),
        pos % ps < ps,
{
    let d = pos as int / ps as int;
    lemma_fundamental_div_mod(pos as int, ps as int);
    lemma_mod_multiples_basic(d, ps as int);
    assert(pos as int - pos as int % ps as int == d * ps as int);
    vstd::arithmetic::div_mod::lemma_div_multiples_vanish(d, ps as int);
    vstd::arithmetic::mul::lemma_mul_is_commutative(d, ps as int);
    vstd::arithmetic::div_mod::lemma_mod_pos_bound(pos as int, ps as int);
    vstd::arithmetic::div_mod::lemma_mod_decreases(pos as nat, ps as nat);
}

/// Every address of an aligned page lies in that page.
proof fn lemma_same_page(pb: u64, ps: u64, q: int)
    requires
        ps > 0,
        pb % ps == 0,
        pb <= q < pb + ps,
    ensures
        page_of(q, ps) == pb,
{
    let k = pb as int / ps as int;
    lemma_fundamental_div_mod(pb as int, ps as int);
    vstd::arithmetic::mul::lemma_mul_is_commutative(k, ps as int);
    vstd::arithmetic::div_mod::lemma_fundamental_div_mod_converse(q, ps as int, k, q - pb);
}

impl<Q: CacheValidator> PageCache<Q> {
    spec fn chunk_ok(&self, c: Chunk, n: nat, queue: Seq<PhysicalReadData>) -> bool {
        &&& c.req < n
        &&& c.len > 0
        &&& match c.source {
            ChunkSource::Hit(s) => {
                &&& s < self.entries@.len()
                &&& self.entries@[s as int].validity is Valid
                &&& self.entries@[s as int].address + c.off == c.addr
                &&& c.off + c.len <= self.page_size
            },
            ChunkSource::Queued(q) => {
                &&& q < queue.len()
                &&& queue[q as int].0.address.0 + c.off == c.addr
                &&& c.off + c.len <= queue[q as int].1@.len()
            },
        }
    }

    /// What a request handed to the backend is: a whole page for a slot, or
    /// a request of `data` as it stands.
    pub open spec fn backend_request(&self, q: PhysicalReadData, data: Seq<PhysicalReadData>) -> bool {
        (q.0.address.0 % self.page_size_spec() == 0 && q.1@.len() == self.page_size_spec()) || exists|i: int|
            0 <= i < data.len() && #[trigger] data[i].0 == q.0 && q.1@.len() == data[i].1@.len()
    }

    spec fn queued_ok(&self, q: PhysicalReadData, slot: Option<usize>, data: Seq<PhysicalReadData>) -> bool {
        match slot {
            Some(_) => true,
            None => exists|i: int| 0 <= i < data.len() && #[trigger] data[i].0 == q.0 && q.1@.len() == data[i].1@.len(),
        }
    }

    spec fn miss_ok(&self, q: PhysicalReadData, slot: Option<usize>) -> bool {
        match slot {
            Some(s) => {
                &&& s < self.entries@.len()
                &&& q.0.address.0 % self.page_size == 0
                &&& slot_of(q.0.address.0, self.page_size, self.entries@.len()) == s
                &&& q.1@.len() == self.page_size
            },
            None => true,
        }
    }

    /// Reads every request of `data` through the cache, with one batched
    /// backend read at most, and fills the slots of the pages it missed.
    ///
    /// Requests whose page type shares a flag with the mask are split at
    /// page boundaries, and each piece is served from its slot where the
    /// slot holds the page and the validator accepts it; all else goes to
    /// the backend in one batch.
    #[verifier::loop_isolation(false)]
    #[verifier::rlimit(100)]
    pub fn cached_read<T: PhysicalMemory>(&mut self, mem: &mut T, data: &mut Vec<PhysicalReadData>) -> (r:
        Result<(), Error>)
        requires
            old(self).wf(),
            old(self).coherent(old(mem).phys_view()),
            old(mem).inv(),
        ensures
            final(self).wf(),
            final(self).coherent(old(mem).phys_view()),
            final(self).page_size_spec() == old(self).page_size_spec(),
            final(self).page_type_mask_spec() == old(self).page_type_mask_spec(),
            final(self).slot_count() == old(self).slot_count(),
            final(mem).inv(),
            final(mem).phys_view() == old(mem).phys_view(),
            r is Ok ==> reads_filled(old(mem).phys_view(), old(data)@, final(data)@),
            final(mem).write_log() == old(mem).write_log(),
            final(mem).read_log() == old(mem).read_log() || (final(mem).read_log().drop_last() == old(mem).read_log() && final(mem).read_log().len() == old(mem).read_log().len() + 1),
            all_empty(old(data)@) ==> r is Ok && final(mem).read_log() == old(mem).read_log(),
            any_overflow(old(data)@) ==> r == Err::<(), Error>(Error::OutOfBounds) && final(mem).read_log()
                == old(mem).read_log(),
            old(self).all_hit(old(data)@, final(self).batch_validator_spec()) ==> final(mem).read_log()
                == old(mem).read_log(),
            final(self).batch_validator_spec().refreshed_from(old(self).validator_spec()),
            final(mem).read_log().len() > old(mem).read_log().len() ==> forall|j: int|
                0 <= j < final(mem).read_log().last().len() ==> #[trigger] old(self).backend_request(
                    final(mem).read_log().last()[j],
                    old(data)@,
                ),
            r is Ok && old(data)@.len() == 1 && old(self).one_cached_page(old(data)@[0]) ==> final(self).holds(
                page_of(old(data)@[0].0.address.0 as int, old(self).page_size_spec()),
            ),
            !any_overflow(old(data)@) && !old(self).all_hit(old(data)@, final(self).batch_validator_spec()) ==> final(mem).read_log().len() == old(mem).read_log().len() + 1,
    {
        let ghost view = mem.phys_view();
        let ghost rlog = mem.read_log();
        let ghost wlog = mem.write_log();
        self.validator.update_validity();
        self.batch_validator = Ghost(self.validator);
        let ghost bv = self.validator;
        let ghost single = data@.len() == 1 && old(self).one_cached_page(data@[0]);
        let ghost pb0 = if data@.len() > 0 { page_of(data@[0].0.address.0 as int, self.page_size) } else { 0 };
        let n = data.len();
        let ps = self.page_size;
        let nslots = self.entries.len();
        let mut plan: Vec<Chunk> = Vec::new();
        let mut queue: Vec<PhysicalReadData> = Vec::new();
        let mut miss_slot: Vec<Option<usize>> = Vec::new();
        let mut i: usize = 0;
        while i < n
            invariant
                self.wf(),
                self.coherent(view),
                self.page_size == old(self).page_size,
                self.page_type_mask == old(self).page_type_mask,
                self.entries@ == old(self).entries@,
                mem.inv(),
                mem.phys_view() == view,
                view == old(mem).phys_view(),
                data@ == old(data)@,
                n == data@.len(),
                ps == self.page_size,
                nslots == self.entries@.len(),
                i <= n,
                miss_slot@.len() == queue@.len(),
                forall|k: int| 0 <= k < plan@.len() ==> self.chunk_ok(#[trigger] plan@[k], n as nat, queue@),
                forall|q: int| 0 <= q < queue@.len() ==> self.miss_ok(#[trigger] queue@[q], miss_slot@[q]),
                single ==> forall|q: int| 0 <= q < queue@.len() ==> (#[trigger] miss_slot@[q]) is Some && queue@[q].0.address.0 == pb0,
                forall|q: int| 0 <= q < queue@.len() ==> #[trigger] self.queued_ok(queue@[q], miss_slot@[q], data@),
                forall|k: int| 0 <= k < i ==> !overflows(#[trigger] data@[k]),
                (forall|k: int| 0 <= k < i ==> #[trigger] data@[k].1@.len() == 0) ==> plan@.len() == 0
                    && queue@.len() == 0,
                self.batch_validator@ == self.validator,
                queue@.len() == 0 ==> forall|k: int| 0 <= k < i ==> #[trigger] old(self).request_hits(data@[k], self.validator),
                (forall|k: int| 0 <= k < i ==> #[trigger] old(self).request_hits(data@[k], self.validator)) ==> queue@.len() == 0,
                mem.read_log() == rlog,
                mem.write_log() == wlog,
            decreases n - i,
        {
            let pa = data[i].0;
            let a = pa.address.0;
            let l = data[i].1.len();
            if l > 0 {
                if a > u64::MAX - l as u64 {
                    assert(overflows(data@[i as int]));
                    return Err(Error::OutOfBounds);
                }
                if !self.is_cached_page_type(pa.page_type) {
                    queue.push(PhysicalReadData(pa, vec![0u8; l]));
                    assert(self.queued_ok(queue@[queue@.len() - 1], None, data@)) by {
                        assert(queue@[queue@.len() - 1].0 == data@[i as int].0);
                    }
                    miss_slot.push(None);
                    plan.push(Chunk { req: i, addr: a, len: l, off: 0, source: ChunkSource::Queued(queue.len() - 1) });
                } else {
                    let end = a + l as u64;
                    let mut pos = a;
                    let ghost q0 = queue@.len();
                    while pos < end
                        invariant
                            self.wf(),
                            self.coherent(view),
                            self.page_size == old(self).page_size,
                            self.page_type_mask == old(self).page_type_mask,
                            self.entries@ == old(self).entries@,
                            mem.inv(),
                            mem.phys_view() == view,
                            view == old(mem).phys_view(),
                            data@ == old(data)@,
                            n == data@.len(),
                            ps == self.page_size,
                            nslots == self.entries@.len(),
                            i < n,
                            a <= pos <= end,
                            end == a + l,
                            pa == data@[i as int].0,
                            l == data@[i as int].1@.len(),
                            pa.page_type.0 & self.page_type_mask.0 != 0,
                            queue@.len() >= q0,
                            queue@.len() == 0 ==> forall|x: int| a <= x < pos ==> #[trigger] old(self).piece_hits(x, self.validator),
                            old(self).request_hits(data@[i as int], self.validator) && q0 == 0 ==> queue@.len() == 0,
                            miss_slot@.len() == queue@.len(),
                            forall|k: int| 0 <= k < plan@.len() ==> self.chunk_ok(#[trigger] plan@[k], n as nat, queue@),
                            forall|q: int| 0 <= q < queue@.len() ==> self.miss_ok(#[trigger] queue@[q], miss_slot@[q]),
                            single ==> forall|q: int| 0 <= q < queue@.len() ==> (#[trigger] miss_slot@[q]) is Some && queue@[q].0.address.0 == pb0,
                            forall|q: int| 0 <= q < queue@.len() ==> #[trigger] self.queued_ok(queue@[q], miss_slot@[q], data@),
                        decreases end - pos,
                    {
                        proof {
                            lemma_page_base(pos, ps);
                        }
                        let ghost qs = queue@.len();
                        proof {
                            if single {
                                assert(i == 0);
                                lemma_page_base(a, ps);
                                lemma_same_page(pb0, ps, pos as int);
                            }
                        }
                        let off = pos % ps;
                        let pb = pos - off;
                        let room = ps - off;
                        let cl: u64 = if end - pos < room {
                            end - pos
                        } else {
                            room
                        };
                        let s = ((pb / ps) % (nslots as u64)) as usize;
                        let held = match &self.entries[s].validity {
                            PageValidity::Valid(_) => self.entries[s].address == pb,
                            PageValidity::Invalid => false,
                        };
                        proof {
                            assert(held == old(self).holds(pb));
                            assert forall|x: int| pos <= x < pos + cl implies page_of(x, ps) == pb by {
                                lemma_same_page(pb, ps, x);
                            }
                            assert(nslots > 0);
                            assert((pb / ps) % (nslots as u64) == (pb as int / ps as int) % (nslots as int));
                            assert(s as int == slot_of(pb, ps, nslots as nat));
                            if old(self).request_hits(data@[i as int], self.validator) {
                                assert(old(self).piece_hits(pos as int, self.validator));
                            }
                        }
                        let hit = held && self.validator.is_valid(s);
                        if hit {
                            plan.push(Chunk { req: i, addr: pos, len: cl as usize, off: off as usize, source: ChunkSource::Hit(s) });
                        } else {
                            queue.push(
                                PhysicalReadData(
                                    PhysicalAddress::with_page(Address(pb), pa.page_type, ps),
                                    vec![0u8; ps as usize],
                                ),
                            );
                            miss_slot.push(Some(s));
                            plan.push(
                                Chunk {
                                    req: i,
                                    addr: pos,
                                    len: cl as usize,
                                    off: off as usize,
                                    source: ChunkSource::Queued(queue.len() - 1),
                                },
                            );
                        }
                        proof {
                            if queue@.len() == 0 {
                                assert(hit);
                                assert(self.validator.accepts(s as int));
                                assert forall|x: int| a <= x < pos + cl implies #[trigger] old(self).piece_hits(x, self.validator) by {
                                    if x >= pos {
                                        lemma_same_page(pb, ps, x);
                                    } else {
                                        assert(qs == 0);
                                        assert(old(self).piece_hits(x, self.validator));
                                    }
                                }
                            }
                        }
                        let ghost pos0 = pos;
                        pos = pos + cl;
                        proof {
                            if queue@.len() == 0 {
                                assert(pos == pos0 + cl);
                                assert forall|x: int| a <= x < pos implies #[trigger] old(self).piece_hits(x, self.validator) by {
                                    assert(old(self).piece_hits(x, self.validator));
                                }
                            }
                        }
                    }
                    proof {
                        if queue@.len() == 0 {
                            assert(data@[i as int].0.page_type.0 & old(self).page_type_mask_spec().0 != 0);
                            assert(data@[i as int].0.address.0 == a);
                            assert(data@[i as int].1@.len() == l);
                            assert(old(self).request_hits(data@[i as int], self.validator));
                        }
                    }
                }
            }
            proof {
                if queue@.len() == 0 {
                    assert(old(self).request_hits(data@[i as int], self.validator));
                }
                if (forall|k: int| 0 <= k < i + 1 ==> #[trigger] old(self).request_hits(data@[k], self.validator)) {
                    assert(old(self).request_hits(data@[i as int], self.validator));
                }
            }
            i = i + 1;
        }
        let ghost queue_before = queue@;
        proof {
            assert forall|j: int| 0 <= j < queue_before.len() implies #[trigger] old(self).backend_request(queue_before[j], data@) by {
                assert(self.miss_ok(queue_before[j], miss_slot@[j]));
                assert(self.queued_ok(queue_before[j], miss_slot@[j], data@));
            }
        }
        if queue.len() > 0 {
            match mem.phys_read_raw_list(&mut queue) {
                Err(e) => {
                    return Err(e);
                },
                Ok(_) => {},
            }
        }
        let mut outs: Vec<PhysicalReadData> = Vec::new();
        let mut p: usize = 0;
        let mut i: usize = 0;
        while i < n
            invariant
                self.wf(),
                self.coherent(view),
                self.page_size == old(self).page_size,
                self.page_type_mask == old(self).page_type_mask,
                self.entries@ == old(self).entries@,
                mem.inv(),
                mem.phys_view() == view,
                view == old(mem).phys_view(),
                data@ == old(data)@,
                n == data@.len(),
                i <= n,
                outs@.len() == i,
                all_empty(data@) ==> plan@.len() == 0,
                queue@.len() == queue_before.len(),
                queue@.len() > 0 ==> reads_filled(view, queue_before, queue@),
                forall|k: int| 0 <= k < plan@.len() ==> self.chunk_ok(#[trigger] plan@[k], n as nat, queue_before),
                forall|k: int| 0 <= k < i ==> {
                    let a = data@[k].0.address.0 as int;
                    let len = data@[k].1@.len();
                    &&& #[trigger] outs@[k].0 == data@[k].0
                    &&& outs@[k].1@.len() == len
                    &&& len > 0 ==> a + len <= view.len() && outs@[k].1@ == view.subrange(a, a + len)
                },
            decreases n - i,
        {
            let pa = data[i].0;
            let a = pa.address.0;
            let l = data[i].1.len();
            let mut buf: Vec<u8> = Vec::new();
            while p < plan.len() && plan[p].req == i
                invariant
                    self.wf(),
                    self.coherent(view),
                    queue@.len() == queue_before.len(),
                    queue@.len() > 0 ==> reads_filled(view, queue_before, queue@),
                    forall|k: int| 0 <= k < plan@.len() ==> self.chunk_ok(#[trigger] plan@[k], n as nat, queue_before),
                    buf@.len() > 0 ==> a + buf@.len() <= view.len(),
                    plan@.len() == 0 ==> buf@.len() == 0,
                    forall|t: int| 0 <= t < buf@.len() ==> buf@[t] == view[a + t],
                decreases plan@.len() - p,
            {
                let c = plan[p];
                // The plan lists the pieces of each request in order, so each
                // piece starts where the bytes gathered so far end, and the
                // pieces of a request add up to its length.
                if c.addr < a || c.addr - a != buf.len() as u64 {
                    return Err(Error::Io);
                }
                assert(self.chunk_ok(plan@[p as int], n as nat, queue_before));
                match c.source {
                    ChunkSource::Hit(s) => {
                        match &self.entries[s].validity {
                            PageValidity::Valid(sb) => {
                                let ghost base = self.entries@[s as int].address;
                                let sbl = sb.len();
                                assert(self.entries@[s as int].validity is Valid);
                                let mut t: usize = 0;
                                while t < c.len
                                    invariant
                                        t <= c.len,
                                        c.off + c.len <= sbl,
                                        sbl == sb@.len(),
                                        sb@ == view.subrange(base as int, base + self.page_size),
                                        base + self.page_size <= view.len(),
                                        base + c.off == c.addr,
                                        c.addr == a + buf@.len() - t,
                                        forall|u: int| 0 <= u < buf@.len() ==> buf@[u] == view[a + u],
                                    decreases c.len - t,
                                {
                                    buf.push(sb[c.off + t]);
                                    t = t + 1;
                                }
                            },
                            PageValidity::Invalid => {},
                        }
                    },
                    ChunkSource::Queued(q) => {
                        let ghost qa = queue_before[q as int].0.address.0;
                        proof {
                            assert(queue@[q as int].0 == queue_before[q as int].0);
                            assert(queue_before[q as int].1@.len() > 0);
                        }
                        let qbl = queue[q].1.len();
                        let mut t: usize = 0;
                        while t < c.len
                            invariant
                                t <= c.len,
                                q < queue@.len(),
                                qbl == queue@[q as int].1@.len(),
                                c.off + c.len <= qbl,
                                c.off + c.len <= queue@[q as int].1@.len(),
                                qa + queue@[q as int].1@.len() <= view.len(),
                                queue@[q as int].1@ == view.subrange(qa as int, qa + queue@[q as int].1@.len()),
                                qa + c.off == c.addr,
                                c.addr == a + buf@.len() - t,
                                forall|u: int| 0 <= u < buf@.len() ==> buf@[u] == view[a + u],
                            decreases c.len - t,
                        {
                            buf.push(queue[q].1[c.off + t]);
                            t = t + 1;
                        }
                    },
                }
                p = p + 1;
            }
            proof {
                if all_empty(data@) {
                    assert(data@[i as int].1@.len() == 0);
                }
            }
            if buf.len() != l {
                return Err(Error::Io);
            }
            proof {
                if l > 0 {
                    assert(buf@ =~= view.subrange(a as int, a + l));
                }
            }
            let ghost bview = buf@;
            let ghost outs0 = outs@;
            outs.push(PhysicalReadData(pa, buf));
            proof {
                assert(outs@[i as int].0 == data@[i as int].0 && outs@[i as int].1@ == bview);
                assert forall|k: int| 0 <= k < i + 1 implies {
                    let a2 = data@[k].0.address.0 as int;
                    let len2 = data@[k].1@.len();
                    &&& #[trigger] outs@[k].0 == data@[k].0
                    &&& outs@[k].1@.len() == len2
                    &&& len2 > 0 ==> a2 + len2 <= view.len() && outs@[k].1@ == view.subrange(a2, a2 + len2)
                } by {
                    if k < i {
                        assert(outs@[k] == outs0[k]);
                        assert(outs0[k].0 == data@[k].0);
                    } else {
                        assert(bview.len() == l);
                        if l > 0 {
                            assert(bview == view.subrange(a as int, a + l));
                        }
                    }
                }
            }
            i = i + 1;
        }
        let ghost queue_after = queue@;
        let mut q = queue.len();
        while q > 0
            invariant
                self.wf(),
                self.coherent(view),
                self.page_size == old(self).page_size,
                self.page_type_mask == old(self).page_type_mask,
                self.entries@.len() == old(self).entries@.len(),
                q <= queue_after.len(),
                queue@ == queue_after.take(q as int),
                miss_slot@.len() == queue_before.len(),
                queue_after.len() == queue_before.len(),
                queue_after.len() > 0 ==> reads_filled(view, queue_before, queue_after),
                self.batch_validator@ == bv,
                forall|j: int| 0 <= j < queue_before.len() ==> self.miss_ok(#[trigger] queue_before[j], miss_slot@[j]),
                single ==> forall|j: int| 0 <= j < queue_before.len() ==> (#[trigger] miss_slot@[j]) is Some && queue_before[j].0.address.0 == pb0,
                single && q < queue_after.len() ==> self.holds(pb0),
                q == queue_after.len() ==> self.entries@ == old(self).entries@,
            decreases q,
        {
            match queue.pop() {
                Some(rd) => {
                    q = q - 1;
                    assert(rd == queue_after[q as int]);
                    assert(queue@ =~= queue_after.take(q as int));
                    match miss_slot[q] {
                        Some(s) => {
                            proof {
                                assert(self.miss_ok(queue_before[q as int], miss_slot@[q as int]));
                                assert(queue_after[q as int].0 == queue_before[q as int].0);
                            }
                            self.entries.set(s, CacheEntry { address: rd.0.address.0, validity: PageValidity::Valid(rd.1) });
                            self.validator.validate_slot(s);
                        },
                        None => {},
                    }
                },
                None => {
                    q = 0;
                },
            }
        }
        proof {
            if single && queue_after.len() == 0 {
                assert(old(self).request_hits(data@[0], bv));
                assert(old(self).piece_hits(data@[0].0.address.0 as int, bv));
                assert(old(self).holds(pb0));
            }
        }
        assert(reads_filled(view, data@, outs@));
        *data = outs;
        Ok(())
    }
}


/// Two different aligned pages do not overlap.
proof fn lemma_pages_disjoint(p1: u64, p2: u64, ps: u64)
    requires
        ps > 0,
        p1 % ps == 0,
        p2 % ps == 0,
        p1 != p2,
    ensures
        p1 + ps <= p2 || p2 + ps <= p1,
{
    let i = p1 as int / ps as int;
    let j = p2 as int / ps as int;
    lemma_fundamental_div_mod(p1 as int, ps as int);
    lemma_fundamental_div_mod(p2 as int, ps as int);
    if i < j {
        assert(i + 1 <= j);
        assert(ps as int * (i + 1) <= ps as int * j) by (nonlinear_arith)
            requires
                i + 1 <= j,
                ps > 0,
        ;
        vstd::arithmetic::mul::lemma_mul_is_distributive_add(ps as int, i, 1);
    } else {
        assert(i != j);
        assert(j + 1 <= i);
        assert(ps as int * (j + 1) <= ps as int * i) by (nonlinear_arith)
            requires
                j + 1 <= i,
                ps > 0,
        ;
        vstd::arithmetic::mul::lemma_mul_is_distributive_add(ps as int, j, 1);
    }
}

impl<Q: CacheValidator> PageCache<Q> {
    /// Writes every request of `data` to the backend in one batch; where that
    /// succeeds, every filled slot whose page was written to takes the new
    /// bytes, whatever the page type of the write. Where it fails, every slot
    /// is emptied, since the backend's contents are then not known.
    #[verifier::loop_isolation(false)]
    #[verifier::rlimit(50)]
    pub fn cached_write<T: PhysicalMemory>(&mut self, mem: &mut T, data: &Vec<PhysicalWriteData>) -> (r: Result<
        (),
        Error,
    >)
        requires
            old(self).wf(),
            old(self).coherent(old(mem).phys_view()),
            old(mem).inv(),
        ensures
            final(self).wf(),
            final(self).coherent(final(mem).phys_view()),
            final(self).page_size_spec() == old(self).page_size_spec(),
            final(self).page_type_mask_spec() == old(self).page_type_mask_spec(),
            final(self).slot_count() == old(self).slot_count(),
            final(mem).inv(),
            r is Ok ==> writes_in_bounds(old(mem).phys_view().len(), data@),
            r is Ok ==> final(mem).phys_view() == apply_writes(old(mem).phys_view(), data@),
            final(mem).write_log() == old(mem).write_log().push(data@),
            final(mem).read_log() == old(mem).read_log(),
            forall|p: u64| #[trigger] final(self).holds(p) ==> old(self).holds(p),
            r is Ok && !any_write_overflow(data@) ==> forall|p: u64| #[trigger] final(self).holds(p) == old(
                self,
            ).holds(p),
    {
        let ghost start = mem.phys_view();
        self.validator.update_validity();
        match mem.phys_write_raw_list(data) {
            Err(e) => {
                self.invalidate_all();
                return Err(e);
            },
            Ok(_) => {},
        }
        let ps = self.page_size;
        let nslots = self.entries.len();
        let n = data.len();
        let mut k: usize = 0;
        while k < n
            invariant
                self.wf(),
                self.page_size == old(self).page_size,
                self.page_type_mask == old(self).page_type_mask,
                self.entries@.len() == old(self).entries@.len(),
                ps == self.page_size,
                nslots == self.entries@.len(),
                n == data@.len(),
                k <= n,
                self.coherent(apply_writes(start, data@.take(k as int))),
                forall|s: int| 0 <= s < self.entries@.len() && (#[trigger] self.entries@[s]).validity is Valid
                    ==> old(self).entries@[s].validity is Valid && self.entries@[s].address == old(self).entries@[s].address,
                (forall|j: int| 0 <= j < k ==> !(#[trigger] data@[j].0.address.0 + data@[j].1@.len() > u64::MAX))
                    ==> forall|s: int| 0 <= s < self.entries@.len() && (#[trigger] old(self).entries@[s]).validity is Valid
                    ==> self.entries@[s].validity is Valid && self.entries@[s].address == old(self).entries@[s].address,
            decreases n - k,
        {
            let ghost vk = apply_writes(start, data@.take(k as int));
            let ghost d = data@[k as int].1@;
            proof {
                assert(data@.take(k + 1).drop_last() =~= data@.take(k as int));
                assert(data@.take(k + 1).last() == data@[k as int]);
                lemma_apply_writes_len(start, data@.take(k as int));
            }
            let a = data[k].0.address.0;
            let l = data[k].1.len();
            if a > u64::MAX - l as u64 {
                assert(data@[k as int].0.address.0 + data@[k as int].1@.len() > u64::MAX);
                self.invalidate_all();
                assert forall|s: int| 0 <= s < self.entries@.len() && (#[trigger] self.entries@[s]).validity is Valid
                    implies false by {
                    assert(!self.slot_filled(s));
                }
            } else {
                let end = a + l as u64;
                let mut pos = a;
                assert(write_bytes(vk, a as int, d.take(0)) =~= vk);
                while pos < end
                    invariant
                        self.wf(),
                        self.page_size == old(self).page_size,
                        self.page_type_mask == old(self).page_type_mask,
                        self.entries@.len() == old(self).entries@.len(),
                        a <= pos <= end,
                        end == a + d.len(),
                        self.coherent(write_bytes(vk, a as int, d.take(pos - a))),
                        forall|s: int| 0 <= s < self.entries@.len() && (#[trigger] self.entries@[s]).validity is Valid
                            ==> old(self).entries@[s].validity is Valid && self.entries@[s].address == old(self).entries@[s].address,
                        (forall|j: int| 0 <= j < k ==> !(#[trigger] data@[j].0.address.0 + data@[j].1@.len() > u64::MAX))
                            ==> forall|s: int| 0 <= s < self.entries@.len() && (#[trigger] old(self).entries@[s]).validity is Valid
                            ==> self.entries@[s].validity is Valid && self.entries@[s].address == old(self).entries@[s].address,
                    decreases end - pos,
                {
                    proof {
                        lemma_page_base(pos, ps);
                    }
                    let off = pos % ps;
                    let pb = pos - off;
                    let room = ps - off;
                    let cl: u64 = if end - pos < room {
                        end - pos
                    } else {
                        room
                    };
                    let s = ((pb / ps) % (nslots as u64)) as usize;
                    let ghost w0 = write_bytes(vk, a as int, d.take(pos - a));
                    let ghost w1 = write_bytes(vk, a as int, d.take(pos + cl - a));
                    let held = match &self.entries[s].validity {
                        PageValidity::Valid(_) => self.entries[s].address == pb,
                        PageValidity::Invalid => false,
                    };
                    if held {
                        let mut nb: Vec<u8> = Vec::new();
                        match &self.entries[s].validity {
                            PageValidity::Valid(ob) => {
                                let mut t: usize = 0;
                                while t < ps as usize
                                    invariant
                                        t <= ps,
                                        ob@.len() == ps,
                                        nb@.len() == t,
                                        ob@ == w0.subrange(pb as int, pb + ps),
                                        pb + ps <= w0.len(),
                                        forall|u: int| 0 <= u < t ==> nb@[u] == w1[pb + u],
                                    decreases ps - t,
                                {
                                    if off as usize <= t && t < (off + cl) as usize {
                                        nb.push(data[k].1[(pos - a) as usize + (t - off as usize)]);
                                    } else {
                                        nb.push(ob[t]);
                                    }
                                    t = t + 1;
                                }
                            },
                            PageValidity::Invalid => {},
                        }
                        assert(nb@ =~= w1.subrange(pb as int, pb + ps));
                        self.entries.set(s, CacheEntry { address: pb, validity: PageValidity::Valid(nb) });
                    }
                    assert forall|s2: int| 0 <= s2 < self.entries@.len() implies match (#[trigger] self.entries@[s2]).validity {
                        PageValidity::Valid(buf) => {
                            &&& self.entries@[s2].address + self.page_size <= w1.len()
                            &&& buf@ == w1.subrange(self.entries@[s2].address as int, self.entries@[s2].address + self.page_size)
                        },
                        PageValidity::Invalid => true,
                    } by {
                        if self.entries@[s2].validity is Valid && !(held && s2 == s) {
                            let p2 = self.entries@[s2].address;
                            if p2 == pb {
                                assert(s2 == s);
                            }
                            lemma_pages_disjoint(p2, pb, ps);
                            assert(w1.subrange(p2 as int, p2 + ps) =~= w0.subrange(p2 as int, p2 + ps));
                        }
                    }
                    pos = pos + cl;
                }
                assert(d.take(l as int) =~= d);
            }
            k = k + 1;
        }
        assert(data@.take(n as int) =~= data@);
        Ok(())
    }
}

} // verus!
