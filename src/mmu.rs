use vstd::prelude::*;
use crate::error::Error;
use crate::phys_mem::{PhysicalMemory, PhysicalReadData, reads_filled};
use crate::types::{Address, PageType, PhysicalAddress, PAGE_TYPE_NOEXEC, PAGE_TYPE_PAGE_TABLE,
    PAGE_TYPE_READ_ONLY, PAGE_TYPE_WRITEABLE};

verus! {

/// A paging scheme, described as data.
///
/// A walk starts at step 1 with the root table. The entry read at step `s`
/// is selected by the bits of `virtual_address_splits[s - 1]`; the bits of
/// all later splits are the offset into what the entry maps, should it be a
/// leaf. The last split is the offset into the smallest page.
pub struct ArchMMUSpec {
    /// Widths of the index fields, most significant first, then the width of
    /// the page offset.
    pub virtual_address_splits: Vec<u8>,
    /// The steps at which a walk may end in a page.
    pub valid_final_page_steps: Vec<usize>,
    /// Width of the physical address space.
    pub address_space_bits: u8,
    /// Bytes per page-table entry.
    pub pte_size: usize,
    pub present_bit: u8,
    pub writeable_bit: u8,
    pub nx_bit: u8,
    pub large_page_bit: u8,
}

/// Sum of the widths of `s` from index `from` on.
pub open spec fn split_sum(s: Seq<u8>, from: int) -> nat
    decreases s.len() - from,
{
    if from < 0 || from >= s.len() {
        0
    } else {
        s[from] as nat + split_sum(s, from + 1)
    }
}

/// The lowest `b` bits set.
pub open spec fn low_mask(b: u64) -> u64 {
    ((1u64 << b) - 1) as u64
}

/// `a + b`, wrapping at 2^64.
pub open spec fn wrap_add(a: u64, b: u64) -> u64 {
    if a + b <= u64::MAX {
        (a + b) as u64
    } else {
        (a + b - 0x1_0000_0000_0000_0000) as u64
    }
}

/// The little-endian value of up to eight bytes.
pub open spec fn le_u64(s: Seq<u8>) -> u64
    decreases s.len(),
{
    if s.len() == 0 {
        0
    } else {
        (s[0] as u64) | (le_u64(s.drop_first()) << 8u64)
    }
}

/// Whether bit `b` of `x` is set.
pub open spec fn bit_set(x: u64, b: u8) -> bool {
    (x >> (b as u64)) & 1u64 == 1u64
}

/// The paging scheme of an `ArchMMUSpec`, as mathematical values.
pub struct MmuModel {
    pub splits: Seq<u8>,
    pub final_steps: Seq<usize>,
    pub address_space_bits: u8,
    pub pte_size: usize,
    pub present_bit: u8,
    pub writeable_bit: u8,
    pub nx_bit: u8,
    pub large_page_bit: u8,
}

impl View for ArchMMUSpec {
    type V = MmuModel;

    open spec fn view(&self) -> MmuModel {
        MmuModel {
            splits: self.virtual_address_splits@,
            final_steps: self.valid_final_page_steps@,
            address_space_bits: self.address_space_bits,
            pte_size: self.pte_size,
            present_bit: self.present_bit,
            writeable_bit: self.writeable_bit,
            nx_bit: self.nx_bit,
            large_page_bit: self.large_page_bit,
        }
    }
}

impl MmuModel {
    /// The last step of a walk.
    pub open spec fn last_step(&self) -> int {
        self.splits.len() - 1
    }

    pub open spec fn wf(&self) -> bool {
        &&& 2 <= self.splits.len() <= 8
        &&& forall|i: int| 0 <= i < self.splits.len() ==> 1 <= #[trigger] self.splits[i] <= 16
        &&& split_sum(self.splits, 0) <= 64
        &&& self.pte_size == 4 || self.pte_size == 8
        &&& self.splits.last() <= self.address_space_bits < 64
        &&& self.present_bit < 64
        &&& self.writeable_bit < 64
        &&& self.nx_bit < 64
        &&& self.large_page_bit < 64
        &&& forall|i: int|
            0 <= i < self.final_steps.len() ==> 1 <= #[trigger] self.final_steps[i]
                <= self.last_step()
        &&& self.final_steps.contains(self.last_step() as usize)
    }

    /// Width of the offset into a page that a leaf at `step` maps.
    pub open spec fn offset_bits_spec(&self, step: int) -> u64 {
        split_sum(self.splits, step) as u64
    }

    /// Size of a page that a leaf at `step` maps.
    pub open spec fn page_size_step_spec(&self, step: int) -> u64 {
        1u64 << self.offset_bits_spec(step)
    }

    /// Index into the table read at `step`, for virtual address `v`.
    pub open spec fn index_spec(&self, v: u64, step: int) -> u64 {
        (v >> self.offset_bits_spec(step)) & low_mask(self.splits[step - 1] as u64)
    }

    /// Address of the entry read at `step` in the table at `frame`.
    pub open spec fn pte_addr_spec(&self, frame: u64, v: u64, step: int) -> u64 {
        wrap_add(frame, (self.index_spec(v, step) * self.pte_size) as u64)
    }

    /// The entry at `pa` in `mem`.
    pub open spec fn pte_at(&self, mem: Seq<u8>, pa: u64) -> u64 {
        le_u64(mem.subrange(pa as int, pa + self.pte_size))
    }

    /// Bits of an entry that no address within the physical width may set.
    pub open spec fn high_mask(&self) -> u64 {
        !low_mask(self.address_space_bits as u64) & !(1u64 << (self.nx_bit as u64))
    }

    pub open spec fn is_leaf_spec(&self, step: int, pte: u64) -> bool {
        self.final_steps.contains(step as usize) && (step == self.last_step() || bit_set(
            pte,
            self.large_page_bit,
        ))
    }

    /// The table that a non-leaf entry points at.
    pub open spec fn next_frame_spec(&self, pte: u64) -> u64 {
        pte & low_mask(self.address_space_bits as u64) & !low_mask(self.splits.last() as u64)
    }

    /// The page type of a leaf entry at `step`.
    pub open spec fn leaf_type_spec(&self, step: int, pte: u64) -> PageType {
        PageType(
            ((if bit_set(pte, self.writeable_bit) {
                PAGE_TYPE_WRITEABLE
            } else {
                PAGE_TYPE_READ_ONLY
            }) | (if bit_set(pte, self.nx_bit) {
                PAGE_TYPE_NOEXEC
            } else {
                0u8
            }) | (if step == self.last_step() {
                PAGE_TYPE_PAGE_TABLE
            } else {
                0u8
            })) as u8,
        )
    }

    /// The start of the page that a leaf entry at `step` maps.
    pub open spec fn leaf_base_spec(&self, step: int, pte: u64) -> u64 {
        pte & low_mask(self.address_space_bits as u64) & !low_mask(self.offset_bits_spec(step))
    }

    /// Where `v` lands through a leaf entry at `step`.
    pub open spec fn leaf_spec(&self, step: int, pte: u64, v: u64) -> PhysicalAddress {
        PhysicalAddress {
            address: Address(self.leaf_base_spec(step, pte) | (v & low_mask(self.offset_bits_spec(step)))),
            page_type: self.leaf_type_spec(step, pte),
            page_size: self.page_size_step_spec(step),
        }
    }

    /// The rest of the walk of `v` from step `step`, in the table at `frame`.
    pub open spec fn walk(&self, mem: Seq<u8>, frame: u64, v: u64, step: int) -> Result<PhysicalAddress, Error>
        decreases self.splits.len() - step,
    {
        if step < 1 || step > self.last_step() {
            Err(Error::InvalidPageTable)
        } else {
            let pte = self.pte_at(mem, self.pte_addr_spec(frame, v, step));
            if !bit_set(pte, self.present_bit) {
                Err(Error::PageNotPresent)
            } else if pte & self.high_mask() != 0 {
                Err(Error::InvalidPageTable)
            } else if self.is_leaf_spec(step, pte) {
                Ok(self.leaf_spec(step, pte, v))
            } else {
                self.walk(mem, self.next_frame_spec(pte), v, step + 1)
            }
        }
    }

    /// The translation of `v` through the tables rooted at `dtb` in `mem`.
    pub open spec fn translate(&self, mem: Seq<u8>, dtb: u64, v: u64) -> Result<PhysicalAddress, Error> {
        self.walk(mem, dtb, v, 1)
    }

    /// What the entry `pte` read at `step` decides for `v`: a result, or
    /// `None` where the walk goes on in the table the entry points at.
    pub open spec fn step_outcome(&self, step: int, pte: u64, v: u64) -> Option<Result<PhysicalAddress, Error>> {
        if !bit_set(pte, self.present_bit) {
            Some(Err(Error::PageNotPresent))
        } else if pte & self.high_mask() != 0 {
            Some(Err(Error::InvalidPageTable))
        } else if self.is_leaf_spec(step, pte) {
            Some(Ok(self.leaf_spec(step, pte, v)))
        } else {
            None
        }
    }
}


/// Later splits sum to no more than earlier ones.
pub proof fn lemma_split_sum_mono(s: Seq<u8>, a: int, b: int)
    requires
        0 <= a <= b,
    ensures
        split_sum(s, b) <= split_sum(s, a),
    decreases b - a,
{
    if a < b {
        lemma_split_sum_mono(s, a + 1, b);
    }
}

proof fn lemma_offset_bits_bounds(m: MmuModel, step: int)
    requires
        m.wf(),
        1 <= step <= m.last_step(),
    ensures
        m.splits.last() <= split_sum(m.splits, step) < 64,
{
    lemma_split_sum_mono(m.splits, 1, step);
    lemma_split_sum_mono(m.splits, step, m.last_step());
    assert(split_sum(m.splits, m.last_step() + 1) == 0);
    assert(m.splits[0] >= 1);
}

fn low_mask_exec(b: u64) -> (r: u64)
    requires
        b < 64,
    ensures
        r == low_mask(b),
{
    assert((1u64 << b) >= 1u64) by (bit_vector)
        requires
            b < 64,
    ;
    (1u64 << b) - 1
}

fn wrap_add_exec(a: u64, b: u64) -> (r: u64)
    ensures
        r == wrap_add(a, b),
{
    if a <= u64::MAX - b {
        a + b
    } else {
        b - (u64::MAX - a) - 1
    }
}

fn bit_set_exec(x: u64, b: u8) -> (r: bool)
    requires
        b < 64,
    ensures
        r == bit_set(x, b),
{
    (x >> (b as u64)) & 1u64 == 1u64
}

/// The little-endian value of the bytes of `b`.
pub fn le_u64_exec(b: &Vec<u8>) -> (r: u64)
    ensures
        r == le_u64(b@),
{
    let mut v: u64 = 0;
    let mut i: usize = b.len();
    assert(b@.subrange(i as int, b@.len() as int) =~= Seq::<u8>::empty());
    while i > 0
        invariant
            i <= b@.len(),
            v == le_u64(b@.subrange(i as int, b@.len() as int)),
        decreases i,
    {
        let ghost tail = b@.subrange(i as int, b@.len() as int);
        let ghost longer = b@.subrange(i - 1, b@.len() as int);
        assert(longer.drop_first() =~= tail);
        v = (b[i - 1] as u64) | (v << 8u64);
        i = i - 1;
    }
    assert(b@.subrange(0, b@.len() as int) =~= b@);
    v
}

impl ArchMMUSpec {
    /// Width of the offset into a page that a leaf at `step` maps.
    pub fn offset_bits(&self, step: usize) -> (r: u64)
        requires
            self@.wf(),
            1 <= step <= self@.last_step(),
        ensures
            r == self@.offset_bits_spec(step as int),
            self@.splits.last() <= r < 64,
    {
        proof {
            lemma_offset_bits_bounds(self@, step as int);
        }
        let n = self.virtual_address_splits.len();
        let mut acc: u64 = 0;
        let mut i: usize = n;
        while i > step
            invariant
                self@.wf(),
                n == self@.splits.len(),
                1 <= step <= i <= n,
                acc == split_sum(self@.splits, i as int),
                split_sum(self@.splits, step as int) < 64,
            decreases i,
        {
            proof {
                lemma_split_sum_mono(self@.splits, step as int, i - 1);
            }
            acc = acc + self.virtual_address_splits[i - 1] as u64;
            i = i - 1;
        }
        acc
    }

    /// Size of a page that a leaf at `step` maps.
    pub fn page_size_step(&self, step: usize) -> (r: u64)
        requires
            self@.wf(),
            1 <= step <= self@.last_step(),
        ensures
            r == self@.page_size_step_spec(step as int),
    {
        let b = self.offset_bits(step);
        1u64 << b
    }

    /// Size of a page at paging level `level`: 1 is the smallest page, 2 the
    /// one a leaf of the level above maps, and so on.
    pub fn page_size_level(&self, level: usize) -> (r: u64)
        requires
            self@.wf(),
            1 <= level <= self@.last_step(),
        ensures
            r == self@.page_size_step_spec(self@.splits.len() - level),
    {
        self.page_size_step(self.virtual_address_splits.len() - level)
    }

    fn is_final_step(&self, step: usize) -> (r: bool)
        ensures
            r == self@.final_steps.contains(step),
    {
        let n = self.valid_final_page_steps.len();
        let mut i: usize = 0;
        while i < n
            invariant
                n == self.valid_final_page_steps@.len(),
                i <= n,
                forall|k: int| 0 <= k < i ==> self.valid_final_page_steps@[k] != step,
            decreases n - i,
        {
            if self.valid_final_page_steps[i] == step {
                return true;
            }
            i = i + 1;
        }
        false
    }
}


impl ArchMMUSpec {
    fn pte_addr(&self, frame: u64, v: u64, step: usize) -> (r: u64)
        requires
            self@.wf(),
            1 <= step <= self@.last_step(),
        ensures
            r == self@.pte_addr_spec(frame, v, step as int),
    {
        let off = self.offset_bits(step);
        let w = self.virtual_address_splits[step - 1] as u64;
        let m = low_mask_exec(w);
        assert(m <= 65535u64) by (bit_vector)
            requires
                w <= 16,
                m == ((1u64 << w) - 1) as u64,
        ;
        let idx = (v >> off) & m;
        assert(idx <= m) by (bit_vector)
            requires
                idx == (v >> off) & m,
        ;
        let sz = self.pte_size as u64;
        assert(idx * sz <= 65535 * 8) by (nonlinear_arith)
            requires
                idx <= 65535,
                sz <= 8,
        ;
        wrap_add_exec(frame, idx * sz)
    }

    fn next_frame(&self, pte: u64) -> (r: u64)
        requires
            self@.wf(),
        ensures
            r == self@.next_frame_spec(pte),
    {
        let last = self.virtual_address_splits[self.virtual_address_splits.len() - 1] as u64;
        pte & low_mask_exec(self.address_space_bits as u64) & !low_mask_exec(last)
    }

    fn decode_pte(&self, step: usize, pte: u64, v: u64) -> (r: Option<Result<PhysicalAddress, Error>>)
        requires
            self@.wf(),
            1 <= step <= self@.last_step(),
        ensures
            r == self@.step_outcome(step as int, pte, v),
            step == self@.last_step() ==> r is Some,
    {
        if !bit_set_exec(pte, self.present_bit) {
            return Some(Err(Error::PageNotPresent));
        }
        let asb_mask = low_mask_exec(self.address_space_bits as u64);
        let high = !asb_mask & !(1u64 << (self.nx_bit as u64));
        if pte & high != 0 {
            return Some(Err(Error::InvalidPageTable));
        }
        let last = self.virtual_address_splits.len() - 1;
        let leaf = self.is_final_step(step) && (step == last || bit_set_exec(pte, self.large_page_bit));
        if !leaf {
            return None;
        }
        let off = self.offset_bits(step);
        let off_mask = low_mask_exec(off);
        let base = pte & asb_mask & !off_mask;
        let wr: u8 = if bit_set_exec(pte, self.writeable_bit) {
            PAGE_TYPE_WRITEABLE
        } else {
            PAGE_TYPE_READ_ONLY
        };
        let nx: u8 = if bit_set_exec(pte, self.nx_bit) {
            PAGE_TYPE_NOEXEC
        } else {
            0u8
        };
        let pt: u8 = if step == last {
            PAGE_TYPE_PAGE_TABLE
        } else {
            0u8
        };
        Some(
            Ok(
                PhysicalAddress {
                    address: Address(base | (v & off_mask)),
                    page_type: PageType(wr | nx | pt),
                    page_size: 1u64 << off,
                },
            ),
        )
    }
}

/// One address still being walked: where its result goes, and the table in
/// which its walk goes on.
#[derive(Clone, Copy)]
struct WalkItem {
    addr: u64,
    slot: usize,
    frame: u64,
}

/// Whether `it` stands for address `addrs[it.slot]`, and the rest of its walk
/// from `step` comes to its translation.
spec fn item_ok(m: &ArchMMUSpec, mem: Seq<u8>, dtb: u64, addrs: Seq<Address>, it: WalkItem, step: int) -> bool {
    &&& it.slot < addrs.len()
    &&& it.addr == addrs[it.slot as int].0
    &&& m@.walk(mem, it.frame, it.addr, step) == m@.translate(mem, dtb, it.addr)
    &&& m@.on_walk(mem, dtb, it.addr, 1, it.frame, step)
}

/// Whether the requests of a batch are at pairwise different addresses.
pub open spec fn distinct_addrs(b: Seq<PhysicalReadData>) -> bool {
    forall|i: int, j: int| 0 <= i < j < b.len() ==> #[trigger] b[i].0.address.0 != #[trigger] b[j].0.address.0
}

/// Index of the request of `reads` at address `a`, if there is one.
fn find_read(reads: &Vec<PhysicalReadData>, a: u64) -> (r: Option<usize>)
    ensures
        match r {
            Some(j) => j < reads@.len() && reads@[j as int].0.address.0 == a,
            None => forall|k: int| 0 <= k < reads@.len() ==> (#[trigger] reads@[k]).0.address.0 != a,
        },
{
    let n = reads.len();
    let mut j: usize = 0;
    while j < n
        invariant
            n == reads@.len(),
            j <= n,
            forall|k: int| 0 <= k < j ==> (#[trigger] reads@[k]).0.address.0 != a,
        decreases n - j,
    {
        if reads[j].0.address.0 == a {
            return Some(j);
        }
        j = j + 1;
    }
    None
}

impl ArchMMUSpec {
    /// Translates every address of `addrs` through the tables rooted at `dtb`,
    /// and appends one result per address to `out`, in order.
    ///
    /// All addresses are walked together: each step reads the entries that
    /// it needs, each distinct entry once, in one batch.
    pub fn virt_to_phys_iter<T: PhysicalMemory>(
        &self,
        mem: &mut T,
        dtb: Address,
        addrs: &Vec<Address>,
        out: &mut Vec<Result<PhysicalAddress, Error>>,
    ) -> (r: Result<(), Error>)
        requires
            self@.wf(),
            old(mem).inv(),
        ensures
            final(mem).inv(),
            final(mem).phys_view() == old(mem).phys_view(),
            r is Ok ==> final(out)@.len() == old(out)@.len() + addrs@.len(),
            r is Ok ==> final(out)@.subrange(0, old(out)@.len() as int) == old(out)@,
            r is Ok ==> forall|i: int|
                0 <= i < addrs@.len() ==> #[trigger] final(out)@[old(out)@.len() + i] == self@.translate(
                    old(mem).phys_view(),
                    dtb.0,
                    addrs@[i].0,
                ),
            r is Err ==> final(out)@ == old(out)@,
            final(mem).write_log() == old(mem).write_log(),
            final(mem).read_log().subrange(0, old(mem).read_log().len() as int) == old(mem).read_log(),
            final(mem).read_log().len() <= old(mem).read_log().len() + self@.last_step(),
            forall|t: int|
                old(mem).read_log().len() <= t < final(mem).read_log().len() ==> distinct_addrs(
                    #[trigger] final(mem).read_log()[t],
                ),
            addrs@.len() == 0 ==> r is Ok && final(out)@ == old(out)@ && final(mem).read_log() == old(mem).read_log(),
            forall|t: int|
                old(mem).read_log().len() <= t < final(mem).read_log().len() ==> #[trigger] self@.entry_batch(
                    old(mem).phys_view(),
                    dtb.0,
                    addrs@,
                    final(mem).read_log()[t],
                ),
            final(mem).read_oks().subrange(0, old(mem).read_oks().len() as int) == old(mem).read_oks(),
            final(mem).read_oks().len() - old(mem).read_oks().len() == final(mem).read_log().len() - old(mem).read_log().len(),
            forall|t: int| old(mem).read_oks().len() <= t < final(mem).read_oks().len() - 1 ==> #[trigger] final(mem).read_oks()[t],
            r is Ok ==> forall|t: int| old(mem).read_oks().len() <= t < final(mem).read_oks().len() ==> #[trigger] final(mem).read_oks()[t],
            r is Err ==> final(mem).read_oks().len() > old(mem).read_oks().len() && !final(mem).read_oks().last(),
    {
        let ghost view = mem.phys_view();
        let ghost rlog0 = mem.read_log();
        let ghost oks0 = mem.read_oks();
        let ghost wlog0 = mem.write_log();
        let n = addrs.len();
        let mut res: Vec<Result<PhysicalAddress, Error>> = Vec::new();
        let mut work: Vec<WalkItem> = Vec::new();
        let mut i: usize = 0;
        while i < n
            invariant
                n == addrs@.len(),
                i <= n,
                res@.len() == i,
                work@.len() == i,
                mem.inv(),
                mem.phys_view() == view,
                mem.read_log() == rlog0,
                mem.write_log() == wlog0,
                rlog0 == old(mem).read_log(),
                wlog0 == old(mem).write_log(),
                out@ == old(out)@,
                mem.read_log() == rlog0,
                mem.write_log() == wlog0,
                rlog0 == old(mem).read_log(),
                wlog0 == old(mem).write_log(),
                forall|k: int| 0 <= k < i ==> #[trigger] work@[k] == (WalkItem { addr: addrs@[k].0, slot: k as usize, frame: dtb.0 }),
            decreases n - i,
        {
            res.push(Err(Error::PageNotPresent));
            work.push(WalkItem { addr: addrs[i].0, slot: i, frame: dtb.0 });
            i = i + 1;
        }
        let nsplits = self.virtual_address_splits.len();
        let mut step: usize = 1;
        assert forall|i: int| 0 <= i < n implies res@[i] == self@.translate(view, dtb.0, addrs@[i].0) || exists|k: int|
            0 <= k < work@.len() && (#[trigger] work@[k]).slot == i by {
            assert(work@[i].slot == i);
        }
        while step < nsplits && work.len() > 0
            invariant
                self@.wf(),
                nsplits == self@.splits.len(),
                1 <= step <= nsplits,
                mem.inv(),
                mem.phys_view() == view,
                view == old(mem).phys_view(),
                out@ == old(out)@,
                mem.write_log() == wlog0,
                rlog0 == old(mem).read_log(),
                wlog0 == old(mem).write_log(),
                mem.read_log().subrange(0, rlog0.len() as int) == rlog0,
                rlog0.len() <= mem.read_log().len() <= rlog0.len() + step - 1,
                forall|t: int| rlog0.len() <= t < mem.read_log().len() ==> distinct_addrs(#[trigger] mem.read_log()[t]),
                n == 0 ==> work@.len() == 0 && mem.read_log() == rlog0,
                forall|t: int| rlog0.len() <= t < mem.read_log().len() ==> #[trigger] self@.entry_batch(
                    view, dtb.0, addrs@, mem.read_log()[t]),
                oks0 == old(mem).read_oks(),
                mem.read_oks().subrange(0, oks0.len() as int) == oks0,
                mem.read_oks().len() - oks0.len() == mem.read_log().len() - rlog0.len(),
                forall|t: int| oks0.len() <= t < mem.read_oks().len() ==> #[trigger] mem.read_oks()[t],
                n == addrs@.len(),
                res@.len() == n,
                forall|k: int| 0 <= k < work@.len() ==> item_ok(self, view, dtb.0, addrs@, #[trigger] work@[k], step as int),
                forall|i: int| 0 <= i < n ==> res@[i] == self@.translate(view, dtb.0, addrs@[i].0) || exists|k: int|
                    0 <= k < work@.len() && (#[trigger] work@[k]).slot == i,
                step == nsplits ==> work@.len() == 0,
            decreases nsplits - step,
        {
            let ghost rls = mem.read_log();
            let ghost okss = mem.read_oks();
            let wl = work.len();
            let mut reads: Vec<PhysicalReadData> = Vec::new();
            let mut which: Vec<usize> = Vec::new();
            let mut k: usize = 0;
            while k < wl
                invariant
                    self@.wf(),
                    1 <= step < nsplits,
                    nsplits == self@.splits.len(),
                    wl == work@.len(),
                    k <= wl,
                    mem.inv(),
                    mem.phys_view() == view,
                    out@ == old(out)@,
                    mem.read_log() == rls,
                    mem.read_oks() == okss,
                    mem.write_log() == wlog0,
                rlog0 == old(mem).read_log(),
                wlog0 == old(mem).write_log(),
                    distinct_addrs(reads@),
                    n == addrs@.len(),
                    forall|k2: int| 0 <= k2 < wl ==> item_ok(self, view, dtb.0, addrs@, #[trigger] work@[k2], step as int),
                    forall|j: int| 0 <= j < reads@.len() ==> #[trigger] self@.entry_request(view, dtb.0, addrs@, reads@[j]),
                    which@.len() == k,
                    forall|j: int| 0 <= j < k ==> #[trigger] which@[j] < reads@.len() && reads@[which@[j] as int].0.address.0
                        == self@.pte_addr_spec(work@[j].frame, work@[j].addr, step as int),
                    forall|j: int| 0 <= j < reads@.len() ==> (#[trigger] reads@[j]).1@.len() == self.pte_size,
                decreases wl - k,
            {
                let it = work[k];
                let pa = self.pte_addr(it.frame, it.addr, step);
                match find_read(&reads, pa) {
                    Some(j) => {
                        which.push(j);
                    },
                    None => {
                        proof {
                            assert(item_ok(self, view, dtb.0, addrs@, it, step as int));
                            assert(self@.on_walk(view, dtb.0, it.addr, 1, it.frame, step as int));
                            assert(self@.walk_entry(view, dtb.0, addrs@[it.slot as int].0, pa));
                        }
                        let ghost reads_before = reads@;
                        reads.push(
                            PhysicalReadData(
                                PhysicalAddress::with_page(Address(pa), PageType::page_table(), 0),
                                vec![0u8; self.pte_size],
                            ),
                        );
                        proof {
                            let last = reads@[reads@.len() - 1];
                            assert(last.0.address.0 == pa);
                            assert(last.1@.len() == self.pte_size);
                            assert(0 <= it.slot < addrs@.len());
                            assert(self@.walk_entry(view, dtb.0, addrs@[it.slot as int].0, last.0.address.0));
                            assert(self@.entry_request(view, dtb.0, addrs@, reads@[reads@.len() - 1]));
                            assert forall|j: int| 0 <= j < reads@.len() implies #[trigger] self@.entry_request(
                                view, dtb.0, addrs@, reads@[j]) by {
                                if j < reads_before.len() {
                                    assert(reads@[j] == reads_before[j]);
                                }
                            }
                        }
                        which.push(reads.len() - 1);
                    },
                }
                k = k + 1;
            }
            let ghost before = reads@;
            let rr = mem.phys_read_raw_list(&mut reads);
            proof {
                assert(mem.read_log().subrange(0, rlog0.len() as int) =~= rls.subrange(0, rlog0.len() as int));
                assert(mem.read_log()[mem.read_log().len() - 1] == before);
                assert(self@.entry_batch(view, dtb.0, addrs@, before));
                assert(mem.read_oks().subrange(0, oks0.len() as int) =~= okss.subrange(0, oks0.len() as int));
                assert forall|t: int| rlog0.len() <= t < mem.read_log().len() implies #[trigger] self@.entry_batch(
                    view, dtb.0, addrs@, mem.read_log()[t]) by {
                    if t < mem.read_log().len() - 1 {
                        assert(mem.read_log()[t] == rls[t]);
                    }
                }
                assert forall|t: int| oks0.len() <= t < mem.read_oks().len() - 1 implies #[trigger] mem.read_oks()[t] by {
                    assert(mem.read_oks()[t] == okss[t]);
                }
            }
            match rr {
                Err(e) => {
                    return Err(e);
                },
                Ok(_) => {},
            }
            let mut next: Vec<WalkItem> = Vec::new();
            let mut k: usize = 0;
            while k < wl
                invariant
                    self@.wf(),
                    1 <= step < nsplits,
                    nsplits == self@.splits.len(),
                    wl == work@.len(),
                    k <= wl,
                    mem.inv(),
                    mem.phys_view() == view,
                    out@ == old(out)@,
                    mem.read_log() == rls.push(before),
                    mem.write_log() == wlog0,
                rlog0 == old(mem).read_log(),
                wlog0 == old(mem).write_log(),
                    n == addrs@.len(),
                    res@.len() == n,
                    which@.len() == wl,
                    reads_filled(view, before, reads@),
                    forall|j: int| 0 <= j < wl ==> #[trigger] which@[j] < before.len() && before[which@[j] as int].0.address.0
                        == self@.pte_addr_spec(work@[j].frame, work@[j].addr, step as int),
                    forall|j: int| 0 <= j < before.len() ==> (#[trigger] before[j]).1@.len() == self.pte_size,
                    forall|k2: int| 0 <= k2 < wl ==> item_ok(self, view, dtb.0, addrs@, #[trigger] work@[k2], step as int),
                    forall|j: int| 0 <= j < next@.len() ==> item_ok(self, view, dtb.0, addrs@, #[trigger] next@[j], step + 1),
                    forall|i: int| 0 <= i < n ==> res@[i] == self@.translate(view, dtb.0, addrs@[i].0)
                        || (exists|k2: int| k <= k2 < wl && (#[trigger] work@[k2]).slot == i)
                        || (exists|j: int| 0 <= j < next@.len() && (#[trigger] next@[j]).slot == i),
                    step == self@.last_step() ==> next@.len() == 0,
                decreases wl - k,
            {
                let it = work[k];
                let w = which[k];
                let pte = le_u64_exec(&reads[w].1);
                let ghost pa = self@.pte_addr_spec(it.frame, it.addr, step as int);
                proof {
                    assert(before[w as int].1@.len() > 0);
                    assert(reads@[w as int].0 == before[w as int].0);
                    assert(reads@[w as int].1@ == view.subrange(pa as int, pa + self.pte_size));
                    assert(pte == self@.pte_at(view, pa));
                    assert(item_ok(self, view, dtb.0, addrs@, it, step as int));
                }
                let ghost res_before = res@;
                let ghost next_before = next@;
                match self.decode_pte(step, pte, it.addr) {
                    Some(x) => {
                        res.set(it.slot, x);
                    },
                    None => {
                        let f = self.next_frame(pte);
                        proof {
                            lemma_on_walk_extend(self@, view, dtb.0, it.addr, 1, it.frame, step as int);
                        }
                        next.push(WalkItem { addr: it.addr, slot: it.slot, frame: f });
                        assert(item_ok(self, view, dtb.0, addrs@, next@[next@.len() - 1], step + 1));
                    },
                }
                assert forall|i: int| 0 <= i < n implies res@[i] == self@.translate(view, dtb.0, addrs@[i].0)
                    || (exists|k2: int| k + 1 <= k2 < wl && (#[trigger] work@[k2]).slot == i)
                    || (exists|j: int| 0 <= j < next@.len() && (#[trigger] next@[j]).slot == i) by {
                    if res_before[i] == self@.translate(view, dtb.0, addrs@[i].0) {
                        if i != it.slot {
                            assert(res@[i] == res_before[i]);
                        }
                    } else if exists|j: int| 0 <= j < next_before.len() && (#[trigger] next_before[j]).slot == i {
                        let j = choose|j: int| 0 <= j < next_before.len() && (#[trigger] next_before[j]).slot == i;
                        assert(next@[j] == next_before[j]);
                    } else {
                        let k2 = choose|k2: int| k <= k2 < wl && (#[trigger] work@[k2]).slot == i;
                        if k2 > k {
                        } else if next@.len() > next_before.len() {
                            assert(next@[next@.len() - 1].slot == i);
                        }
                    }
                }
                k = k + 1;
            }
            work = next;
            step = step + 1;
        }
        let ghost out_before = out@;
        let ghost rlog_end = mem.read_log();
        let ob = out.len();
        let mut i: usize = 0;
        while i < n
            invariant
                n == addrs@.len(),
                res@.len() == n,
                i <= n,
                out@.len() == ob + i,
                out@.subrange(0, ob as int) == out_before,
                mem.inv(),
                mem.phys_view() == view,
                forall|j: int| 0 <= j < i ==> #[trigger] out@[ob + j] == res@[j],
            decreases n - i,
        {
            out.push(res[i]);
            proof {
                assert(out@.subrange(0, ob as int) =~= out_before);
            }
            i = i + 1;
        }
        assert forall|j: int| 0 <= j < n implies res@[j] == self@.translate(view, dtb.0, addrs@[j].0) by {
            if res@[j] != self@.translate(view, dtb.0, addrs@[j].0) {
                let k = choose|k: int| 0 <= k < work@.len() && (#[trigger] work@[k]).slot == j;
            }
        }
        assert(out_before.len() == ob);
        Ok(())
    }
}


impl MmuModel {
    /// The leaf entry that the walk of `v` from `step` ends in, as its step,
    /// its address and its value; `None` where the walk fails.
    pub open spec fn leaf_of(&self, mem: Seq<u8>, frame: u64, v: u64, step: int) -> Option<(int, u64, u64)>
        decreases self.splits.len() - step,
    {
        if step < 1 || step > self.last_step() {
            None
        } else {
            let pa = self.pte_addr_spec(frame, v, step);
            let pte = self.pte_at(mem, pa);
            if !bit_set(pte, self.present_bit) || pte & self.high_mask() != 0 {
                None
            } else if self.is_leaf_spec(step, pte) {
                Some((step, pa, pte))
            } else {
                self.leaf_of(mem, self.next_frame_spec(pte), v, step + 1)
            }
        }
    }
}

impl MmuModel {
    /// Whether the walk of `v` that is at `frame0` at step `step0` reaches
    /// the table at `frame` at step `step`.
    pub open spec fn on_walk(&self, mem: Seq<u8>, frame0: u64, v: u64, step0: int, frame: u64, step: int) -> bool
        decreases step - step0,
    {
        if step0 == step {
            frame0 == frame
        } else if step0 > step || step0 < 1 || step0 > self.last_step() {
            false
        } else {
            let pte = self.pte_at(mem, self.pte_addr_spec(frame0, v, step0));
            &&& bit_set(pte, self.present_bit)
            &&& pte & self.high_mask() == 0
            &&& !self.is_leaf_spec(step0, pte)
            &&& self.on_walk(mem, self.next_frame_spec(pte), v, step0 + 1, frame, step)
        }
    }

    /// Whether the walk of `v` from the root `dtb` reads the entry at `pa`.
    pub open spec fn walk_entry(&self, mem: Seq<u8>, dtb: u64, v: u64, pa: u64) -> bool {
        exists|frame: u64, step: int|
            1 <= step <= self.last_step() && #[trigger] self.on_walk(mem, dtb, v, 1, frame, step) && pa
                == self.pte_addr_spec(frame, v, step)
    }

    /// Whether a request reads one entry, whole, that the walk of some
    /// address of `addrs` reads.
    pub open spec fn entry_request(&self, mem: Seq<u8>, dtb: u64, addrs: Seq<Address>, r: PhysicalReadData) -> bool {
        &&& r.1@.len() == self.pte_size
        &&& exists|i: int| 0 <= i < addrs.len() && #[trigger] self.walk_entry(mem, dtb, addrs[i].0, r.0.address.0)
    }

    /// Whether every request of a batch is such an entry request.
    pub open spec fn entry_batch(&self, mem: Seq<u8>, dtb: u64, addrs: Seq<Address>, b: Seq<PhysicalReadData>) -> bool {
        forall|j: int| 0 <= j < b.len() ==> #[trigger] self.entry_request(mem, dtb, addrs, b[j])
    }
}

/// A walk that goes on past `frame` at `step` reaches the table the entry
/// there points at.
proof fn lemma_on_walk_extend(m: MmuModel, mem: Seq<u8>, frame0: u64, v: u64, step0: int, frame: u64, step: int)
    requires
        1 <= step0 <= step <= m.last_step(),
        m.on_walk(mem, frame0, v, step0, frame, step),
        bit_set(m.pte_at(mem, m.pte_addr_spec(frame, v, step)), m.present_bit),
        m.pte_at(mem, m.pte_addr_spec(frame, v, step)) & m.high_mask() == 0,
        !m.is_leaf_spec(step, m.pte_at(mem, m.pte_addr_spec(frame, v, step))),
    ensures
        m.on_walk(mem, frame0, v, step0, m.next_frame_spec(m.pte_at(mem, m.pte_addr_spec(frame, v, step))), step + 1),
    decreases step - step0,
{
    let next = m.next_frame_spec(m.pte_at(mem, m.pte_addr_spec(frame, v, step)));
    if step0 == step {
        assert(m.on_walk(mem, next, v, step + 1, next, step + 1));
    } else {
        let pte0 = m.pte_at(mem, m.pte_addr_spec(frame0, v, step0));
        lemma_on_walk_extend(m, mem, m.next_frame_spec(pte0), v, step0 + 1, frame, step);
    }
}

proof fn lemma_walk_ends_in_leaf(m: MmuModel, mem: Seq<u8>, frame: u64, v: u64, step: int)
    requires
        m.leaf_of(mem, frame, v, step) is Some,
    ensures
        ({
            let (s, pa, pte) = m.leaf_of(mem, frame, v, step)->0;
            &&& 1 <= s <= m.last_step()
            &&& m.walk(mem, frame, v, step) == Ok::<PhysicalAddress, Error>(m.leaf_spec(s, pte, v))
        }),
    decreases m.splits.len() - step,
{
    let pte = m.pte_at(mem, m.pte_addr_spec(frame, v, step));
    if !m.is_leaf_spec(step, pte) {
        lemma_walk_ends_in_leaf(m, mem, m.next_frame_spec(pte), v, step + 1);
    }
}

/// Translating an address twice over the same memory gives the same result
/// both times: a translation depends on the scheme, the memory, the root
/// and the address alone.
pub proof fn lemma_translate_deterministic(m: MmuModel, mem1: Seq<u8>, mem2: Seq<u8>, dtb: u64, v: u64)
    requires
        mem1 == mem2,
    ensures
        m.translate(mem1, dtb, v) == m.translate(mem2, dtb, v),
{
}

/// Splitting an address into its page part and its offset and adding them
/// back gives the same address, and so the same translation.
pub proof fn lemma_translate_page_split(m: MmuModel, mem: Seq<u8>, dtb: u64, v: u64, page_size: u64)
    requires
        page_size > 0,
    ensures
        (v & !((page_size - 1) as u64)) + (v & ((page_size - 1) as u64)) == v,
        m.translate(mem, dtb, ((v & !((page_size - 1) as u64)) + (v & ((page_size - 1) as u64))) as u64)
            == m.translate(mem, dtb, v),
{
    let k = (page_size - 1) as u64;
    assert((v & !k) + (v & k) == v) by (bit_vector);
}

/// Two addresses whose walks end in the same leaf entry land in the same
/// page: their translations have the same page base and page size.
pub proof fn lemma_same_leaf_same_page(m: MmuModel, mem: Seq<u8>, dtb: u64, v1: u64, v2: u64)
    requires
        m.wf(),
        m.leaf_of(mem, dtb, v1, 1) is Some,
        m.leaf_of(mem, dtb, v1, 1) == m.leaf_of(mem, dtb, v2, 1),
    ensures
        m.translate(mem, dtb, v1) is Ok,
        m.translate(mem, dtb, v2) is Ok,
        ({
            let r1 = m.translate(mem, dtb, v1)->Ok_0;
            let r2 = m.translate(mem, dtb, v2)->Ok_0;
            &&& r1.page_size == r2.page_size
            &&& r1.address.0 & !((r1.page_size - 1) as u64) == r2.address.0 & !((r2.page_size - 1) as u64)
        }),
{
    lemma_walk_ends_in_leaf(m, mem, dtb, v1, 1);
    lemma_walk_ends_in_leaf(m, mem, dtb, v2, 1);
    let (s, pa, pte) = m.leaf_of(mem, dtb, v1, 1)->0;
    lemma_offset_bits_bounds(m, s);
    let off = m.offset_bits_spec(s);
    let asb = low_mask(m.address_space_bits as u64);
    assert(((pte & asb & !(((1u64 << off) - 1) as u64)) | (v1 & (((1u64 << off) - 1) as u64))) & !((((1u64
        << off) - 1) as u64)) == ((pte & asb & !(((1u64 << off) - 1) as u64)) | (v2 & (((1u64 << off) - 1) as u64)))
        & !((((1u64 << off) - 1) as u64))) by (bit_vector)
        requires
            off < 64,
    ;
}

} // verus!
