//! The architectures a target can have. Each is a tag that selects a pointer
//! width, a byte order, a page size, and a paging scheme.
use vstd::prelude::*;
use crate::error::Error;
use crate::mmu::{ArchMMUSpec, MmuModel, distinct_addrs};
use crate::phys_mem::PhysicalMemory;
use crate::types::{Address, Length, PageType, PhysicalAddress, PAGE_TYPE_UNKNOWN};

pub mod x64;
pub mod x86;
pub mod x86_pae;

verus! {

/// The byte order of an architecture.
#[derive(Debug, Clone, Copy, PartialEq, Eq, Structural)]
pub enum ByteOrder {
    LittleEndian,
    BigEndian,
}

/// The architecture of a target.
#[derive(Debug, Clone, Copy, PartialEq, Eq, Structural)]
pub enum Architecture {
    /// No paging: every address translates to itself.
    Null,
    /// x86_64.
    X64,
    /// x86 with physical address extension.
    X86Pae,
    /// x86.
    X86,
}

impl Architecture {
    /// The byte that stands for the architecture.
    pub open spec fn tag(self) -> u8 {
        match self {
            Architecture::Null => 0,
            Architecture::X64 => 1,
            Architecture::X86Pae => 2,
            Architecture::X86 => 3,
        }
    }

    /// The architecture that a byte stands for.
    pub open spec fn from_tag(value: u8) -> Result<Architecture, Error> {
        if value == 0 {
            Ok(Architecture::Null)
        } else if value == 1 {
            Ok(Architecture::X64)
        } else if value == 2 {
            Ok(Architecture::X86Pae)
        } else if value == 3 {
            Ok(Architecture::X86)
        } else {
            Err(Error::InvalidArchitecture)
        }
    }

    pub open spec fn bits_spec(self) -> u8 {
        match self {
            Architecture::Null | Architecture::X64 => 64,
            Architecture::X86Pae | Architecture::X86 => 32,
        }
    }

    /// The paging scheme, where there is one.
    pub open spec fn mmu_model(self) -> Option<MmuModel> {
        match self {
            Architecture::Null => None,
            Architecture::X64 => Some(x64::mmu_model()),
            Architecture::X86Pae => Some(x86_pae::mmu_model()),
            Architecture::X86 => Some(x86::mmu_model()),
        }
    }

    /// The translation of `v` through the tables rooted at `dtb` in `mem`.
    pub open spec fn translate(self, mem: Seq<u8>, dtb: u64, v: u64) -> Result<PhysicalAddress, Error> {
        match self.mmu_model() {
            None => Ok(
                PhysicalAddress { address: Address(v), page_type: PageType(PAGE_TYPE_UNKNOWN), page_size: 0 },
            ),
            Some(m) => m.translate(mem, dtb, v),
        }
    }

    /// Decodes the byte written by `as_u8`.
    pub fn try_from(value: u8) -> (r: Result<Architecture, Error>)
        ensures
            r == Self::from_tag(value),
    {
        match value {
            0 => Ok(Architecture::Null),
            1 => Ok(Architecture::X64),
            2 => Ok(Architecture::X86Pae),
            3 => Ok(Architecture::X86),
            _ => Err(Error::InvalidArchitecture),
        }
    }

    /// The byte that stands for the architecture.
    pub fn as_u8(self) -> (r: u8)
        ensures
            r == self.tag(),
    {
        match self {
            Architecture::Null => 0,
            Architecture::X64 => 1,
            Architecture::X86Pae => 2,
            Architecture::X86 => 3,
        }
    }

    /// Width of a pointer, in bits.
    pub fn bits(self) -> (r: u8)
        ensures
            r == self.bits_spec(),
    {
        match self {
            Architecture::Null => x64::bits(),
            Architecture::X64 => x64::bits(),
            Architecture::X86Pae => x86_pae::bits(),
            Architecture::X86 => x86::bits(),
        }
    }

    pub fn byte_order(self) -> (r: ByteOrder)
        ensures
            r == ByteOrder::LittleEndian,
    {
        match self {
            Architecture::Null => x64::endianess(),
            Architecture::X64 => x64::endianess(),
            Architecture::X86Pae => x86_pae::endianess(),
            Architecture::X86 => x86::endianess(),
        }
    }

    /// The smallest page size.
    pub fn page_size(self) -> (r: Length)
        ensures
            r.0 == 4096,
    {
        match self {
            Architecture::Null => x64::page_size(),
            Architecture::X64 => x64::page_size(),
            Architecture::X86Pae => x86_pae::page_size(),
            Architecture::X86 => x86::page_size(),
        }
    }

    /// Width of a pointer, in bytes.
    pub fn len_addr(self) -> (r: Length)
        ensures
            r.0 == self.bits_spec() / 8,
    {
        match self {
            Architecture::Null => x64::len_addr(),
            Architecture::X64 => x64::len_addr(),
            Architecture::X86Pae => x86_pae::len_addr(),
            Architecture::X86 => x86::len_addr(),
        }
    }

    /// The paging scheme, where there is one.
    pub fn mmu_spec(self) -> (r: Option<ArchMMUSpec>)
        ensures
            r is Some <==> self.mmu_model() is Some,
            r is Some ==> r->0@ == self.mmu_model()->0 && r->0@.wf(),
    {
        match self {
            Architecture::Null => None,
            Architecture::X64 => Some(x64::get_mmu_spec()),
            Architecture::X86Pae => Some(x86_pae::get_mmu_spec()),
            Architecture::X86 => Some(x86::get_mmu_spec()),
        }
    }

    /// Translates every address of `addrs` through the tables rooted at
    /// `dtb`, and appends one result per address to `out`, in order. Fails
    /// only where the backend fails, and then leaves `out` as it was.
    pub fn virt_to_phys_iter<T: PhysicalMemory>(
        self,
        mem: &mut T,
        dtb: Address,
        addrs: &Vec<Address>,
        out: &mut Vec<Result<PhysicalAddress, Error>>,
    ) -> (r: Result<(), Error>)
        requires
            old(mem).inv(),
        ensures
            final(mem).inv(),
            final(mem).phys_view() == old(mem).phys_view(),
            self == Architecture::Null ==> r is Ok,
            r is Ok ==> final(out)@.len() == old(out)@.len() + addrs@.len(),
            r is Ok ==> final(out)@.subrange(0, old(out)@.len() as int) == old(out)@,
            r is Ok ==> forall|i: int|
                0 <= i < addrs@.len() ==> final(out)@[old(out)@.len() + i] == self.translate(
                    old(mem).phys_view(),
                    dtb.0,
                    #[trigger] addrs@[i].0,
                ),
            r is Err ==> final(out)@ == old(out)@,
            final(mem).write_log() == old(mem).write_log(),
            final(mem).read_log().subrange(0, old(mem).read_log().len() as int) == old(mem).read_log(),
            self.mmu_model() matches Some(m) ==> final(mem).read_log().len() <= old(mem).read_log().len()
                + m.last_step(),
            forall|t: int|
                old(mem).read_log().len() <= t < final(mem).read_log().len() ==> distinct_addrs(
                    #[trigger] final(mem).read_log()[t],
                ),
            self == Architecture::Null ==> final(mem).read_log() == old(mem).read_log(),
            addrs@.len() == 0 ==> r is Ok && final(out)@ == old(out)@ && final(mem).read_log() == old(mem).read_log(),
            self.mmu_model() matches Some(m) ==> forall|t: int|
                old(mem).read_log().len() <= t < final(mem).read_log().len() ==> #[trigger] m.entry_batch(
                    old(mem).phys_view(),
                    dtb.0,
                    addrs@,
                    final(mem).read_log()[t],
                ),
            final(mem).read_oks().subrange(0, old(mem).read_oks().len() as int) == old(mem).read_oks(),
            final(mem).read_oks().len() - old(mem).read_oks().len() == final(mem).read_log().len() - old(mem).read_log().len(),
            r is Ok ==> forall|t: int| old(mem).read_oks().len() <= t < final(mem).read_oks().len() ==> #[trigger] final(mem).read_oks()[t],
            r is Err ==> final(mem).read_oks().len() > old(mem).read_oks().len() && !final(mem).read_oks().last(),
    {
        match self.mmu_spec() {
            Some(m) => m.virt_to_phys_iter(mem, dtb, addrs, out),
            None => {
                let ghost out_before = out@;
                let ob = out.len();
                let n = addrs.len();
                let mut i: usize = 0;
                while i < n
                    invariant
                        self == Architecture::Null,
                        n == addrs@.len(),
                        i <= n,
                        out@.len() == ob + i,
                        out_before == old(out)@,
                        ob == out_before.len(),
                        out@.subrange(0, ob as int) == out_before,
                        forall|j: int| 0 <= j < i ==> #[trigger] out@[ob + j] == self.translate(
                            old(mem).phys_view(),
                            dtb.0,
                            addrs@[j].0,
                        ),
                        mem.inv(),
                        mem.phys_view() == old(mem).phys_view(),
                        mem.read_log() == old(mem).read_log(),
                        mem.read_oks() == old(mem).read_oks(),
                        mem.write_log() == old(mem).write_log(),
                    decreases n - i,
                {
                    out.push(Ok(PhysicalAddress::from_address(addrs[i])));
                    assert(out@.subrange(0, ob as int) =~= out_before);
                    i = i + 1;
                }
                assert(mem.read_log().subrange(0, old(mem).read_log().len() as int) =~= old(mem).read_log());
                assert(mem.read_oks().subrange(0, old(mem).read_oks().len() as int) =~= old(mem).read_oks());
                proof {
                    if n == 0 {
                        assert(out@ =~= out@.subrange(0, ob as int));
                    }
                }
                Ok(())
            },
        }
    }

    /// Translates one address through the tables rooted at `dtb`. The result
    /// is its translation, or else the error of a failed backend read.
    pub fn virt_to_phys<T: PhysicalMemory>(self, mem: &mut T, dtb: Address, addr: Address) -> (r: Result<
        PhysicalAddress,
        Error,
    >)
        requires
            old(mem).inv(),
        ensures
            final(mem).inv(),
            final(mem).phys_view() == old(mem).phys_view(),
            r == self.translate(old(mem).phys_view(), dtb.0, addr.0) || r is Err,
            self == Architecture::Null ==> r == self.translate(old(mem).phys_view(), dtb.0, addr.0),
            final(mem).write_log() == old(mem).write_log(),
            final(mem).read_log().subrange(0, old(mem).read_log().len() as int) == old(mem).read_log(),
            self.mmu_model() matches Some(m) ==> final(mem).read_log().len() <= old(mem).read_log().len()
                + m.last_step(),
            self == Architecture::Null ==> final(mem).read_log() == old(mem).read_log(),
            self.mmu_model() matches Some(m) ==> forall|t: int|
                old(mem).read_log().len() <= t < final(mem).read_log().len() ==> #[trigger] m.entry_batch(
                    old(mem).phys_view(),
                    dtb.0,
                    seq![addr],
                    final(mem).read_log()[t],
                ),
            final(mem).read_oks().subrange(0, old(mem).read_oks().len() as int) == old(mem).read_oks(),
            final(mem).read_oks().len() - old(mem).read_oks().len() == final(mem).read_log().len() - old(mem).read_log().len(),
            r != self.translate(old(mem).phys_view(), dtb.0, addr.0) ==> final(mem).read_oks().len() > old(
                mem,
            ).read_oks().len() && !final(mem).read_oks().last(),
    {
        let mut out: Vec<Result<PhysicalAddress, Error>> = Vec::new();
        let mut addrs: Vec<Address> = Vec::new();
        addrs.push(addr);
        assert(addrs@ =~= seq![addr]);
        match self.virt_to_phys_iter(mem, dtb, &addrs, &mut out) {
            Err(e) => Err(e),
            Ok(_) => {
                assert(addrs@[0].0 == addr.0);
                match out.pop() {
                    Some(x) => x,
                    None => Err(Error::Io),
                }
            },
        }
    }
}

/// Encoding an architecture as a byte and decoding it gives it back.
pub proof fn lemma_tag_round_trip(a: Architecture)
    ensures
        Architecture::from_tag(a.tag()) == Ok::<Architecture, Error>(a),
{
}

/// Every byte outside the four tags fails to decode, with `InvalidArchitecture`.
pub proof fn lemma_unknown_tag_rejected(b: u8)
    requires
        b > 3,
    ensures
        Architecture::from_tag(b) == Err::<Architecture, Error>(Error::InvalidArchitecture),
{
}

} // verus!
