use vstd::prelude::*;

verus! {

/// A virtual or physical location in a target's address space.
#[derive(Debug, Clone, Copy, PartialEq, Eq, Structural)]
pub struct Address(pub u64);

impl Address {
    /// The null address.
    pub fn null() -> (r: Address)
        ensures
            r.0 == 0,
    {
        Address(0)
    }

    pub fn from_u64(v: u64) -> (r: Address)
        ensures
            r.0 == v,
    {
        Address(v)
    }

    pub fn as_u64(self) -> (r: u64)
        ensures
            r == self.0,
    {
        self.0
    }

    pub fn is_null(self) -> (r: bool)
        ensures
            r == (self.0 == 0),
    {
        self.0 == 0
    }

    /// The address `len` bytes further on.
    pub fn add_len(self, len: Length) -> (r: Address)
        requires
            self.0 + len.0 <= u64::MAX,
        ensures
            r.0 == self.0 + len.0,
    {
        Address(self.0 + len.0 )
    }

    /// Whether the address is a multiple of `page_size`.
    pub fn is_aligned(self, page_size: Length) -> (r: bool)
        requires
            page_size.0 > 0,
        ensures
            r == (self.0 % page_size.0  == 0),
    {
        self.0 % page_size.0  == 0
    }

    /// The start of the page of size `page_size` that holds this address.
    pub fn page_base(self, page_size: Length) -> (r: Address)
        requires
            page_size.0 > 0,
        ensures
            r.0 == self.0 - self.0 % page_size.0 ,
    {
        let m = page_size.0 ;
        assert(self.0 % m <= self.0) by (nonlinear_arith)
            requires
                m > 0,
        ;
        Address(self.0 - self.0 % m)
    }
}

/// A non-negative distance in bytes.
#[derive(Debug, Clone, Copy, PartialEq, Eq, Structural)]
pub struct Length(pub u64);

impl Length {
    pub fn from_bytes(n: u64) -> (r: Length)
        ensures
            r.0 == n,
    {
        Length(n)
    }

    pub fn from_kb(n: u64) -> (r: Length)
        requires
            n * 1024 <= u64::MAX,
        ensures
            r.0 == n * 1024,
    {
        Length(n * 1024)
    }

    pub fn from_mb(n: u64) -> (r: Length)
        requires
            n * 1024 * 1024 <= u64::MAX,
        ensures
            r.0 == n * 1024 * 1024,
    {
        Length(n * 1024 * 1024)
    }

    pub fn from_gb(n: u64) -> (r: Length)
        requires
            n * 1024 * 1024 * 1024 <= u64::MAX,
        ensures
            r.0 == n * 1024 * 1024 * 1024,
    {
        Length(n * 1024 * 1024 * 1024)
    }

    pub fn as_u64(self) -> (r: u64)
        ensures
            r == self.0,
    {
        self.0
    }

    pub fn as_usize(self) -> (r: usize)
        requires
            self.0 <= usize::MAX,
        ensures
            r == self.0,
    {
        self.0 as usize
    }
}

/// A set of properties of a physical page, held as bits.
#[derive(Debug, Clone, Copy, PartialEq, Eq, Structural)]
pub struct PageType(pub u8);

pub const PAGE_TYPE_UNKNOWN: u8 = 1;

pub const PAGE_TYPE_PAGE_TABLE: u8 = 2;

pub const PAGE_TYPE_WRITEABLE: u8 = 4;

pub const PAGE_TYPE_READ_ONLY: u8 = 8;

pub const PAGE_TYPE_NOEXEC: u8 = 16;

impl PageType {
    pub fn none() -> (r: PageType)
        ensures
            r.0 == 0,
    {
        PageType(0)
    }

    pub fn unknown() -> (r: PageType)
        ensures
            r.0 == PAGE_TYPE_UNKNOWN,
    {
        PageType(PAGE_TYPE_UNKNOWN)
    }

    pub fn page_table() -> (r: PageType)
        ensures
            r.0 == PAGE_TYPE_PAGE_TABLE,
    {
        PageType(PAGE_TYPE_PAGE_TABLE)
    }

    pub fn writeable() -> (r: PageType)
        ensures
            r.0 == PAGE_TYPE_WRITEABLE,
    {
        PageType(PAGE_TYPE_WRITEABLE)
    }

    pub fn read_only() -> (r: PageType)
        ensures
            r.0 == PAGE_TYPE_READ_ONLY,
    {
        PageType(PAGE_TYPE_READ_ONLY)
    }

    pub fn noexec() -> (r: PageType)
        ensures
            r.0 == PAGE_TYPE_NOEXEC,
    {
        PageType(PAGE_TYPE_NOEXEC)
    }

    pub fn union(self, other: PageType) -> (r: PageType)
        ensures
            r.0 == self.0 | other.0,
    {
        PageType(self.0 | other.0)
    }

    /// Whether the two sets share a flag.
    pub fn intersects(self, other: PageType) -> (r: bool)
        ensures
            r == (self.0 & other.0 != 0),
    {
        self.0 & other.0 != 0
    }

    /// Whether every flag of `other` is in this set.
    pub fn contains(self, other: PageType) -> (r: bool)
        ensures
            r == (self.0 & other.0 == other.0),
    {
        self.0 & other.0 == other.0
    }
}

/// A physical address together with what is known of its page.
///
/// A `page_size` of zero means that the size of the page is not known.
#[derive(Debug, Clone, Copy, PartialEq, Eq, Structural)]
pub struct PhysicalAddress {
    pub address: Address,
    pub page_type: PageType,
    pub page_size: u64,
}

impl PhysicalAddress {
    /// A physical address with nothing known of its page.
    pub fn from_address(address: Address) -> (r: PhysicalAddress)
        ensures
            r.address == address,
            r.page_type.0 == PAGE_TYPE_UNKNOWN,
            r.page_size == 0,
    {
        PhysicalAddress { address, page_type: PageType(PAGE_TYPE_UNKNOWN), page_size: 0 }
    }

    pub fn with_page(address: Address, page_type: PageType, page_size: u64) -> (r: PhysicalAddress)
        ensures
            r.address == address,
            r.page_type == page_type,
            r.page_size == page_size,
    {
        PhysicalAddress { address, page_type, page_size }
    }

    pub fn address(self) -> (r: Address)
        ensures
            r == self.address,
    {
        self.address
    }

    pub fn page_type(self) -> (r: PageType)
        ensures
            r == self.page_type,
    {
        self.page_type
    }

    pub fn has_page_size(self) -> (r: bool)
        ensures
            r == (self.page_size != 0),
    {
        self.page_size != 0
    }

    /// The start of the page, where its size is known.
    pub fn page_base(self) -> (r: Address)
        requires
            self.page_size != 0,
        ensures
            r.0 == self.address.0 - self.address.0 % self.page_size,
    {
        let a = self.address.0;
        let m = self.page_size;
        assert(a % m <= a) by (nonlinear_arith)
            requires
                m > 0,
        ;
        Address(a - a % m)
    }
}

} // verus!
