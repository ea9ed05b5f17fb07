use vstd::prelude::*;
use crate::architecture::ByteOrder;
use crate::mmu::{ArchMMUSpec, MmuModel, split_sum};
use crate::types::Length;

verus! {

/// The paging scheme of x86 with physical address extension.
pub open spec fn mmu_model() -> MmuModel {
    MmuModel {
        splits: seq![2u8, 9, 9, 12],
        final_steps: seq![2usize, 3],
        address_space_bits: 36,
        pte_size: 8,
        present_bit: 0,
        writeable_bit: 1,
        nx_bit: 63,
        large_page_bit: 7,
    }
}

/// Width of a pointer, in bits.
pub fn bits() -> (r: u8)
    ensures
        r == 32,
{
    32
}

pub fn endianess() -> (r: ByteOrder)
    ensures
        r == ByteOrder::LittleEndian,
{
    ByteOrder::LittleEndian
}

/// Width of a pointer, in bytes.
pub fn len_addr() -> (r: Length)
    ensures
        r.0 == 4,
{
    Length(4)
}

pub fn get_mmu_spec() -> (r: ArchMMUSpec)
    ensures
        r@ == mmu_model(),
        r@.wf(),
{
    let mut splits: Vec<u8> = Vec::new();
    splits.push(2);
    splits.push(9);
    splits.push(9);
    splits.push(12);
    let mut finals: Vec<usize> = Vec::new();
    finals.push(2);
    finals.push(3);
    let r = ArchMMUSpec {
        virtual_address_splits: splits,
        valid_final_page_steps: finals,
        address_space_bits: 36,
        pte_size: 8,
        present_bit: 0,
        writeable_bit: 1,
        nx_bit: 63,
        large_page_bit: 7,
    };
    proof {
        assert(r@.splits =~= mmu_model().splits);
        assert(r@.final_steps =~= mmu_model().final_steps);
        reveal_with_fuel(split_sum, 5);
        assert(split_sum(r@.splits, 0) == 32);
        assert(r@.final_steps[1] == r@.last_step());
    }
    r
}

/// The smallest page size.
pub fn page_size() -> (r: Length)
    ensures
        r.0 == 4096,
{
    page_size_level(1)
}

/// Size of a page at paging level `pt_level`, 1 being the smallest.
pub fn page_size_level(pt_level: u32) -> (r: Length)
    requires
        1 <= pt_level <= 3,
    ensures
        r.0 == mmu_model().page_size_step_spec(4 - pt_level),
        pt_level == 1 ==> r.0 == 4096,
{
    let m = get_mmu_spec();
    let r = m.page_size_level(pt_level as usize);
    proof {
        if pt_level == 1 {
            reveal_with_fuel(split_sum, 2);
            assert(split_sum(m@.splits, 3) == 12);
            assert(1u64 << 12u64 == 4096) by (bit_vector);
        }
    }
    Length(r)
}

} // verus!
