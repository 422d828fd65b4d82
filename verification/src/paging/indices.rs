//! Splitting a virtual address into its per-level table indices.
//!
//! A translated virtual address has 48 significant bits: four 9-bit table
//! indices, most significant first, followed by a 12-bit offset into the page.

use vstd::prelude::*;

verus! {

/// Size of a page, and of a table, in bytes.
pub const PAGE_SIZE: u64 = 4096;

/// Number of entries in one table.
pub const ENTRIES: usize = 512;

/// Number of virtual address bits that take part in translation.
pub const ADDRESS_BITS: u64 = 48;

/// First value beyond the translated address range, `2^48`.
pub const ADDRESS_LIMIT: u64 = 0x1_0000_0000_0000;

/// The position of a byte in the four-level hierarchy.
#[derive(Clone, Copy, Debug, PartialEq, Eq, Structural)]
pub struct PageMapIndices {
    /// Index into the top-level table.
    pub pml4: usize,
    /// Index into the second-level table.
    pub pdpt: usize,
    /// Index into the third-level table.
    pub pd: usize,
    /// Index into the fourth-level table.
    pub pt: usize,
    /// Offset of the byte within its page.
    pub offset: usize,
}

impl PageMapIndices {
    /// Every index selects one of 512 entries and the offset stays within a page.
    pub open spec fn wf(self) -> bool {
        &&& self.pml4 < 512
        &&& self.pdpt < 512
        &&& self.pd < 512
        &&& self.pt < 512
        &&& self.offset < 4096
    }

    /// The address that these indices spell out.
    pub open spec fn address(self) -> int {
        self.pml4 * 0x80_0000_0000 + self.pdpt * 0x4000_0000 + self.pd * 0x20_0000 + self.pt
            * 0x1000 + self.offset
    }
}

/// The top-level index of `address`: bits 39 to 47.
#[verifier::opaque]
pub open spec fn pml4_index(address: u64) -> int {
    (address as int / 0x80_0000_0000) % 512
}

/// The second-level index of `address`: bits 30 to 38.
#[verifier::opaque]
pub open spec fn pdpt_index(address: u64) -> int {
    (address as int / 0x4000_0000) % 512
}

/// The third-level index of `address`: bits 21 to 29.
#[verifier::opaque]
pub open spec fn pd_index(address: u64) -> int {
    (address as int / 0x20_0000) % 512
}

/// The fourth-level index of `address`: bits 12 to 20.
#[verifier::opaque]
pub open spec fn pt_index(address: u64) -> int {
    (address as int / 0x1000) % 512
}

/// The offset of `address` within its page: bits 0 to 11.
pub open spec fn page_offset(address: u64) -> int {
    address as int % 0x1000
}

/// The indices of `address`, as a value.
pub open spec fn indices_of(address: u64) -> PageMapIndices {
    PageMapIndices {
        pml4: pml4_index(address) as usize,
        pdpt: pdpt_index(address) as usize,
        pd: pd_index(address) as usize,
        pt: pt_index(address) as usize,
        offset: page_offset(address) as usize,
    }
}

proof fn lemma_index_bits(address: u64)
    by (bit_vector)
    ensures
        (address & (0x1ffu64 << 39u64)) >> 39u64 == (address / 0x80_0000_0000u64) % 512u64,
        (address & (0x1ffu64 << 30u64)) >> 30u64 == (address / 0x4000_0000u64) % 512u64,
        (address & (0x1ffu64 << 21u64)) >> 21u64 == (address / 0x20_0000u64) % 512u64,
        (address & (0x1ffu64 << 12u64)) >> 12u64 == (address / 0x1000u64) % 512u64,
        address & 0xfffu64 == address % 0x1000u64,
{
}

proof fn lemma_compose_bits(a: u64, b: u64, c: u64, d: u64, e: u64, v: u64)
    by (bit_vector)
    requires
        a < 512,
        b < 512,
        c < 512,
        d < 512,
        e < 4096,
        v == (a << 39u64) | (b << 30u64) | (c << 21u64) | (d << 12u64) | e,
    ensures
        v == a * 0x80_0000_0000u64 + b * 0x4000_0000u64 + c * 0x20_0000u64 + d * 0x1000u64 + e,
        v < 0x1_0000_0000_0000u64,
        (v / 0x80_0000_0000u64) % 512u64 == a,
        (v / 0x4000_0000u64) % 512u64 == b,
        (v / 0x20_0000u64) % 512u64 == c,
        (v / 0x1000u64) % 512u64 == d,
        v % 0x1000u64 == e,
{
}

proof fn lemma_split_bits(address: u64)
    by (bit_vector)
    requires
        address < 0x1_0000_0000_0000u64,
    ensures
        ((address / 0x80_0000_0000u64) % 512u64) * 0x80_0000_0000u64 + ((address
            / 0x4000_0000u64) % 512u64) * 0x4000_0000u64 + ((address / 0x20_0000u64) % 512u64)
            * 0x20_0000u64 + ((address / 0x1000u64) % 512u64) * 0x1000u64 + address % 0x1000u64
            == address,
{
}

/// Splits a virtual address into its four table indices and its page offset.
///
/// Bits 48 to 63 take no part in translation and are ignored.
pub fn address_to_page_map_indices(virtual_address: u64) -> (indices: PageMapIndices)
    ensures
        indices == indices_of(virtual_address),
        indices.wf(),
        indices.pml4 == pml4_index(virtual_address),
        indices.pdpt == pdpt_index(virtual_address),
        indices.pd == pd_index(virtual_address),
        indices.pt == pt_index(virtual_address),
        indices.offset == page_offset(virtual_address),
        virtual_address < ADDRESS_LIMIT ==> indices.address() == virtual_address,
{
    proof {
        reveal(pml4_index);
        reveal(pdpt_index);
        reveal(pd_index);
        reveal(pt_index);
        lemma_index_bits(virtual_address);
        if virtual_address < ADDRESS_LIMIT {
            lemma_split_then_join(virtual_address);
        }
    }
    let pml4: u64 = (virtual_address & (0x1ff << 39)) >> 39;
    let pdpt: u64 = (virtual_address & (0x1ff << 30)) >> 30;
    let pd: u64 = (virtual_address & (0x1ff << 21)) >> 21;
    let pt: u64 = (virtual_address & (0x1ff << 12)) >> 12;
    let offset: u64 = virtual_address & 0xfff;
    PageMapIndices {
        pml4: pml4 as usize,
        pdpt: pdpt as usize,
        pd: pd as usize,
        pt: pt as usize,
        offset: offset as usize,
    }
}

/// Puts four table indices and a page offset back together.
pub fn page_map_indices_to_address(indices: PageMapIndices) -> (address: u64)
    requires
        indices.wf(),
    ensures
        address == indices.address(),
        address < ADDRESS_LIMIT,
        indices_of(address) == indices,
{
    let mut value: u64 = 0;
    value |= (indices.pml4 as u64) << 39;
    value |= (indices.pdpt as u64) << 30;
    value |= (indices.pd as u64) << 21;
    value |= (indices.pt as u64) << 12;
    value |= indices.offset as u64;
    proof {
        lemma_join_then_split(indices);
        lemma_or_zero(
            (indices.pml4 as u64) << 39,
            (indices.pdpt as u64) << 30,
            (indices.pd as u64) << 21,
            (indices.pt as u64) << 12,
            indices.offset as u64,
        );
        lemma_compose_bits(
            indices.pml4 as u64,
            indices.pdpt as u64,
            indices.pd as u64,
            indices.pt as u64,
            indices.offset as u64,
            value,
        );
    }
    value
}

proof fn lemma_or_zero(a: u64, b: u64, c: u64, d: u64, e: u64)
    by (bit_vector)
    ensures
        ((((0u64 | a) | b) | c) | d) | e == a | b | c | d | e,
{
}

proof fn lemma_page_base_bits(address: u64, base: u64)
    by (bit_vector)
    requires
        base == address - address % 0x1000u64,
    ensures
        base % 0x1000u64 == 0,
        base <= address,
        (base / 0x80_0000_0000u64) % 512u64 == (address / 0x80_0000_0000u64) % 512u64,
        (base / 0x4000_0000u64) % 512u64 == (address / 0x4000_0000u64) % 512u64,
        (base / 0x20_0000u64) % 512u64 == (address / 0x20_0000u64) % 512u64,
        (base / 0x1000u64) % 512u64 == (address / 0x1000u64) % 512u64,
{
}

/// The first address of a page has the indices of every address of the page.
pub proof fn lemma_page_base(address: u64)
    ensures
        ({
            let base = (address - address % 4096) as u64;
            &&& base % 4096 == 0
            &&& base <= address < base + 4096
            &&& pml4_index(base) == pml4_index(address)
            &&& pdpt_index(base) == pdpt_index(address)
            &&& pd_index(base) == pd_index(address)
            &&& pt_index(base) == pt_index(address)
        }),
{
    reveal(pml4_index);
    reveal(pdpt_index);
    reveal(pd_index);
    reveal(pt_index);
    lemma_page_base_bits(address, (address - address % 4096) as u64);
}

/// Every index of an address selects one of 512 entries.
pub proof fn lemma_index_ranges(address: u64)
    ensures
        0 <= pml4_index(address) < 512,
        0 <= pdpt_index(address) < 512,
        0 <= pd_index(address) < 512,
        0 <= pt_index(address) < 512,
        indices_of(address).wf(),
{
    reveal(pml4_index);
    reveal(pdpt_index);
    reveal(pd_index);
    reveal(pt_index);
}

/// Splitting an address of the translated range and putting the parts back
/// together gives the address again.
pub proof fn lemma_split_then_join(address: u64)
    requires
        address < ADDRESS_LIMIT,
    ensures
        indices_of(address).wf(),
        indices_of(address).address() == address,
{
    reveal(pml4_index);
    reveal(pdpt_index);
    reveal(pd_index);
    reveal(pt_index);
    lemma_split_bits(address);
}

/// Putting indices together and splitting the result gives the indices again.
pub proof fn lemma_join_then_split(indices: PageMapIndices)
    requires
        indices.wf(),
    ensures
        0 <= indices.address() < ADDRESS_LIMIT,
        indices_of(indices.address() as u64) == indices,
{
    let a = indices.pml4 as u64;
    let b = indices.pdpt as u64;
    let c = indices.pd as u64;
    let d = indices.pt as u64;
    let e = indices.offset as u64;
    let v = (a << 39u64) | (b << 30u64) | (c << 21u64) | (d << 12u64) | e;
    reveal(pml4_index);
    reveal(pdpt_index);
    reveal(pd_index);
    reveal(pt_index);
    lemma_compose_bits(a, b, c, d, e, v);
    assert(v == indices.address());
}

} // verus!
