//! The control registers that decide how addresses are translated.
//!
//! The types of this module hold the contents of a register. Reading a
//! register from the processor and writing it back is left to the caller.

use vstd::prelude::*;

verus! {

/// Whether all bits of `mask` are set in `value`.
pub open spec fn has_bits(value: u64, mask: u64) -> bool {
    value & mask == mask
}

/// `value` with the bits of `mask` set if `on`, cleared if not.
pub open spec fn with_bits(value: u64, mask: u64, on: bool) -> u64 {
    if on {
        value | mask
    } else {
        value & !mask
    }
}

proof fn lemma_with_bits_raw(value: u64, mask: u64)
    by (bit_vector)
    ensures
        (value | mask) & mask == mask,
        mask != 0 ==> (value & !mask) & mask != mask,
        (value & !0xfffu64) % 4096u64 == 0,
        (value & 0xfffu64) < 4096u64,
        ((value & !0xfffu64) | (value & 0xfffu64)) == value,
{
}

/// Setting bits sets them, clearing bits clears them.
pub proof fn lemma_with_bits(value: u64, mask: u64)
    requires
        mask != 0,
    ensures
        has_bits(with_bits(value, mask, true), mask),
        !has_bits(with_bits(value, mask, false), mask),
{
    lemma_with_bits_raw(value, mask);
}

proof fn lemma_address_bits(value: u64, address: u64)
    by (bit_vector)
    requires
        address % 4096u64 == 0,
    ensures
        ((value & 0xfffu64) | address) & !0xfffu64 == address,
        ((value & 0xfffu64) | address) & 0xfffu64 == value & 0xfffu64,
        ((value & 0xfffu64) | address) == (value & 0xfffu64) + address,
        address & !0xfffu64 == address,
{
}

/// The contents of the CR0 register.
#[derive(Clone, Copy, Debug, PartialEq, Eq)]
pub struct CR0(u64);

impl CR0 {
    /// The 64 bits of the register.
    pub closed spec fn bits(self) -> u64 {
        self.0
    }

    /// The register with the given contents, as they were read from the processor.
    pub fn from_value(value: u64) -> (register: Self)
        ensures
            register.bits() == value,
    {
        Self(value)
    }

    /// The contents of the register, as they are to be written to the processor.
    pub fn value(&self) -> (value: u64)
        ensures
            value == self.bits(),
    {
        self.0
    }

    /// Paging.
    pub fn pg(&self) -> (flag: bool)
        ensures
            flag == has_bits(self.bits(), 0x8000_0000),
    {
        self.0 & 0x8000_0000 == 0x8000_0000
    }

    /// Protection enable.
    pub fn pe(&self) -> (flag: bool)
        ensures
            flag == has_bits(self.bits(), 0x1),
    {
        self.0 & 0x1 == 0x1
    }
}

/// The contents of the CR3 register when used with 4-level paging and PCIDs disabled.
#[derive(Clone, Copy, Debug, PartialEq, Eq)]
pub struct CR3(u64);

impl CR3 {
    /// The 64 bits of the register.
    pub closed spec fn bits(self) -> u64 {
        self.0
    }

    /// The register with the given contents, as they were read from the processor.
    pub fn from_value(value: u64) -> (register: Self)
        ensures
            register.bits() == value,
    {
        Self(value)
    }

    /// The contents of the register, as they are to be written to the processor.
    pub fn value(&self) -> (value: u64)
        ensures
            value == self.bits(),
    {
        self.0
    }

    /// Page-level write-through.
    pub fn pwt(&self) -> (flag: bool)
        ensures
            flag == has_bits(self.bits(), 0x8),
    {
        self.0 & 0x8 == 0x8
    }

    /// Set page-level write-through.
    pub fn set_pwt(&mut self, value: bool)
        ensures
            final(self).bits() == with_bits(old(self).bits(), 0x8, value),
            has_bits(final(self).bits(), 0x8) == value,
    {
        proof {
            lemma_with_bits(self.0, 0x8);
        }
        if value {
            self.0 = self.0 | 0x8;
        } else {
            self.0 = self.0 & !0x8;
        }
    }

    /// Page-level cache disable.
    pub fn pcd(&self) -> (flag: bool)
        ensures
            flag == has_bits(self.bits(), 0x10),
    {
        self.0 & 0x10 == 0x10
    }

    /// Set page-level cache disable.
    pub fn set_pcd(&mut self, value: bool)
        ensures
            final(self).bits() == with_bits(old(self).bits(), 0x10, value),
            has_bits(final(self).bits(), 0x10) == value,
    {
        proof {
            lemma_with_bits(self.0, 0x10);
        }
        if value {
            self.0 = self.0 | 0x10;
        } else {
            self.0 = self.0 & !0x10;
        }
    }

    /// Physical address of the 4KiB aligned top-level table.
    pub fn address(&self) -> (address: u64)
        ensures
            address == self.bits() & !0xfffu64,
            address % 4096 == 0,
    {
        proof {
            lemma_with_bits_raw(self.0, 1);
        }
        self.0 & !0xfff
    }

    /// Set the address of the top-level table; the low 12 bits stay.
    pub fn set_address(&mut self, value: u64)
        requires
            value % 4096 == 0,
        ensures
            final(self).bits() == (old(self).bits() & 0xfff) | value,
            final(self).bits() & !0xfffu64 == value,
            final(self).bits() & 0xfff == old(self).bits() & 0xfff,
    {
        proof {
            lemma_address_bits(self.0, value);
        }
        self.0 = (self.0 & 0xfff) | value;
    }
}

/// The contents of the CR4 register.
#[derive(Clone, Copy, Debug, PartialEq, Eq)]
pub struct CR4(u64);

impl CR4 {
    /// The 64 bits of the register.
    pub closed spec fn bits(self) -> u64 {
        self.0
    }

    /// The register with the given contents, as they were read from the processor.
    pub fn from_value(value: u64) -> (register: Self)
        ensures
            register.bits() == value,
    {
        Self(value)
    }

    /// The contents of the register, as they are to be written to the processor.
    pub fn value(&self) -> (value: u64)
        ensures
            value == self.bits(),
    {
        self.0
    }

    /// Physical address extension.
    pub fn pae(&self) -> (flag: bool)
        ensures
            flag == has_bits(self.bits(), 0x20),
    {
        self.0 & 0x20 == 0x20
    }

    /// 57-bit linear addresses.
    pub fn la57(&self) -> (flag: bool)
        ensures
            flag == has_bits(self.bits(), 0x1000),
    {
        self.0 & 0x1000 == 0x1000
    }
}

/// The contents of the IA32_EFER model-specific register.
#[allow(non_camel_case_types)]
#[derive(Clone, Copy, Debug, PartialEq, Eq)]
pub struct IA32_EFER(u64);

impl IA32_EFER {
    /// The 64 bits of the register.
    pub closed spec fn bits(self) -> u64 {
        self.0
    }

    /// The register with the given contents, as they were read from the processor.
    pub fn from_value(value: u64) -> (register: Self)
        ensures
            register.bits() == value,
    {
        Self(value)
    }

    /// The contents of the register, as they are to be written to the processor.
    pub fn value(&self) -> (value: u64)
        ensures
            value == self.bits(),
    {
        self.0
    }

    /// IA-32e Mode Enable.
    pub fn lme(&self) -> (flag: bool)
        ensures
            flag == has_bits(self.bits(), 0x100),
    {
        self.0 & 0x100 == 0x100
    }
}

/// The number of the IA32_EFER model-specific register.
pub const IA32_EFER_ADDRESS: u32 = 0xc000_0080;

impl IA32_EFER {
    /// The register from the two halves that reading a model-specific
    /// register yields.
    pub fn from_halves(high: u32, low: u32) -> (register: Self)
        ensures
            register.bits() == high * 0x1_0000_0000 + low,
    {
        let value: u64 = (high as u64) * 0x1_0000_0000 + (low as u64);
        Self(value)
    }
}

/// Whether the registers say that 4-level paging is in use: paging and
/// physical address extension are enabled, long mode is enabled, and
/// 57-bit addresses are not.
pub open spec fn four_level_paging(cr0: CR0, cr4: CR4, efer: IA32_EFER) -> bool {
    &&& has_bits(cr0.bits(), 0x8000_0000)
    &&& has_bits(cr4.bits(), 0x20)
    &&& has_bits(efer.bits(), 0x100)
    &&& !has_bits(cr4.bits(), 0x1000)
}

/// Whether the registers say that 4-level paging is in use.
pub fn four_level_paging_enabled(cr0: &CR0, cr4: &CR4, efer: &IA32_EFER) -> (enabled: bool)
    ensures
        enabled == four_level_paging(*cr0, *cr4, *efer),
{
    cr0.pg() && cr4.pae() && efer.lme() && !cr4.la57()
}

} // verus!
