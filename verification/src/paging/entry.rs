//! The 64-bit entries of the four table levels.
//!
//! All four levels share one layout: bit 0 says whether the entry is present,
//! bits 1 to 4 hold the writable, user, write-through and cache-disable
//! flags, bits 12 to 51 hold the physical address of the next table (or, at
//! the last level, of the page), and bit 63 forbids instruction fetches.

use vstd::prelude::*;

verus! {

/// Why a paging operation was refused.
#[derive(Clone, Copy, Debug, PartialEq, Eq, Structural)]
pub enum PagingError {
    /// An address is not a multiple of the page size.
    Alignment,
    /// A physical address needs more than 52 bits.
    Range,
    /// No fresh page could be had for a new table.
    AllocationExhausted,
}

/// Bit 0: the entry is present.
pub const PRESENT: u64 = 0x1;

/// Bit 1: writes are allowed.
pub const WRITABLE: u64 = 0x2;

/// Bit 2: user-mode accesses are allowed.
pub const USER: u64 = 0x4;

/// Bit 3: page-level write-through.
pub const WRITE_THROUGH: u64 = 0x8;

/// Bit 4: page-level cache disable.
pub const CACHE_DISABLE: u64 = 0x10;

/// Bit 63: instruction fetches are not allowed.
pub const EXECUTE_DISABLE: u64 = 0x8000_0000_0000_0000;

/// Bits 12 to 51: the physical address.
pub const ADDRESS_MASK: u64 = 0x000f_ffff_ffff_f000;

/// First physical address that no entry can hold, `2^52`.
pub const PHYSICAL_LIMIT: u64 = 0x10_0000_0000_0000;

/// An entry, field by field.
pub struct EntryView {
    pub present: bool,
    pub writable: bool,
    pub user: bool,
    pub write_through: bool,
    pub cache_disable: bool,
    pub execute_disable: bool,
    pub address: u64,
}

/// Whether a physical address can stand in an entry: page-aligned and below `2^52`.
pub open spec fn valid_physical(address: u64) -> bool {
    address % 4096 == 0 && address < PHYSICAL_LIMIT
}

pub open spec fn is_present(value: u64) -> bool {
    value & PRESENT == PRESENT
}

pub open spec fn is_writable(value: u64) -> bool {
    value & WRITABLE == WRITABLE
}

pub open spec fn is_user(value: u64) -> bool {
    value & USER == USER
}

pub open spec fn is_write_through(value: u64) -> bool {
    value & WRITE_THROUGH == WRITE_THROUGH
}

pub open spec fn is_cache_disable(value: u64) -> bool {
    value & CACHE_DISABLE == CACHE_DISABLE
}

pub open spec fn is_execute_disable(value: u64) -> bool {
    value & EXECUTE_DISABLE == EXECUTE_DISABLE
}

/// The physical address that an entry holds.
pub open spec fn address_of(value: u64) -> u64 {
    value & ADDRESS_MASK
}

/// The fields of a raw entry.
pub open spec fn entry_view(value: u64) -> EntryView {
    EntryView {
        present: is_present(value),
        writable: is_writable(value),
        user: is_user(value),
        write_through: is_write_through(value),
        cache_disable: is_cache_disable(value),
        execute_disable: is_execute_disable(value),
        address: address_of(value),
    }
}

/// The value `1 << bit` if `flag` holds, else 0.
pub open spec fn flag_bit(flag: bool, bit: u64) -> u64 {
    if flag {
        bit
    } else {
        0
    }
}

/// The raw entry that has exactly the given fields; every other bit is 0.
pub open spec fn encoded(view: EntryView) -> u64 {
    (view.address + flag_bit(view.execute_disable, EXECUTE_DISABLE) + flag_bit(
        view.cache_disable,
        CACHE_DISABLE,
    ) + flag_bit(view.write_through, WRITE_THROUGH) + flag_bit(view.user, USER) + flag_bit(
        view.writable,
        WRITABLE,
    ) + flag_bit(view.present, PRESENT)) as u64
}

/// The present entry that `new` builds for a valid physical address.
pub open spec fn built(
    execute_disable: bool,
    address: u64,
    pcd: bool,
    pwt: bool,
    user: bool,
    writable: bool,
) -> u64 {
    encoded(
        EntryView {
            present: true,
            writable,
            user,
            write_through: pwt,
            cache_disable: pcd,
            execute_disable,
            address,
        },
    )
}

/// A raw entry with its writable bit set to `writable`.
pub open spec fn with_writable(value: u64, writable: bool) -> u64 {
    if writable {
        value | WRITABLE
    } else {
        value & !WRITABLE
    }
}

/// A raw entry with its execute-disable bit set to `execute_disable`.
pub open spec fn with_execute_disable(value: u64, execute_disable: bool) -> u64 {
    if execute_disable {
        value | EXECUTE_DISABLE
    } else {
        value & !EXECUTE_DISABLE
    }
}

proof fn lemma_encode_bits(a: u64, xd: u64, pcd: u64, pwt: u64, us: u64, rw: u64, p: u64)
    by (bit_vector)
    requires
        a & 0xfffu64 == 0,
        a & (0xfffu64 << 52u64) == 0,
        xd == 0 || xd == 0x8000_0000_0000_0000u64,
        pcd == 0 || pcd == 0x10u64,
        pwt == 0 || pwt == 0x8u64,
        us == 0 || us == 0x4u64,
        rw == 0 || rw == 0x2u64,
        p == 0 || p == 0x1u64,
    ensures
        a | xd | pcd | pwt | us | rw | p == a + xd + pcd + pwt + us + rw + p,
        a + xd + pcd + pwt + us + rw + p <= 0xffff_ffff_ffff_ffffu64,
        (a | xd | pcd | pwt | us | rw | p) & 0x000f_ffff_ffff_f000u64 == a,
        (a | xd | pcd | pwt | us | rw | p) & 0x8000_0000_0000_0000u64 == xd,
        (a | xd | pcd | pwt | us | rw | p) & 0x10u64 == pcd,
        (a | xd | pcd | pwt | us | rw | p) & 0x8u64 == pwt,
        (a | xd | pcd | pwt | us | rw | p) & 0x4u64 == us,
        (a | xd | pcd | pwt | us | rw | p) & 0x2u64 == rw,
        (a | xd | pcd | pwt | us | rw | p) & 0x1u64 == p,
{
}

proof fn lemma_alignment_bits(a: u64)
    by (bit_vector)
    ensures
        a & 0xfffu64 == 0 <==> a % 4096u64 == 0,
        a & (0xfffu64 << 52u64) == 0 <==> a < 0x10_0000_0000_0000u64,
        a & !0xfffu64 == a <==> a % 4096u64 == 0,
        (a & !0xfffu64) % 4096u64 == 0,
        a & !0xfffu64 <= a,
        a - (a & !0xfffu64) < 4096,
        (a & 0x000f_ffff_ffff_f000u64) % 4096u64 == 0,
        a & 0x000f_ffff_ffff_f000u64 < 0x10_0000_0000_0000u64,
        0u64 & 0x1u64 != 0x1u64,
        0u64 & 0x000f_ffff_ffff_f000u64 == 0,
{
}

proof fn lemma_flag_update_bits(v: u64)
    by (bit_vector)
    ensures
        (v | 0x2u64) & 0x2u64 == 0x2u64,
        (v & !0x2u64) & 0x2u64 == 0,
        (v | 0x2u64) & 0x1u64 == v & 0x1u64,
        (v & !0x2u64) & 0x1u64 == v & 0x1u64,
        (v | 0x2u64) & 0x4u64 == v & 0x4u64,
        (v & !0x2u64) & 0x4u64 == v & 0x4u64,
        (v | 0x2u64) & 0x8u64 == v & 0x8u64,
        (v & !0x2u64) & 0x8u64 == v & 0x8u64,
        (v | 0x2u64) & 0x10u64 == v & 0x10u64,
        (v & !0x2u64) & 0x10u64 == v & 0x10u64,
        (v | 0x2u64) & 0x8000_0000_0000_0000u64 == v & 0x8000_0000_0000_0000u64,
        (v & !0x2u64) & 0x8000_0000_0000_0000u64 == v & 0x8000_0000_0000_0000u64,
        (v | 0x2u64) & 0x000f_ffff_ffff_f000u64 == v & 0x000f_ffff_ffff_f000u64,
        (v & !0x2u64) & 0x000f_ffff_ffff_f000u64 == v & 0x000f_ffff_ffff_f000u64,
        (v | 0x8000_0000_0000_0000u64) & 0x8000_0000_0000_0000u64 == 0x8000_0000_0000_0000u64,
        (v & !0x8000_0000_0000_0000u64) & 0x8000_0000_0000_0000u64 == 0,
        (v | 0x8000_0000_0000_0000u64) & 0x1u64 == v & 0x1u64,
        (v & !0x8000_0000_0000_0000u64) & 0x1u64 == v & 0x1u64,
        (v | 0x8000_0000_0000_0000u64) & 0x2u64 == v & 0x2u64,
        (v & !0x8000_0000_0000_0000u64) & 0x2u64 == v & 0x2u64,
        (v | 0x8000_0000_0000_0000u64) & 0x4u64 == v & 0x4u64,
        (v & !0x8000_0000_0000_0000u64) & 0x4u64 == v & 0x4u64,
        (v | 0x8000_0000_0000_0000u64) & 0x8u64 == v & 0x8u64,
        (v & !0x8000_0000_0000_0000u64) & 0x8u64 == v & 0x8u64,
        (v | 0x8000_0000_0000_0000u64) & 0x10u64 == v & 0x10u64,
        (v & !0x8000_0000_0000_0000u64) & 0x10u64 == v & 0x10u64,
        (v | 0x8000_0000_0000_0000u64) & 0x000f_ffff_ffff_f000u64 == v
            & 0x000f_ffff_ffff_f000u64,
        (v & !0x8000_0000_0000_0000u64) & 0x000f_ffff_ffff_f000u64 == v
            & 0x000f_ffff_ffff_f000u64,
{
}

/// Whether an address is page-aligned, as the masks of this module see it.
pub proof fn lemma_alignment(address: u64)
    ensures
        address & 0xfff == 0 <==> address % 4096 == 0,
        address & !0xfffu64 == address <==> address % 4096 == 0,
        (address & !0xfffu64) % 4096 == 0,
        address & !0xfffu64 <= address,
        address - (address & !0xfffu64) < 4096,
        address & (0xfffu64 << 52) == 0 <==> address < PHYSICAL_LIMIT,
{
    lemma_alignment_bits(address);
}

/// The all-zero entry is not present and holds no address.
pub proof fn lemma_zero_entry()
    ensures
        !is_present(0),
        address_of(0) == 0,
{
    lemma_alignment_bits(0);
}

/// Every entry holds a valid physical address.
pub proof fn lemma_address_valid(value: u64)
    ensures
        valid_physical(address_of(value)),
{
    lemma_alignment_bits(value);
}

/// An entry that was built from fields has these fields.
pub proof fn lemma_encoded_view(view: EntryView)
    requires
        valid_physical(view.address),
    ensures
        entry_view(encoded(view)) == view,
        encoded(view) == view.address | flag_bit(view.execute_disable, EXECUTE_DISABLE) | flag_bit(
            view.cache_disable,
            CACHE_DISABLE,
        ) | flag_bit(view.write_through, WRITE_THROUGH) | flag_bit(view.user, USER) | flag_bit(
            view.writable,
            WRITABLE,
        ) | flag_bit(view.present, PRESENT),
{
    lemma_alignment_bits(view.address);
    lemma_encode_bits(
        view.address,
        flag_bit(view.execute_disable, EXECUTE_DISABLE),
        flag_bit(view.cache_disable, CACHE_DISABLE),
        flag_bit(view.write_through, WRITE_THROUGH),
        flag_bit(view.user, USER),
        flag_bit(view.writable, WRITABLE),
        flag_bit(view.present, PRESENT),
    );
}

/// Changing the writable bit leaves every other field as it was.
pub proof fn lemma_with_writable(value: u64, writable: bool)
    ensures
        entry_view(with_writable(value, writable)) == (EntryView {
            writable,
            ..entry_view(value)
        }),
{
    lemma_flag_update_bits(value);
}

/// Changing the execute-disable bit leaves every other field as it was.
pub proof fn lemma_with_execute_disable(value: u64, execute_disable: bool)
    ensures
        entry_view(with_execute_disable(value, execute_disable)) == (EntryView {
            execute_disable,
            ..entry_view(value)
        }),
{
    lemma_flag_update_bits(value);
}

/// Builds a present raw entry, or says why the address cannot stand in one.
pub(crate) fn build(
    execute_disable: bool,
    address: u64,
    pcd: bool,
    pwt: bool,
    user: bool,
    writable: bool,
) -> (result: Result<u64, PagingError>)
    ensures
        result == built_or_error(execute_disable, address, pcd, pwt, user, writable),
{
    proof {
        lemma_alignment_bits(address);
    }
    if address & 0xfff != 0 {
        return Err(PagingError::Alignment);
    }
    if address & (0xfff << 52) != 0 {
        return Err(PagingError::Range);
    }
    let mut value: u64 = address;
    if execute_disable {
        value |= 1 << 63;
    }
    if pcd {
        value |= 1 << 4;
    }
    if pwt {
        value |= 1 << 3;
    }
    if user {
        value |= 1 << 2;
    }
    if writable {
        value |= 1 << 1;
    }
    value |= 1;
    proof {
        let view = EntryView {
            present: true,
            writable,
            user,
            write_through: pwt,
            cache_disable: pcd,
            execute_disable,
            address,
        };
        lemma_encoded_view(view);
        lemma_or_flags(
            address,
            flag_bit(execute_disable, EXECUTE_DISABLE),
            flag_bit(pcd, CACHE_DISABLE),
            flag_bit(pwt, WRITE_THROUGH),
            flag_bit(user, USER),
            flag_bit(writable, WRITABLE),
        );
    }
    Ok(value)
}

proof fn lemma_or_flags(a: u64, xd: u64, pcd: u64, pwt: u64, us: u64, rw: u64)
    by (bit_vector)
    ensures
        a | 0u64 == a,
        1u64 << 63u64 == 0x8000_0000_0000_0000u64,
        1u64 << 4u64 == 0x10u64,
        1u64 << 3u64 == 0x8u64,
        1u64 << 2u64 == 0x4u64,
        1u64 << 1u64 == 0x2u64,
        (a | xd) | 0u64 == a | xd,
        ((a | xd) | pcd) | 0u64 == (a | xd) | pcd,
        (((a | xd) | pcd) | pwt) | 0u64 == ((a | xd) | pcd) | pwt,
        ((((a | xd) | pcd) | pwt) | us) | 0u64 == (((a | xd) | pcd) | pwt) | us,
        (((((a | xd) | pcd) | pwt) | us) | rw) | 1u64 == a | xd | pcd | pwt | us | rw | 1u64,
{
}

/// What building an entry gives: the entry for a valid physical address, an
/// alignment error for an address that is not page-aligned, and a range error
/// for an aligned address of more than 52 bits.
pub open spec fn built_or_error(
    execute_disable: bool,
    address: u64,
    pcd: bool,
    pwt: bool,
    user: bool,
    writable: bool,
) -> Result<u64, PagingError> {
    if address % 4096 != 0 {
        Err(PagingError::Alignment)
    } else if address >= PHYSICAL_LIMIT {
        Err(PagingError::Range)
    } else {
        Ok(built(execute_disable, address, pcd, pwt, user, writable))
    }
}

pub(crate) fn raw_set_writable(value: u64, writable: bool) -> (result: u64)
    ensures
        result == with_writable(value, writable),
{
    if writable {
        value | 0x2
    } else {
        value & !0x2
    }
}

pub(crate) fn raw_set_execute_disable(value: u64, execute_disable: bool) -> (result: u64)
    ensures
        result == with_execute_disable(value, execute_disable),
{
    if execute_disable {
        value | 0x8000_0000_0000_0000
    } else {
        value & !0x8000_0000_0000_0000
    }
}

/// An entry of the top-level table.
#[derive(Clone, Copy, Debug, PartialEq, Eq)]
pub struct PML4E(u64);

impl PML4E {
    /// The raw 64 bits of the entry.
    pub closed spec fn bits(self) -> u64 {
        self.0
    }

    /// The entry, field by field.
    pub open spec fn view(self) -> EntryView {
        entry_view(self.bits())
    }

    /// Builds a present entry that points to the second-level table at `pdpt_address`.
    ///
    /// Fails with an alignment error if the address is not page-aligned, and
    /// with a range error if it is aligned but needs more than 52 bits.
    pub fn new(
        execute_disable: bool,
        pdpt_address: u64,
        pcd: bool,
        pwt: bool,
        user: bool,
        writable: bool,
    ) -> (result: Result<Self, PagingError>)
        ensures
            match result {
                Ok(entry) => built_or_error(execute_disable, pdpt_address, pcd, pwt, user, writable)
                    == Ok::<u64, PagingError>(entry.bits()),
                Err(error) => built_or_error(execute_disable, pdpt_address, pcd, pwt, user, writable)
                    == Err::<u64, PagingError>(error),
            },
            result is Ok ==> result.unwrap()@ == (EntryView {
                present: true,
                writable,
                user,
                write_through: pwt,
                cache_disable: pcd,
                execute_disable,
                address: pdpt_address,
            }),
    {
        match build(execute_disable, pdpt_address, pcd, pwt, user, writable) {
            Ok(value) => {
                proof {
                    lemma_encoded_view(
                        EntryView {
                            present: true,
                            writable,
                            user,
                            write_through: pwt,
                            cache_disable: pcd,
                            execute_disable,
                            address: pdpt_address,
                        },
                    );
                }
                Ok(Self(value))
            },
            Err(error) => Err(error),
        }
    }

    /// Wraps raw bits as they stand in a table.
    pub(crate) fn from_bits(value: u64) -> (entry: Self)
        ensures
            entry.bits() == value,
    {
        Self(value)
    }

    /// The raw 64 bits of the entry.
    pub fn value(&self) -> (value: u64)
        ensures
            value == self.bits(),
    {
        self.0
    }

    /// Sets or clears the execute-disable bit; every other bit stays.
    pub fn set_execute_disable(&mut self, value: bool)
        ensures
            final(self).bits() == with_execute_disable(old(self).bits(), value),
            final(self)@ == (EntryView { execute_disable: value, ..old(self)@ }),
    {
        proof {
            lemma_with_execute_disable(self.0, value);
        }
        self.0 = raw_set_execute_disable(self.0, value);
    }

    /// Whether instruction fetches through this entry are forbidden.
    pub fn execute_disable(&self) -> (flag: bool)
        ensures
            flag == self@.execute_disable,
    {
        self.0 & 0x8000_0000_0000_0000 == 0x8000_0000_0000_0000
    }

    /// Whether the entry is present.
    pub fn present(&self) -> (flag: bool)
        ensures
            flag == self@.present,
    {
        self.0 & 1 == 1
    }

    /// Whether writes through this entry are allowed.
    pub fn writable(&self) -> (flag: bool)
        ensures
            flag == self@.writable,
    {
        self.0 & 0x2 == 0x2
    }

    /// Sets or clears the writable bit; every other bit stays.
    pub fn set_writable(&mut self, value: bool)
        ensures
            final(self).bits() == with_writable(old(self).bits(), value),
            final(self)@ == (EntryView { writable: value, ..old(self)@ }),
    {
        proof {
            lemma_with_writable(self.0, value);
        }
        self.0 = raw_set_writable(self.0, value);
    }

    /// The physical address of the second-level table that the entry points to.
    pub fn pdpt_address(&self) -> (address: u64)
        ensures
            address == self@.address,
            valid_physical(address),
    {
        proof {
            lemma_address_valid(self.0);
        }
        self.0 & 0x000f_ffff_ffff_f000
    }
}

/// An entry of a second-level table.
#[derive(Clone, Copy, Debug, PartialEq, Eq)]
pub struct PDPTE(u64);

impl PDPTE {
    /// The raw 64 bits of the entry.
    pub closed spec fn bits(self) -> u64 {
        self.0
    }

    /// The entry, field by field.
    pub open spec fn view(self) -> EntryView {
        entry_view(self.bits())
    }

    /// Builds a present entry that points to the third-level table at `pd_address`.
    ///
    /// Fails with an alignment error if the address is not page-aligned, and
    /// with a range error if it is aligned but needs more than 52 bits.
    pub fn new(
        execute_disable: bool,
        pd_address: u64,
        pcd: bool,
        pwt: bool,
        user: bool,
        writable: bool,
    ) -> (result: Result<Self, PagingError>)
        ensures
            match result {
                Ok(entry) => built_or_error(execute_disable, pd_address, pcd, pwt, user, writable)
                    == Ok::<u64, PagingError>(entry.bits()),
                Err(error) => built_or_error(execute_disable, pd_address, pcd, pwt, user, writable)
                    == Err::<u64, PagingError>(error),
            },
            result is Ok ==> result.unwrap()@ == (EntryView {
                present: true,
                writable,
                user,
                write_through: pwt,
                cache_disable: pcd,
                execute_disable,
                address: pd_address,
            }),
    {
        match build(execute_disable, pd_address, pcd, pwt, user, writable) {
            Ok(value) => {
                proof {
                    lemma_encoded_view(
                        EntryView {
                            present: true,
                            writable,
                            user,
                            write_through: pwt,
                            cache_disable: pcd,
                            execute_disable,
                            address: pd_address,
                        },
                    );
                }
                Ok(Self(value))
            },
            Err(error) => Err(error),
        }
    }

    /// Wraps raw bits as they stand in a table.
    pub(crate) fn from_bits(value: u64) -> (entry: Self)
        ensures
            entry.bits() == value,
    {
        Self(value)
    }

    /// The raw 64 bits of the entry.
    pub fn value(&self) -> (value: u64)
        ensures
            value == self.bits(),
    {
        self.0
    }

    /// Sets or clears the execute-disable bit; every other bit stays.
    pub fn set_execute_disable(&mut self, value: bool)
        ensures
            final(self).bits() == with_execute_disable(old(self).bits(), value),
            final(self)@ == (EntryView { execute_disable: value, ..old(self)@ }),
    {
        proof {
            lemma_with_execute_disable(self.0, value);
        }
        self.0 = raw_set_execute_disable(self.0, value);
    }

    /// Whether instruction fetches through this entry are forbidden.
    pub fn execute_disable(&self) -> (flag: bool)
        ensures
            flag == self@.execute_disable,
    {
        self.0 & 0x8000_0000_0000_0000 == 0x8000_0000_0000_0000
    }

    /// Whether the entry is present.
    pub fn present(&self) -> (flag: bool)
        ensures
            flag == self@.present,
    {
        self.0 & 1 == 1
    }

    /// Whether writes through this entry are allowed.
    pub fn writable(&self) -> (flag: bool)
        ensures
            flag == self@.writable,
    {
        self.0 & 0x2 == 0x2
    }

    /// Sets or clears the writable bit; every other bit stays.
    pub fn set_writable(&mut self, value: bool)
        ensures
            final(self).bits() == with_writable(old(self).bits(), value),
            final(self)@ == (EntryView { writable: value, ..old(self)@ }),
    {
        proof {
            lemma_with_writable(self.0, value);
        }
        self.0 = raw_set_writable(self.0, value);
    }

    /// The physical address of the third-level table that the entry points to.
    pub fn pd_address(&self) -> (address: u64)
        ensures
            address == self@.address,
            valid_physical(address),
    {
        proof {
            lemma_address_valid(self.0);
        }
        self.0 & 0x000f_ffff_ffff_f000
    }
}

/// An entry of a third-level table.
#[derive(Clone, Copy, Debug, PartialEq, Eq)]
pub struct PDE(u64);

impl PDE {
    /// The raw 64 bits of the entry.
    pub closed spec fn bits(self) -> u64 {
        self.0
    }

    /// The entry, field by field.
    pub open spec fn view(self) -> EntryView {
        entry_view(self.bits())
    }

    /// Builds a present entry that points to the fourth-level table at `pt_address`.
    ///
    /// Fails with an alignment error if the address is not page-aligned, and
    /// with a range error if it is aligned but needs more than 52 bits.
    pub fn new(
        execute_disable: bool,
        pt_address: u64,
        pcd: bool,
        pwt: bool,
        user: bool,
        writable: bool,
    ) -> (result: Result<Self, PagingError>)
        ensures
            match result {
                Ok(entry) => built_or_error(execute_disable, pt_address, pcd, pwt, user, writable)
                    == Ok::<u64, PagingError>(entry.bits()),
                Err(error) => built_or_error(execute_disable, pt_address, pcd, pwt, user, writable)
                    == Err::<u64, PagingError>(error),
            },
            result is Ok ==> result.unwrap()@ == (EntryView {
                present: true,
                writable,
                user,
                write_through: pwt,
                cache_disable: pcd,
                execute_disable,
                address: pt_address,
            }),
    {
        match build(execute_disable, pt_address, pcd, pwt, user, writable) {
            Ok(value) => {
                proof {
                    lemma_encoded_view(
                        EntryView {
                            present: true,
                            writable,
                            user,
                            write_through: pwt,
                            cache_disable: pcd,
                            execute_disable,
                            address: pt_address,
                        },
                    );
                }
                Ok(Self(value))
            },
            Err(error) => Err(error),
        }
    }

    /// Wraps raw bits as they stand in a table.
    pub(crate) fn from_bits(value: u64) -> (entry: Self)
        ensures
            entry.bits() == value,
    {
        Self(value)
    }

    /// The raw 64 bits of the entry.
    pub fn value(&self) -> (value: u64)
        ensures
            value == self.bits(),
    {
        self.0
    }

    /// Sets or clears the execute-disable bit; every other bit stays.
    pub fn set_execute_disable(&mut self, value: bool)
        ensures
            final(self).bits() == with_execute_disable(old(self).bits(), value),
            final(self)@ == (EntryView { execute_disable: value, ..old(self)@ }),
    {
        proof {
            lemma_with_execute_disable(self.0, value);
        }
        self.0 = raw_set_execute_disable(self.0, value);
    }

    /// Whether instruction fetches through this entry are forbidden.
    pub fn execute_disable(&self) -> (flag: bool)
        ensures
            flag == self@.execute_disable,
    {
        self.0 & 0x8000_0000_0000_0000 == 0x8000_0000_0000_0000
    }

    /// Whether the entry is present.
    pub fn present(&self) -> (flag: bool)
        ensures
            flag == self@.present,
    {
        self.0 & 1 == 1
    }

    /// Whether writes through this entry are allowed.
    pub fn writable(&self) -> (flag: bool)
        ensures
            flag == self@.writable,
    {
        self.0 & 0x2 == 0x2
    }

    /// Sets or clears the writable bit; every other bit stays.
    pub fn set_writable(&mut self, value: bool)
        ensures
            final(self).bits() == with_writable(old(self).bits(), value),
            final(self)@ == (EntryView { writable: value, ..old(self)@ }),
    {
        proof {
            lemma_with_writable(self.0, value);
        }
        self.0 = raw_set_writable(self.0, value);
    }

    /// The physical address of the fourth-level table that the entry points to.
    pub fn pt_address(&self) -> (address: u64)
        ensures
            address == self@.address,
            valid_physical(address),
    {
        proof {
            lemma_address_valid(self.0);
        }
        self.0 & 0x000f_ffff_ffff_f000
    }
}

/// An entry of a fourth-level table: it maps one page.
#[derive(Clone, Copy, Debug, PartialEq, Eq)]
pub struct PTE(u64);

impl PTE {
    /// The raw 64 bits of the entry.
    pub closed spec fn bits(self) -> u64 {
        self.0
    }

    /// The entry, field by field.
    pub open spec fn view(self) -> EntryView {
        entry_view(self.bits())
    }

    /// Builds a present entry that maps the page at `page_address`.
    ///
    /// Fails with an alignment error if the address is not page-aligned, and
    /// with a range error if it is aligned but needs more than 52 bits.
    pub fn new(
        execute_disable: bool,
        page_address: u64,
        pcd: bool,
        pwt: bool,
        user: bool,
        writable: bool,
    ) -> (result: Result<Self, PagingError>)
        ensures
            match result {
                Ok(entry) => built_or_error(execute_disable, page_address, pcd, pwt, user, writable)
                    == Ok::<u64, PagingError>(entry.bits()),
                Err(error) => built_or_error(execute_disable, page_address, pcd, pwt, user, writable)
                    == Err::<u64, PagingError>(error),
            },
            result is Ok ==> result.unwrap()@ == (EntryView {
                present: true,
                writable,
                user,
                write_through: pwt,
                cache_disable: pcd,
                execute_disable,
                address: page_address,
            }),
    {
        match build(execute_disable, page_address, pcd, pwt, user, writable) {
            Ok(value) => {
                proof {
                    lemma_encoded_view(
                        EntryView {
                            present: true,
                            writable,
                            user,
                            write_through: pwt,
                            cache_disable: pcd,
                            execute_disable,
                            address: page_address,
                        },
                    );
                }
                Ok(Self(value))
            },
            Err(error) => Err(error),
        }
    }

    /// The entry that maps nothing: all 64 bits are 0.
    pub fn unset() -> (entry: Self)
        ensures
            entry.bits() == 0,
            !entry@.present,
    {
        proof {
            lemma_zero_entry();
        }
        Self(0)
    }

    /// Wraps raw bits as they stand in a table.
    pub(crate) fn from_bits(value: u64) -> (entry: Self)
        ensures
            entry.bits() == value,
    {
        Self(value)
    }

    /// The raw 64 bits of the entry.
    pub fn value(&self) -> (value: u64)
        ensures
            value == self.bits(),
    {
        self.0
    }

    /// Whether the entry maps a page.
    pub fn present(&self) -> (flag: bool)
        ensures
            flag == self@.present,
    {
        self.0 & 1 == 1
    }

    /// Whether the mapped page may be written.
    pub fn writable(&self) -> (flag: bool)
        ensures
            flag == self@.writable,
    {
        self.0 & 0x2 == 0x2
    }

    /// Whether instruction fetches from the mapped page are forbidden.
    pub fn execute_disable(&self) -> (flag: bool)
        ensures
            flag == self@.execute_disable,
    {
        self.0 & 0x8000_0000_0000_0000 == 0x8000_0000_0000_0000
    }

    /// The physical address of the mapped page.
    pub fn page_address(&self) -> (address: u64)
        ensures
            address == self@.address,
            valid_physical(address),
    {
        proof {
            lemma_address_valid(self.0);
        }
        self.0 & 0x000f_ffff_ffff_f000
    }
}

} // verus!
