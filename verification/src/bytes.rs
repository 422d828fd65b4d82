//! Numbers as they stand in a buffer of bytes: least significant byte first.

use vstd::prelude::*;

verus! {

/// The number that the 2 bytes at `offset` spell, least significant first.
pub open spec fn u16_at(bytes: Seq<u8>, offset: int) -> int {
    bytes[offset] + 256 * bytes[offset + 1]
}

/// The number that the 8 bytes at `offset` spell, least significant first.
pub open spec fn u64_at(bytes: Seq<u8>, offset: int) -> int {
    bytes[offset] + 0x100 * bytes[offset + 1] + 0x1_0000 * bytes[offset + 2] + 0x100_0000
        * bytes[offset + 3] + 0x1_0000_0000 * bytes[offset + 4] + 0x100_0000_0000 * bytes[offset
        + 5] + 0x1_0000_0000_0000 * bytes[offset + 6] + 0x100_0000_0000_0000 * bytes[offset + 7]
}

/// Reads 2 bytes as a number, least significant first.
pub fn read_u16(buffer: &[u8], offset: usize) -> (value: u16)
    requires
        offset + 2 <= buffer@.len(),
    ensures
        value == u16_at(buffer@, offset as int),
{
    let low: u16 = buffer[offset] as u16;
    let high: u16 = buffer[offset + 1] as u16;
    low + 256 * high
}

/// Reads 8 bytes as a number, least significant first.
pub fn read_u64(buffer: &[u8], offset: usize) -> (value: u64)
    requires
        offset + 8 <= buffer@.len(),
    ensures
        value == u64_at(buffer@, offset as int),
{
    let b0: u64 = buffer[offset] as u64;
    let b1: u64 = buffer[offset + 1] as u64;
    let b2: u64 = buffer[offset + 2] as u64;
    let b3: u64 = buffer[offset + 3] as u64;
    let b4: u64 = buffer[offset + 4] as u64;
    let b5: u64 = buffer[offset + 5] as u64;
    let b6: u64 = buffer[offset + 6] as u64;
    let b7: u64 = buffer[offset + 7] as u64;
    b0 + 0x100 * b1 + 0x1_0000 * b2 + 0x100_0000 * b3 + 0x1_0000_0000 * b4 + 0x100_0000_0000 * b5
        + 0x1_0000_0000_0000 * b6 + 0x100_0000_0000_0000 * b7
}

} // verus!
