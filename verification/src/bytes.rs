//! Little-endian field extraction from raw bytes.
//!
//! FAT32 stores every multi-byte field little-endian. The spec functions
//! here give the mathematical value of such a field, and the executable
//! readers are proved to return exactly that value.

use vstd::prelude::*;

verus! {

/// The value of a 16-bit little-endian field with bytes `b0` (low) and `b1` (high).
pub open spec fn le16(b0: u8, b1: u8) -> u16 {
    (b0 + b1 * 0x100) as u16
}

/// The value of a 32-bit little-endian field with bytes `b0` (lowest) through `b3` (highest).
pub open spec fn le32(b0: u8, b1: u8, b2: u8, b3: u8) -> u32 {
    (b0 + b1 * 0x100 + b2 * 0x1_0000 + b3 * 0x100_0000) as u32
}

/// The 32-bit little-endian field starting at byte offset `off` of `s`.
pub open spec fn le32_at(s: Seq<u8>, off: int) -> u32
    recommends
        0 <= off,
        off + 4 <= s.len(),
{
    le32(s[off], s[off + 1], s[off + 2], s[off + 3])
}

/// Decodes a 16-bit little-endian field.
pub fn read_le16(b0: u8, b1: u8) -> (r: u16)
    ensures
        r == le16(b0, b1),
{
    b0 as u16 + b1 as u16 * 0x100
}

/// Decodes a 32-bit little-endian field.
pub fn read_le32(b0: u8, b1: u8, b2: u8, b3: u8) -> (r: u32)
    ensures
        r == le32(b0, b1, b2, b3),
{
    b0 as u32 + b1 as u32 * 0x100 + b2 as u32 * 0x1_0000 + b3 as u32 * 0x100_0000
}

} // verus!
