//! Little-endian integers at given positions of a byte sequence.

use vstd::prelude::*;

verus! {

/// The 16-bit little-endian integer whose first byte is `s[off]`.
pub open spec fn le16(s: Seq<u8>, off: int) -> u16
    recommends
        0 <= off,
        off + 2 <= s.len(),
{
    (s[off] as int + 0x100 * (s[off + 1] as int)) as u16
}

/// The 32-bit little-endian integer whose first byte is `s[off]`.
pub open spec fn le32(s: Seq<u8>, off: int) -> u32
    recommends
        0 <= off,
        off + 4 <= s.len(),
{
    (s[off] as int + 0x100 * (s[off + 1] as int) + 0x1_0000 * (s[off + 2] as int) + 0x100_0000 * (
    s[off + 3] as int)) as u32
}

/// The 64-bit integer made of a low and a high half.
pub open spec fn join32(lo: u32, hi: u32) -> u64 {
    (lo as int + 0x1_0000_0000 * (hi as int)) as u64
}

/// The length of a slice is a machine integer.
pub proof fn lemma_len_fits(data: &[u8])
    ensures
        data@.len() <= usize::MAX,
{
    assert(data.len() == data@.len());
}

/// Reads a 16-bit little-endian integer.
pub fn read_u16(data: &[u8], off: usize) -> (r: u16)
    requires
        off + 2 <= data@.len(),
    ensures
        r == le16(data@, off as int),
{
    let b0: u16 = data[off] as u16;
    let b1: u16 = data[off + 1] as u16;
    b0 + 0x100 * b1
}

/// Reads a 32-bit little-endian integer.
pub fn read_u32(data: &[u8], off: usize) -> (r: u32)
    requires
        off + 4 <= data@.len(),
    ensures
        r == le32(data@, off as int),
{
    let b0: u32 = data[off] as u32;
    let b1: u32 = data[off + 1] as u32;
    let b2: u32 = data[off + 2] as u32;
    let b3: u32 = data[off + 3] as u32;
    b0 + 0x100 * b1 + 0x1_0000 * b2 + 0x100_0000 * b3
}

/// Joins two 32-bit halves into a 64-bit integer.
pub fn join_u32(lo: u32, hi: u32) -> (r: u64)
    ensures
        r == join32(lo, hi),
{
    lo as u64 + 0x1_0000_0000 * (hi as u64)
}

} // verus!
