//! Little-endian field access in byte buffers.
use vstd::prelude::*;

verus! {

/// Little-endian 16-bit value at `p`.
pub open spec fn le16(b: Seq<u8>, p: int) -> int {
    b[p] + 256 * b[p + 1]
}

/// Little-endian 32-bit value at `p`.
pub open spec fn le32(b: Seq<u8>, p: int) -> int {
    le16(b, p) + 65536 * le16(b, p + 2)
}

/// Reads the little-endian 16-bit value at `p`.
pub fn read_le16(b: &[u8], p: usize) -> (res: u16)
    requires
        p + 2 <= b@.len(),
    ensures
        res == le16(b@, p as int),
{
    let lo = b[p];
    let hi = b[p + 1];
    assert((lo as u16) | ((hi as u16) << 8u16) == lo + 256 * hi) by (bit_vector);
    (lo as u16) | ((hi as u16) << 8u16)
}

/// Reads the little-endian 32-bit value at `p`.
pub fn read_le32(b: &[u8], p: usize) -> (res: u32)
    requires
        p + 4 <= b@.len(),
    ensures
        res == le32(b@, p as int),
{
    let blen = b.len();
    assert(p + 2 <= blen);
    let lo = read_le16(b, p);
    let hi = read_le16(b, p + 2);
    assert((lo as u32) | ((hi as u32) << 16u32) == lo + 65536 * hi) by (bit_vector);
    (lo as u32) | ((hi as u32) << 16u32)
}

/// Little-endian 64-bit value at `p`.
pub open spec fn le64(b: Seq<u8>, p: int) -> int {
    le32(b, p) + 0x1_0000_0000 * le32(b, p + 4)
}

/// Reads the little-endian 64-bit value at `p`.
pub fn read_le64(b: &[u8], p: usize) -> (res: u64)
    requires
        p + 8 <= b@.len(),
    ensures
        res == le64(b@, p as int),
{
    let n = b.len();
    let lo = read_le32(b, p);
    let hi = read_le32(b, p + 4);
    lo as u64 + 0x1_0000_0000 * hi as u64
}

} // verus!
