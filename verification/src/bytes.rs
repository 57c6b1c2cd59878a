//! Little-endian integer access on byte sequences.
use vstd::prelude::*;

verus! {

/// The unsigned 16-bit little-endian value stored at `off`.
pub open spec fn le16(s: Seq<u8>, off: int) -> u16 {
    (s[off] as int + 256 * s[off + 1] as int) as u16
}

/// The unsigned 32-bit little-endian value stored at `off`.
pub open spec fn le32(s: Seq<u8>, off: int) -> u32 {
    (s[off] as int + 256 * s[off + 1] as int + 65536 * s[off + 2] as int + 16777216
        * s[off + 3] as int) as u32
}

/// The unsigned 64-bit little-endian value stored at `off`.
pub open spec fn le64(s: Seq<u8>, off: int) -> u64 {
    (le32(s, off) as int + 4294967296 * le32(s, off + 4) as int) as u64
}

/// The four little-endian bytes of `v`.
pub open spec fn le32_bytes(v: u32) -> Seq<u8> {
    seq![(v % 256) as u8, ((v / 256) % 256) as u8, ((v / 65536) % 256) as u8, (v / 16777216) as u8]
}

/// `s` with the four bytes at `off` replaced by the little-endian bytes of `v`.
pub open spec fn store_le32(s: Seq<u8>, off: int, v: u32) -> Seq<u8> {
    s.take(off) + le32_bytes(v) + s.skip(off + 4)
}

/// Reads the 16-bit little-endian value at `off`.
pub fn get_u16_le(s: &[u8], off: usize) -> (r: u16)
    requires
        off + 2 <= s.len(),
    ensures
        r == le16(s@, off as int),
{
    let b0 = s[off];
    let b1 = s[off + 1];
    let r = (b0 as u16) | ((b1 as u16) << 8);
    assert(r == (b0 as int + 256 * b1 as int) as u16) by (bit_vector)
        requires
            r == (b0 as u16) | ((b1 as u16) << 8),
    ;
    r
}

/// Reads the 32-bit little-endian value at `off`.
pub fn get_u32_le(s: &[u8], off: usize) -> (r: u32)
    requires
        off + 4 <= s.len(),
    ensures
        r == le32(s@, off as int),
{
    let b0 = s[off];
    let b1 = s[off + 1];
    let b2 = s[off + 2];
    let b3 = s[off + 3];
    let r = (b0 as u32) | ((b1 as u32) << 8) | ((b2 as u32) << 16) | ((b3 as u32) << 24);
    assert(r == (b0 as int + 256 * b1 as int + 65536 * b2 as int + 16777216 * b3 as int) as u32)
        by (bit_vector)
        requires
            r == (b0 as u32) | ((b1 as u32) << 8) | ((b2 as u32) << 16) | ((b3 as u32) << 24),
    ;
    r
}

/// Reads the 64-bit little-endian value at `off`.
pub fn get_u64_le(s: &[u8], off: usize) -> (r: u64)
    requires
        off + 8 <= s.len(),
    ensures
        r == le64(s@, off as int),
{
    let lo = get_u32_le(s, off);
    let hi = get_u32_le(s, off + 4);
    let r = (lo as u64) | ((hi as u64) << 32);
    assert(r == (lo as int + 4294967296 * hi as int) as u64) by (bit_vector)
        requires
            r == (lo as u64) | ((hi as u64) << 32),
    ;
    r
}

/// Writes `v` in little-endian order over the four bytes at `off`.
pub fn put_u32_le(s: &mut [u8], off: usize, v: u32)
    requires
        off + 4 <= old(s).len(),
    ensures
        final(s)@ == store_le32(old(s)@, off as int, v),
{
    let b0 = (v & 0xff) as u8;
    let b1 = ((v >> 8) & 0xff) as u8;
    let b2 = ((v >> 16) & 0xff) as u8;
    let b3 = (v >> 24) as u8;
    assert(b0 == (v % 256) as u8 && b1 == ((v / 256) % 256) as u8 && b2 == ((v / 65536) % 256) as u8
        && b3 == (v / 16777216) as u8) by (bit_vector)
        requires
            b0 == (v & 0xff) as u8,
            b1 == ((v >> 8) & 0xff) as u8,
            b2 == ((v >> 16) & 0xff) as u8,
            b3 == (v >> 24) as u8,
    ;
    s[off] = b0;
    s[off + 1] = b1;
    s[off + 2] = b2;
    s[off + 3] = b3;
    assert(s@ =~= store_le32(old(s)@, off as int, v));
}

} // verus!
