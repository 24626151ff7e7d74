//! Little-endian integers read from and written to byte buffers.
use vstd::prelude::*;

verus! {

/// The little-endian 16-bit value at `off`.
pub open spec fn le16(b: Seq<u8>, off: int) -> int {
    b[off] + 256 * b[off + 1]
}

/// The little-endian 32-bit value at `off`.
pub open spec fn le32(b: Seq<u8>, off: int) -> int {
    le16(b, off) + 65536 * le16(b, off + 2)
}

/// The little-endian 64-bit value at `off`.
pub open spec fn le64(b: Seq<u8>, off: int) -> int {
    le32(b, off) + 4294967296 * le32(b, off + 4)
}

/// Reads the little-endian 16-bit value at `off`.
pub fn read_u16(b: &Vec<u8>, off: usize) -> (r: u16)
    requires
        off + 2 <= b@.len(),
    ensures
        r == le16(b@, off as int),
{
    let _len: usize = b.len();
    let lo: u8 = b[off];
    let hi: u8 = b[off + 1];
    let r: u16 = (lo as u16) | ((hi as u16) << 8u16);
    assert(r == lo + 256 * hi) by (bit_vector)
        requires
            r == (lo as u16) | ((hi as u16) << 8u16),
    ;
    r
}

/// Reads the little-endian 32-bit value at `off`.
pub fn read_u32(b: &Vec<u8>, off: usize) -> (r: u32)
    requires
        off + 4 <= b@.len(),
    ensures
        r == le32(b@, off as int),
{
    let _len: usize = b.len();
    let lo: u16 = read_u16(b, off);
    let hi: u16 = read_u16(b, off + 2);
    let r: u32 = (lo as u32) | ((hi as u32) << 16u32);
    assert(r == lo + 65536 * hi) by (bit_vector)
        requires
            r == (lo as u32) | ((hi as u32) << 16u32),
    ;
    r
}

/// Reads the little-endian 64-bit value at `off`.
pub fn read_u64(b: &Vec<u8>, off: usize) -> (r: u64)
    requires
        off + 8 <= b@.len(),
    ensures
        r == le64(b@, off as int),
{
    let _len: usize = b.len();
    let lo: u32 = read_u32(b, off);
    let hi: u32 = read_u32(b, off + 4);
    let r: u64 = (lo as u64) | ((hi as u64) << 32u64);
    assert(r == lo + 4294967296 * hi) by (bit_vector)
        requires
            r == (lo as u64) | ((hi as u64) << 32u64),
    ;
    r
}

/// Copies `N` bytes starting at `off` into an array.
pub fn read_array<const N: usize>(b: &Vec<u8>, off: usize) -> (r: [u8; N])
    requires
        off + N <= b@.len(),
    ensures
        r@ == b@.subrange(off as int, off + N),
{
    let len: usize = b.len();
    let mut r: [u8; N] = [0u8; N];
    let mut i: usize = 0;
    while i < N
        invariant
            off + N <= b@.len(),
            len == b@.len(),
            i <= N,
            r@.len() == N,
            forall|j: int| 0 <= j < i ==> r@[j] == b@[off + j],
        decreases N - i,
    {
        r[i] = b[off + i];
        i = i + 1;
    }
    assert(r@ =~= b@.subrange(off as int, off + N));
    r
}

/// Reads `N` little-endian 16-bit values starting at `off`.
pub fn read_u16_array<const N: usize>(b: &Vec<u8>, off: usize) -> (r: [u16; N])
    requires
        off + 2 * N <= b@.len(),
    ensures
        forall|j: int| 0 <= j < N ==> r@[j] == le16(b@, off + 2 * j),
{
    let len: usize = b.len();
    let mut r: [u16; N] = [0u16; N];
    let mut i: usize = 0;
    while i < N
        invariant
            off + 2 * N <= b@.len(),
            len == b@.len(),
            i <= N,
            r@.len() == N,
            forall|j: int| 0 <= j < i ==> r@[j] == le16(b@, off + 2 * j),
        decreases N - i,
    {
        r[i] = read_u16(b, off + 2 * i);
        i = i + 1;
    }
    r
}

/// Splits a 16-bit value into its two little-endian bytes.
pub fn u16_bytes(v: u16) -> (r: (u8, u8))
    ensures
        r.0 + 256 * r.1 == v,
        r.0 == v % 256,
        r.1 == v / 256,
{
    assert((v & 0xFF) == v % 256 && (v >> 8u16) == v / 256) by (bit_vector);
    assert((v & 0xFF) + 256 * (v >> 8u16) == v && (v & 0xFF) < 256 && (v >> 8u16) < 256) by (bit_vector);
    let lo: u8 = (v & 0xFF) as u8;
    let hi: u8 = (v >> 8u16) as u8;
    (lo, hi)
}

} // verus!
