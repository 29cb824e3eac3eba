//! Fixed-width integer reads from byte sequences.
use vstd::prelude::*;

verus! {

/// Unsigned value of the two bytes at `i`, little-endian.
pub open spec fn le_u16(s: Seq<u8>, i: int) -> int {
    s[i] + s[i + 1] * 0x100
}

/// Unsigned value of the four bytes at `i`, little-endian.
pub open spec fn le_u32(s: Seq<u8>, i: int) -> int {
    le_u16(s, i) + le_u16(s, i + 2) * 0x10000
}

/// Unsigned value of the eight bytes at `i`, little-endian.
pub open spec fn le_u64(s: Seq<u8>, i: int) -> int {
    le_u32(s, i) + le_u32(s, i + 4) * 0x1_0000_0000
}

/// Unsigned value of the four bytes at `i`, big-endian.
pub open spec fn be_u32(s: Seq<u8>, i: int) -> int {
    s[i + 3] + s[i + 2] * 0x100 + s[i + 1] * 0x1_0000 + s[i] * 0x100_0000
}

/// Unsigned value of the eight bytes at `i`, big-endian.
pub open spec fn be_u64(s: Seq<u8>, i: int) -> int {
    be_u32(s, i) * 0x1_0000_0000 + be_u32(s, i + 4)
}

/// Two's-complement reading of a 32-bit unsigned value.
pub open spec fn as_signed32(v: int) -> int {
    if v < 0x8000_0000 {
        v
    } else {
        v - 0x1_0000_0000
    }
}

/// Two's-complement reading of a 64-bit unsigned value.
pub open spec fn as_signed64(v: int) -> int {
    if v < 0x8000_0000_0000_0000 {
        v
    } else {
        v - 0x1_0000_0000_0000_0000
    }
}

/// The little-endian `u32` at `i`.
pub fn read_u32_le(b: &[u8], i: usize) -> (r: u32)
    requires
        i + 4 <= b@.len(),
    ensures
        r == le_u32(b@, i as int),
{
    let lo: u32 = b[i] as u32 + (b[i + 1] as u32) * 0x100;
    let hi: u32 = b[i + 2] as u32 + (b[i + 3] as u32) * 0x100;
    lo + hi * 0x10000
}

/// The little-endian `u64` at `i`.
pub fn read_u64_le(b: &[u8], i: usize) -> (r: u64)
    requires
        i + 8 <= b@.len(),
    ensures
        r == le_u64(b@, i as int),
{
    // The length fits in a usize, so the second offset cannot overflow.
    let _len: usize = b.len();
    let lo: u32 = read_u32_le(b, i);
    let hi: u32 = read_u32_le(b, i + 4);
    lo as u64 + (hi as u64) * 0x1_0000_0000
}

/// The big-endian `u32` at `i`.
pub fn read_u32_be(b: &[u8], i: usize) -> (r: u32)
    requires
        i + 4 <= b@.len(),
    ensures
        r == be_u32(b@, i as int),
{
    let hi: u32 = (b[i] as u32) * 0x100 + b[i + 1] as u32;
    let lo: u32 = (b[i + 2] as u32) * 0x100 + b[i + 3] as u32;
    hi * 0x10000 + lo
}

/// The big-endian `u64` at `i`.
pub fn read_u64_be(b: &[u8], i: usize) -> (r: u64)
    requires
        i + 8 <= b@.len(),
    ensures
        r == be_u64(b@, i as int),
{
    // The length fits in a usize, so the second offset cannot overflow.
    let _len: usize = b.len();
    let hi: u32 = read_u32_be(b, i);
    let lo: u32 = read_u32_be(b, i + 4);
    (hi as u64) * 0x1_0000_0000 + lo as u64
}

/// The little-endian two's-complement `i32` at `i`.
pub fn read_i32_le(b: &[u8], i: usize) -> (r: i32)
    requires
        i + 4 <= b@.len(),
    ensures
        r == as_signed32(le_u32(b@, i as int)),
{
    let v: u32 = read_u32_le(b, i);
    if v < 0x8000_0000 {
        v as i32
    } else {
        ((v - 0x8000_0000) as i32) - 0x7fff_ffff - 1
    }
}

/// The little-endian two's-complement `i64` at `i`.
pub fn read_i64_le(b: &[u8], i: usize) -> (r: i64)
    requires
        i + 8 <= b@.len(),
    ensures
        r == as_signed64(le_u64(b@, i as int)),
{
    let v: u64 = read_u64_le(b, i);
    if v < 0x8000_0000_0000_0000 {
        v as i64
    } else {
        ((v - 0x8000_0000_0000_0000) as i64) - 0x7fff_ffff_ffff_ffff - 1
    }
}

/// Copy of the bytes in `[start, end)`.
pub fn copy_range(b: &[u8], start: usize, end: usize) -> (r: Vec<u8>)
    requires
        start <= end <= b@.len(),
    ensures
        r@ == b@.subrange(start as int, end as int),
{
    let mut r: Vec<u8> = Vec::new();
    let mut k: usize = start;
    while k < end
        invariant
            start <= k <= end <= b@.len(),
            r@ == b@.subrange(start as int, k as int),
        decreases end - k,
    {
        r.push(b[k]);
        k = k + 1;
        assert(r@ =~= b@.subrange(start as int, k as int));
    }
    r
}

} // verus!
