//! Big-endian field access over byte sequences.

use vstd::prelude::*;

verus! {

/// Big-endian 16-bit value at `i`.
pub open spec fn be16(s: Seq<u8>, i: int) -> int {
    s[i] as int * 256 + s[i + 1] as int
}

/// Big-endian 24-bit value at `i`.
pub open spec fn be24(s: Seq<u8>, i: int) -> int {
    s[i] as int * 65536 + s[i + 1] as int * 256 + s[i + 2] as int
}

/// Big-endian 32-bit value at `i`.
pub open spec fn be32(s: Seq<u8>, i: int) -> int {
    s[i] as int * 16777216 + s[i + 1] as int * 65536 + s[i + 2] as int * 256 + s[i + 3] as int
}

/// Little-endian 32-bit value at `i`.
pub open spec fn le32(s: Seq<u8>, i: int) -> int {
    s[i + 3] as int * 16777216 + s[i + 2] as int * 65536 + s[i + 1] as int * 256 + s[i] as int
}

/// Two big-endian bytes of `v` truncated to 16 bits (what writing
/// `v as u16` produces).
pub open spec fn u16_be(v: int) -> Seq<u8> {
    seq![((v / 256) % 256) as u8, (v % 256) as u8]
}

/// Reads a big-endian `u16` at `i`.
pub fn read_be16(s: &[u8], i: usize) -> (v: u16)
    requires
        i + 2 <= s@.len(),
    ensures
        v as int == be16(s@, i as int),
{
    (s[i] as u16) * 256 + (s[i + 1] as u16)
}

/// Reads a big-endian 24-bit value at `i`.
pub fn read_be24(s: &[u8], i: usize) -> (v: usize)
    requires
        i + 3 <= s@.len(),
    ensures
        v as int == be24(s@, i as int),
        v < 16777216,
{
    (s[i] as usize) * 65536 + (s[i + 1] as usize) * 256 + (s[i + 2] as usize)
}

/// Reads a big-endian `u32` at `i`.
pub fn read_be32(s: &[u8], i: usize) -> (v: u32)
    requires
        i + 4 <= s@.len(),
    ensures
        v as int == be32(s@, i as int),
{
    (s[i] as u32) * 16777216 + (s[i + 1] as u32) * 65536 + (s[i + 2] as u32) * 256 + (s[i + 3] as u32)
}

/// Reads a little-endian `u32` at `i`.
pub fn read_le32(s: &[u8], i: usize) -> (v: u32)
    requires
        i + 4 <= s@.len(),
    ensures
        v as int == le32(s@, i as int),
{
    let b0 = s[i] as u32;
    let b1 = s[i + 1] as u32;
    let b2 = s[i + 2] as u32;
    let b3 = s[i + 3] as u32;
    b3 * 16777216 + b2 * 65536 + b1 * 256 + b0
}

/// Copy of `s[start..end]`.
pub fn copy_range(s: &[u8], start: usize, end: usize) -> (res: Vec<u8>)
    requires
        start <= end <= s@.len(),
    ensures
        res@ == s@.subrange(start as int, end as int),
{
    let mut out: Vec<u8> = Vec::with_capacity(end - start);
    let mut i = start;
    while i < end
        invariant
            start <= i <= end <= s@.len(),
            out@ == s@.subrange(start as int, i as int),
        decreases end - i,
    {
        out.push(s[i]);
        i += 1;
    }
    out
}

/// Appends every byte of `src` to `dst`.
pub fn extend(dst: &mut Vec<u8>, src: &[u8])
    ensures
        final(dst)@ == old(dst)@ + src@,
{
    let mut i: usize = 0;
    while i < src.len()
        invariant
            i <= src@.len(),
            dst@ == old(dst)@ + src@.subrange(0, i as int),
        decreases src.len() - i,
    {
        dst.push(src[i]);
        i += 1;
    }
    assert(src@.subrange(0, src@.len() as int) == src@);
}

/// Appends the two big-endian bytes of `n` truncated to 16 bits.
pub fn push_len16(dst: &mut Vec<u8>, n: usize)
    ensures
        final(dst)@ == old(dst)@ + u16_be(n as int),
{
    dst.push(((n / 256) % 256) as u8);
    dst.push((n % 256) as u8);
}

/// Appends the two big-endian bytes of `v`.
pub fn push_be16(dst: &mut Vec<u8>, v: u16)
    ensures
        final(dst)@ == old(dst)@ + u16_be(v as int),
{
    dst.push((v / 256) as u8);
    dst.push((v % 256) as u8);
}

} // verus!
