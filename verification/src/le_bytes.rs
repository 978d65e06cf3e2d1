//! Little-endian byte encodings of fixed-width integers.
use vstd::prelude::*;

verus! {

pub open spec fn le16(x: u16) -> Seq<u8> {
    seq![(x & 0xff) as u8, ((x >> 8u16) & 0xff) as u8]
}

pub open spec fn le32(x: u32) -> Seq<u8> {
    seq![
        (x & 0xff) as u8,
        ((x >> 8u32) & 0xff) as u8,
        ((x >> 16u32) & 0xff) as u8,
        ((x >> 24u32) & 0xff) as u8,
    ]
}

pub open spec fn le64(x: u64) -> Seq<u8> {
    seq![
        (x & 0xff) as u8,
        ((x >> 8u64) & 0xff) as u8,
        ((x >> 16u64) & 0xff) as u8,
        ((x >> 24u64) & 0xff) as u8,
        ((x >> 32u64) & 0xff) as u8,
        ((x >> 40u64) & 0xff) as u8,
        ((x >> 48u64) & 0xff) as u8,
        ((x >> 56u64) & 0xff) as u8,
    ]
}

pub open spec fn from_le16(b0: u8, b1: u8) -> u16 {
    (b0 as u16) | ((b1 as u16) << 8u16)
}

pub open spec fn from_le32(b0: u8, b1: u8, b2: u8, b3: u8) -> u32 {
    (b0 as u32) | ((b1 as u32) << 8u32) | ((b2 as u32) << 16u32) | ((b3 as u32) << 24u32)
}

pub open spec fn from_le64(b: Seq<u8>) -> u64 {
    (b[0] as u64) | ((b[1] as u64) << 8u64) | ((b[2] as u64) << 16u64) | ((b[3] as u64) << 24u64)
        | ((b[4] as u64) << 32u64) | ((b[5] as u64) << 40u64) | ((b[6] as u64) << 48u64) | ((
    b[7] as u64) << 56u64)
}

/// A 16-bit value read back from its encoding is the value itself.
pub proof fn lemma_le16(x: u16)
    ensures
        le16(x).len() == 2,
        from_le16(le16(x)[0], le16(x)[1]) == x,
{
    assert(x == (((x & 0xff) as u8) as u16) | (((((x >> 8u16) & 0xff) as u8) as u16) << 8u16))
        by (bit_vector);
}

/// A 32-bit value read back from its encoding is the value itself.
pub proof fn lemma_le32(x: u32)
    ensures
        le32(x).len() == 4,
        from_le32(le32(x)[0], le32(x)[1], le32(x)[2], le32(x)[3]) == x,
{
    assert(x == (((x & 0xff) as u8) as u32) | (((((x >> 8u32) & 0xff) as u8) as u32) << 8u32) | ((
    (((x >> 16u32) & 0xff) as u8) as u32) << 16u32) | (((((x >> 24u32) & 0xff) as u8) as u32)
        << 24u32)) by (bit_vector);
}

/// A 64-bit value read back from its encoding is the value itself.
pub proof fn lemma_le64(x: u64)
    ensures
        le64(x).len() == 8,
        from_le64(le64(x)) == x,
{
    assert(x == (((x & 0xff) as u8) as u64) | (((((x >> 8u64) & 0xff) as u8) as u64) << 8u64) | ((
    (((x >> 16u64) & 0xff) as u8) as u64) << 16u64) | (((((x >> 24u64) & 0xff) as u8) as u64)
        << 24u64) | (((((x >> 32u64) & 0xff) as u8) as u64) << 32u64) | (((((x >> 40u64) & 0xff)
        as u8) as u64) << 40u64) | (((((x >> 48u64) & 0xff) as u8) as u64) << 48u64) | (((((x
        >> 56u64) & 0xff) as u8) as u64) << 56u64)) by (bit_vector);
}

/// The encodings of zero are all-zero bytes.
pub proof fn lemma_le_zero()
    ensures
        le16(0) =~= seq![0u8, 0u8],
        le32(0) =~= seq![0u8, 0u8, 0u8, 0u8],
{
    assert((0u16 & 0xff) as u8 == 0u8 && ((0u16 >> 8u16) & 0xff) as u8 == 0u8) by (bit_vector);
    assert((0u32 & 0xff) as u8 == 0u8 && ((0u32 >> 8u32) & 0xff) as u8 == 0u8 && ((0u32 >> 16u32)
        & 0xff) as u8 == 0u8 && ((0u32 >> 24u32) & 0xff) as u8 == 0u8) by (bit_vector);
}

/// Append the little-endian encoding of a 16-bit value.
pub fn push_le16(v: &mut Vec<u8>, x: u16)
    ensures
        final(v)@ == old(v)@ + le16(x),
{
    v.push((x & 0xff) as u8);
    v.push(((x >> 8u16) & 0xff) as u8);
    assert(v@ =~= old(v)@ + le16(x));
}

/// Append the little-endian encoding of a 32-bit value.
pub fn push_le32(v: &mut Vec<u8>, x: u32)
    ensures
        final(v)@ == old(v)@ + le32(x),
{
    v.push((x & 0xff) as u8);
    v.push(((x >> 8u32) & 0xff) as u8);
    v.push(((x >> 16u32) & 0xff) as u8);
    v.push(((x >> 24u32) & 0xff) as u8);
    assert(v@ =~= old(v)@ + le32(x));
}

/// Append the little-endian encoding of a 64-bit value.
pub fn push_le64(v: &mut Vec<u8>, x: u64)
    ensures
        final(v)@ == old(v)@ + le64(x),
{
    v.push((x & 0xff) as u8);
    v.push(((x >> 8u64) & 0xff) as u8);
    v.push(((x >> 16u64) & 0xff) as u8);
    v.push(((x >> 24u64) & 0xff) as u8);
    v.push(((x >> 32u64) & 0xff) as u8);
    v.push(((x >> 40u64) & 0xff) as u8);
    v.push(((x >> 48u64) & 0xff) as u8);
    v.push(((x >> 56u64) & 0xff) as u8);
    assert(v@ =~= old(v)@ + le64(x));
}

/// Read a little-endian 16-bit value at `off`.
pub fn read_le16(b: &[u8], off: usize) -> (r: u16)
    requires
        off + 2 <= b@.len(),
    ensures
        r == from_le16(b@[off as int], b@[off + 1]),
{
    (b[off] as u16) | ((b[off + 1] as u16) << 8u16)
}

/// Read a little-endian 32-bit value at `off`.
pub fn read_le32(b: &[u8], off: usize) -> (r: u32)
    requires
        off + 4 <= b@.len(),
    ensures
        r == from_le32(b@[off as int], b@[off + 1], b@[off + 2], b@[off + 3]),
{
    (b[off] as u32) | ((b[off + 1] as u32) << 8u32) | ((b[off + 2] as u32) << 16u32) | ((b[off
        + 3] as u32) << 24u32)
}

/// Read a little-endian 64-bit value at `off`.
pub fn read_le64(b: &[u8], off: usize) -> (r: u64)
    requires
        off + 8 <= b@.len(),
    ensures
        r == from_le64(b@.subrange(off as int, off + 8)),
{
    (b[off] as u64) | ((b[off + 1] as u64) << 8u64) | ((b[off + 2] as u64) << 16u64) | ((b[off
        + 3] as u64) << 24u64) | ((b[off + 4] as u64) << 32u64) | ((b[off + 5] as u64) << 40u64)
        | ((b[off + 6] as u64) << 48u64) | ((b[off + 7] as u64) << 56u64)
}

} // verus!
