//! Fixed-width little-endian integers, as the wire format lays them out.
use vstd::prelude::*;

verus! {

/// The two little-endian bytes of `v`.
pub open spec fn le16(v: u16) -> Seq<u8> {
    seq![(v & 0xff) as u8, ((v >> 8) & 0xff) as u8]
}

/// The four little-endian bytes of `v`.
pub open spec fn le32(v: u32) -> Seq<u8> {
    seq![
        (v & 0xff) as u8,
        ((v >> 8) & 0xff) as u8,
        ((v >> 16) & 0xff) as u8,
        ((v >> 24) & 0xff) as u8,
    ]
}

/// The eight little-endian bytes of `v`.
pub open spec fn le64(v: u64) -> Seq<u8> {
    seq![
        (v & 0xff) as u8,
        ((v >> 8) & 0xff) as u8,
        ((v >> 16) & 0xff) as u8,
        ((v >> 24) & 0xff) as u8,
        ((v >> 32) & 0xff) as u8,
        ((v >> 40) & 0xff) as u8,
        ((v >> 48) & 0xff) as u8,
        ((v >> 56) & 0xff) as u8,
    ]
}

/// The value of the two little-endian bytes at the front of `b`.
pub open spec fn read16(b: Seq<u8>) -> u16 {
    (b[0] as u16) | ((b[1] as u16) << 8)
}

/// The value of the four little-endian bytes at the front of `b`.
pub open spec fn read32(b: Seq<u8>) -> u32 {
    (b[0] as u32) | ((b[1] as u32) << 8) | ((b[2] as u32) << 16) | ((b[3] as u32) << 24)
}

/// The value of the eight little-endian bytes at the front of `b`.
pub open spec fn read64(b: Seq<u8>) -> u64 {
    (b[0] as u64) | ((b[1] as u64) << 8) | ((b[2] as u64) << 16) | ((b[3] as u64) << 24) | ((
    b[4] as u64) << 32) | ((b[5] as u64) << 40) | ((b[6] as u64) << 48) | ((b[7] as u64) << 56)
}

/// Reading back the bytes of a value gives the value.
pub proof fn lemma_read16_le16(v: u16)
    ensures
        read16(le16(v)) == v,
{
    let b = le16(v);
    let (b0, b1) = (b[0], b[1]);
    assert((b0 as u16) | ((b1 as u16) << 8) == v) by (bit_vector)
        requires
            b0 == (v & 0xff) as u8,
            b1 == ((v >> 8) & 0xff) as u8,
    ;
}

/// Two bytes are the bytes of the value they read as.
pub proof fn lemma_le16_read16(b: Seq<u8>)
    requires
        b.len() == 2,
    ensures
        le16(read16(b)) == b,
{
    let (b0, b1) = (b[0], b[1]);
    let v = read16(b);
    assert(b0 == (v & 0xff) as u8 && b1 == ((v >> 8) & 0xff) as u8) by (bit_vector)
        requires
            v == (b0 as u16) | ((b1 as u16) << 8),
    ;
    assert(le16(v) =~= b);
}

/// Reading back the bytes of a value gives the value.
pub proof fn lemma_read32_le32(v: u32)
    ensures
        read32(le32(v)) == v,
{
    let b = le32(v);
    let (b0, b1, b2, b3) = (b[0], b[1], b[2], b[3]);
    assert((b0 as u32) | ((b1 as u32) << 8) | ((b2 as u32) << 16) | ((b3 as u32) << 24) == v)
        by (bit_vector)
        requires
            b0 == (v & 0xff) as u8,
            b1 == ((v >> 8) & 0xff) as u8,
            b2 == ((v >> 16) & 0xff) as u8,
            b3 == ((v >> 24) & 0xff) as u8,
    ;
}

/// Reading back the bytes of a value gives the value.
pub proof fn lemma_read64_le64(v: u64)
    ensures
        read64(le64(v)) == v,
{
    let b = le64(v);
    let (b0, b1, b2, b3, b4, b5, b6, b7) = (b[0], b[1], b[2], b[3], b[4], b[5], b[6], b[7]);
    assert((b0 as u64) | ((b1 as u64) << 8) | ((b2 as u64) << 16) | ((b3 as u64) << 24) | ((
    b4 as u64) << 32) | ((b5 as u64) << 40) | ((b6 as u64) << 48) | ((b7 as u64) << 56) == v)
        by (bit_vector)
        requires
            b0 == (v & 0xff) as u8,
            b1 == ((v >> 8) & 0xff) as u8,
            b2 == ((v >> 16) & 0xff) as u8,
            b3 == ((v >> 24) & 0xff) as u8,
            b4 == ((v >> 32) & 0xff) as u8,
            b5 == ((v >> 40) & 0xff) as u8,
            b6 == ((v >> 48) & 0xff) as u8,
            b7 == ((v >> 56) & 0xff) as u8,
    ;
}

/// Eight bytes are the bytes of the value they read as.
pub proof fn lemma_le64_read64(b: Seq<u8>)
    requires
        b.len() == 8,
    ensures
        le64(read64(b)) == b,
{
    let (b0, b1, b2, b3, b4, b5, b6, b7) = (b[0], b[1], b[2], b[3], b[4], b[5], b[6], b[7]);
    let v = read64(b);
    assert(b0 == (v & 0xff) as u8 && b1 == ((v >> 8) & 0xff) as u8 && b2 == ((v >> 16) & 0xff) as u8
        && b3 == ((v >> 24) & 0xff) as u8 && b4 == ((v >> 32) & 0xff) as u8 && b5 == ((v >> 40)
        & 0xff) as u8 && b6 == ((v >> 48) & 0xff) as u8 && b7 == ((v >> 56) & 0xff) as u8)
        by (bit_vector)
        requires
            v == (b0 as u64) | ((b1 as u64) << 8) | ((b2 as u64) << 16) | ((b3 as u64) << 24) | ((
            b4 as u64) << 32) | ((b5 as u64) << 40) | ((b6 as u64) << 48) | ((b7 as u64) << 56),
    ;
    assert(le64(v) =~= b);
}

/// Appends the little-endian bytes of `v`.
pub fn push_u16(out: &mut Vec<u8>, v: u16)
    ensures
        final(out)@ == old(out)@ + le16(v),
{
    out.push((v & 0xff) as u8);
    out.push(((v >> 8) & 0xff) as u8);
    assert(final(out)@ =~= old(out)@ + le16(v));
}

/// Appends the little-endian bytes of `v`.
pub fn push_u32(out: &mut Vec<u8>, v: u32)
    ensures
        final(out)@ == old(out)@ + le32(v),
{
    out.push((v & 0xff) as u8);
    out.push(((v >> 8) & 0xff) as u8);
    out.push(((v >> 16) & 0xff) as u8);
    out.push(((v >> 24) & 0xff) as u8);
    assert(final(out)@ =~= old(out)@ + le32(v));
}

/// Appends the little-endian bytes of `v`.
pub fn push_u64(out: &mut Vec<u8>, v: u64)
    ensures
        final(out)@ == old(out)@ + le64(v),
{
    out.push((v & 0xff) as u8);
    out.push(((v >> 8) & 0xff) as u8);
    out.push(((v >> 16) & 0xff) as u8);
    out.push(((v >> 24) & 0xff) as u8);
    out.push(((v >> 32) & 0xff) as u8);
    out.push(((v >> 40) & 0xff) as u8);
    out.push(((v >> 48) & 0xff) as u8);
    out.push(((v >> 56) & 0xff) as u8);
    assert(final(out)@ =~= old(out)@ + le64(v));
}

/// The value of the two little-endian bytes of `b` at `pos`.
pub fn get_u16(b: &[u8], pos: usize) -> (r: u16)
    requires
        pos + 2 <= b@.len(),
    ensures
        r == read16(b@.subrange(pos as int, pos + 2)),
{
    (b[pos] as u16) | ((b[pos + 1] as u16) << 8)
}

/// The value of the four little-endian bytes of `b` at `pos`.
pub fn get_u32(b: &[u8], pos: usize) -> (r: u32)
    requires
        pos + 4 <= b@.len(),
    ensures
        r == read32(b@.subrange(pos as int, pos + 4)),
{
    (b[pos] as u32) | ((b[pos + 1] as u32) << 8) | ((b[pos + 2] as u32) << 16) | ((b[pos
        + 3] as u32) << 24)
}

/// The value of the eight little-endian bytes of `b` at `pos`.
pub fn get_u64(b: &[u8], pos: usize) -> (r: u64)
    requires
        pos + 8 <= b@.len(),
    ensures
        r == read64(b@.subrange(pos as int, pos + 8)),
{
    (b[pos] as u64) | ((b[pos + 1] as u64) << 8) | ((b[pos + 2] as u64) << 16) | ((b[pos
        + 3] as u64) << 24) | ((b[pos + 4] as u64) << 32) | ((b[pos + 5] as u64) << 40) | ((b[pos
        + 6] as u64) << 48) | ((b[pos + 7] as u64) << 56)
}

} // verus!
