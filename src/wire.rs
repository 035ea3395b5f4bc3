//! The datagram format: a 3-byte header (opcode, then the payload's length
//! as a little-endian `u16`) followed by exactly that many payload bytes.
//!
//! A DATA payload is the data's length as a little-endian `u64`, the data,
//! and its CRC-16/X-25 as a little-endian `u16`. A PONG payload is the number
//! of endpoints as a little-endian `u64`, then each endpoint as its host
//! (`u32`) and port (`u16`), little-endian.
use vstd::prelude::*;

use crate::bytes::{
    get_u16, get_u32, get_u64, le16, le32, le64, lemma_le16_read16, lemma_le64_read64,
    lemma_read16_le16, lemma_read32_le32, lemma_read64_le64, push_u16, push_u32, push_u64, read16,
    read32, read64,
};
use crate::checksum::{crc_x25, x25_of};
use crate::endpoint::Endpoint;
use crate::error::LiaisonError;

verus! {

pub const OP_PING: u8 = 0;

pub const OP_PONG: u8 = 1;

pub const OP_DATA: u8 = 2;

/// Bytes in a packet header.
pub const HEADER_LEN: usize = 3;

/// Bytes that a DATA payload adds to its data: the length and the checksum.
pub const DATA_OVERHEAD: usize = 10;

/// The largest payload that a header can announce.
pub const MAX_PAYLOAD: usize = 65535;

/// The fixed framing in front of every payload.
#[derive(Debug, Clone, Copy, PartialEq, Eq, Structural)]
pub struct PacketHeader {
    pub opcode: u8,
    pub length: u16,
}

/// The bytes of a header.
pub open spec fn header_bytes(opcode: u8, length: u16) -> Seq<u8> {
    seq![opcode] + le16(length)
}

/// What the first three bytes of `b` say, if there are three.
pub open spec fn header_of(b: Seq<u8>) -> Result<PacketHeader, LiaisonError> {
    if b.len() < HEADER_LEN {
        Err(LiaisonError::MalformedHeader)
    } else {
        Ok(PacketHeader { opcode: b[0], length: read16(b.subrange(1, 3)) })
    }
}

/// The header of a whole datagram: it must announce exactly the bytes that
/// follow it.
pub open spec fn packet_header_of(b: Seq<u8>) -> Result<PacketHeader, LiaisonError> {
    match header_of(b) {
        Err(e) => Err(e),
        Ok(h) => if h.length as int == b.len() - HEADER_LEN {
            Ok(h)
        } else {
            Err(LiaisonError::MalformedHeader)
        },
    }
}

/// The payload of a datagram: what follows the header.
pub open spec fn payload_of(b: Seq<u8>) -> Seq<u8> {
    b.subrange(HEADER_LEN as int, b.len() as int)
}

/// A datagram with the given opcode and payload.
pub open spec fn packet_bytes(opcode: u8, payload: Seq<u8>) -> Seq<u8> {
    header_bytes(opcode, payload.len() as u16) + payload
}

/// The DATA payload that carries `d`.
pub open spec fn data_payload(d: Seq<u8>) -> Seq<u8> {
    le64(d.len() as u64) + d + le16(x25_of(d))
}

/// What a DATA payload carries, or why it is refused. A payload that is
/// too short, or whose length field disagrees with its size, is corrupted
/// or truncated and fails its check just as a wrong checksum does.
pub open spec fn data_of(b: Seq<u8>) -> Result<Seq<u8>, LiaisonError> {
    if b.len() < DATA_OVERHEAD {
        Err(LiaisonError::ChecksumMismatch)
    } else if read64(b.subrange(0, 8)) as int != b.len() - DATA_OVERHEAD {
        Err(LiaisonError::ChecksumMismatch)
    } else {
        let d = b.subrange(8, b.len() - 2);
        if read16(b.subrange(b.len() - 2, b.len() as int)) == x25_of(d) {
            Ok(d)
        } else {
            Err(LiaisonError::ChecksumMismatch)
        }
    }
}

/// The bytes of one endpoint.
pub open spec fn endpoint_bytes(e: Endpoint) -> Seq<u8> {
    le32(e.host) + le16(e.port)
}

/// The bytes of a list of endpoints, one after another.
pub open spec fn endpoints_bytes(s: Seq<Endpoint>) -> Seq<u8>
    decreases s.len(),
{
    if s.len() == 0 {
        Seq::empty()
    } else {
        endpoints_bytes(s.drop_last()) + endpoint_bytes(s.last())
    }
}

/// The PONG payload that lists `peers`.
pub open spec fn pong_payload(peers: Seq<Endpoint>) -> Seq<u8> {
    le64(peers.len() as u64) + endpoints_bytes(peers)
}

/// The endpoint whose bytes start at `pos` in `b`.
pub open spec fn endpoint_at(b: Seq<u8>, pos: int) -> Endpoint {
    Endpoint {
        host: read32(b.subrange(pos, pos + 4)),
        port: read16(b.subrange(pos + 4, pos + 6)),
    }
}

/// What a PONG payload lists, or why it is refused.
pub open spec fn pong_of(b: Seq<u8>) -> Result<Seq<Endpoint>, LiaisonError> {
    if b.len() < 8 {
        Err(LiaisonError::MalformedPayload)
    } else if read64(b.subrange(0, 8)) * 6 != b.len() - 8 {
        Err(LiaisonError::MalformedPayload)
    } else {
        Ok(Seq::new(read64(b.subrange(0, 8)) as nat, |i: int| endpoint_at(b, 8 + 6 * i)))
    }
}

/// The bytes of a header.
pub fn encode_header(opcode: u8, length: u16) -> (r: Vec<u8>)
    ensures
        r@ == header_bytes(opcode, length),
{
    let mut r: Vec<u8> = Vec::new();
    r.push(opcode);
    push_u16(&mut r, length);
    assert(r@ =~= header_bytes(opcode, length));
    r
}

/// Reads the header at the front of `b`; fails on fewer than three bytes.
pub fn decode_header(b: &[u8]) -> (r: Result<PacketHeader, LiaisonError>)
    ensures
        r == header_of(b@),
{
    if b.len() < HEADER_LEN {
        Err(LiaisonError::MalformedHeader)
    } else {
        Ok(PacketHeader { opcode: b[0], length: get_u16(b, 1) })
    }
}

/// Reads the header of a whole datagram and checks that it announces
/// exactly the bytes that follow it.
pub fn decode_packet_header(b: &[u8]) -> (r: Result<PacketHeader, LiaisonError>)
    ensures
        r == packet_header_of(b@),
{
    match decode_header(b) {
        Err(e) => Err(e),
        Ok(h) => if h.length as usize == b.len() - HEADER_LEN {
            Ok(h)
        } else {
            Err(LiaisonError::MalformedHeader)
        },
    }
}

/// A datagram with the given opcode and payload.
pub fn encode_packet(opcode: u8, payload: &[u8]) -> (r: Vec<u8>)
    requires
        payload@.len() <= MAX_PAYLOAD,
    ensures
        r@ == packet_bytes(opcode, payload@),
{
    let mut r = encode_header(opcode, payload.len() as u16);
    let mut i: usize = 0;
    while i < payload.len()
        invariant
            i <= payload@.len(),
            r@ == header_bytes(opcode, payload@.len() as u16) + payload@.take(i as int),
        decreases payload@.len() - i,
    {
        r.push(payload[i]);
        assert(payload@.take(i + 1) =~= payload@.take(i as int).push(payload@[i as int]));
        i += 1;
    }
    assert(payload@.take(i as int) =~= payload@);
    r
}

/// Appends the bytes of `b` to `out`.
fn push_all(out: &mut Vec<u8>, b: &[u8])
    ensures
        final(out)@ == old(out)@ + b@,
{
    let mut i: usize = 0;
    while i < b.len()
        invariant
            i <= b@.len(),
            out@ == old(out)@ + b@.take(i as int),
        decreases b@.len() - i,
    {
        out.push(b[i]);
        assert(b@.take(i + 1) =~= b@.take(i as int).push(b@[i as int]));
        i += 1;
    }
    assert(b@.take(i as int) =~= b@);
}

/// The DATA payload that carries `data`, with its checksum.
pub fn encode_data(data: &[u8]) -> (r: Vec<u8>)
    ensures
        r@ == data_payload(data@),
{
    let crc = crc_x25(data);
    let mut r: Vec<u8> = Vec::new();
    push_u64(&mut r, data.len() as u64);
    push_all(&mut r, data);
    push_u16(&mut r, crc);
    r
}

/// The data that a DATA payload carries, after its checksum is checked.
pub fn decode_data(b: &[u8]) -> (r: Result<Vec<u8>, LiaisonError>)
    ensures
        match r {
            Ok(d) => data_of(b@) == Ok::<Seq<u8>, LiaisonError>(d@),
            Err(e) => data_of(b@) == Err::<Seq<u8>, LiaisonError>(e),
        },
{
    if b.len() < DATA_OVERHEAD {
        return Err(LiaisonError::ChecksumMismatch);
    }
    let n = get_u64(b, 0);
    if n != (b.len() - DATA_OVERHEAD) as u64 {
        return Err(LiaisonError::ChecksumMismatch);
    }
    let end = b.len() - 2;
    let mut d: Vec<u8> = Vec::new();
    let mut i: usize = 8;
    while i < end
        invariant
            8 <= i <= end,
            end == b@.len() - 2,
            d@ == b@.subrange(8, i as int),
        decreases end - i,
    {
        d.push(b[i]);
        assert(b@.subrange(8, i + 1) =~= b@.subrange(8, i as int).push(b@[i as int]));
        i += 1;
    }
    let stored = get_u16(b, end);
    if crc_x25(d.as_slice()) == stored {
        Ok(d)
    } else {
        Err(LiaisonError::ChecksumMismatch)
    }
}

/// The PONG payload that lists `peers`, in order.
pub fn encode_pong(peers: &[Endpoint]) -> (r: Vec<u8>)
    ensures
        r@ == pong_payload(peers@),
{
    let mut r: Vec<u8> = Vec::new();
    push_u64(&mut r, peers.len() as u64);
    let mut i: usize = 0;
    while i < peers.len()
        invariant
            i <= peers@.len(),
            r@ == le64(peers@.len() as u64) + endpoints_bytes(peers@.take(i as int)),
        decreases peers@.len() - i,
    {
        let e = peers[i];
        push_u32(&mut r, e.host);
        push_u16(&mut r, e.port);
        assert(peers@.take(i + 1).drop_last() =~= peers@.take(i as int));
        assert(r@ =~= le64(peers@.len() as u64) + endpoints_bytes(peers@.take(i + 1)));
        i += 1;
    }
    assert(peers@.take(i as int) =~= peers@);
    r
}

/// The endpoints that a PONG payload lists, in order.
pub fn decode_pong(b: &[u8]) -> (r: Result<Vec<Endpoint>, LiaisonError>)
    ensures
        match r {
            Ok(v) => pong_of(b@) == Ok::<Seq<Endpoint>, LiaisonError>(v@),
            Err(e) => pong_of(b@) == Err::<Seq<Endpoint>, LiaisonError>(e),
        },
{
    if b.len() < 8 {
        return Err(LiaisonError::MalformedPayload);
    }
    let n = get_u64(b, 0);
    let len = b.len();
    let rest = len - 8;
    if n > (rest / 6) as u64 {
        assert(n * 6 != rest) by (nonlinear_arith)
            requires
                n > rest / 6,
        ;
        return Err(LiaisonError::MalformedPayload);
    }
    let count = n as usize;
    assert(count * 6 <= rest) by (nonlinear_arith)
        requires
            count <= rest / 6,
    ;
    if count * 6 != rest {
        return Err(LiaisonError::MalformedPayload);
    }
    let mut v: Vec<Endpoint> = Vec::new();
    let mut i: usize = 0;
    while i < count
        invariant
            i <= count,
            count * 6 == rest,
            rest + 8 == len,
            len == b@.len(),
            v@.len() == i,
            forall|j: int| 0 <= j < i ==> v@[j] == endpoint_at(b@, 8 + 6 * j),
        decreases count - i,
    {
        assert(6 * i + 6 <= 6 * count) by (nonlinear_arith)
            requires
                i < count,
        ;
        let pos = 8 + 6 * i;
        let host = get_u32(b, pos);
        let port = get_u16(b, pos + 4);
        v.push(Endpoint { host, port });
        i += 1;
    }
    assert(v@ =~= Seq::new(n as nat, |j: int| endpoint_at(b@, 8 + 6 * j)));
    Ok(v)
}

/// The bytes of `s` are six per endpoint, and those at `6 * i` are the
/// bytes of `s[i]`.
pub proof fn lemma_endpoints_bytes(s: Seq<Endpoint>)
    ensures
        endpoints_bytes(s).len() == 6 * s.len(),
        forall|i: int|
            0 <= i < s.len() ==> #[trigger] endpoints_bytes(s).subrange(6 * i, 6 * i + 6)
                == endpoint_bytes(s[i]),
    decreases s.len(),
{
    if s.len() > 0 {
        let p = s.drop_last();
        lemma_endpoints_bytes(p);
        let a = endpoints_bytes(p);
        let e = endpoint_bytes(s.last());
        assert forall|i: int| 0 <= i < s.len() implies #[trigger] endpoints_bytes(s).subrange(
            6 * i,
            6 * i + 6,
        ) == endpoint_bytes(s[i]) by {
            if i < p.len() {
                assert(a.subrange(6 * i, 6 * i + 6) == endpoint_bytes(p[i]));
                assert((a + e).subrange(6 * i, 6 * i + 6) =~= a.subrange(6 * i, 6 * i + 6));
            } else {
                assert((a + e).subrange(6 * i, 6 * i + 6) =~= e);
            }
        }
    }
}

/// Round trip of the DATA payload: decoding what `encode_data` made gives
/// back the data, for every byte sequence that a buffer can hold.
pub proof fn lemma_data_round_trip(d: Seq<u8>)
    requires
        d.len() <= u64::MAX - DATA_OVERHEAD,
    ensures
        data_of(data_payload(d)) == Ok::<Seq<u8>, LiaisonError>(d),
{
    let b = data_payload(d);
    lemma_read64_le64(d.len() as u64);
    lemma_read16_le16(x25_of(d));
    assert(b.subrange(0, 8) =~= le64(d.len() as u64));
    assert(b.subrange(8, b.len() - 2) =~= d);
    assert(b.subrange(b.len() - 2, b.len() as int) =~= le16(x25_of(d)));
}

/// Round trip of the PONG payload: decoding what `encode_pong` made gives
/// back the same endpoints in the same order.
pub proof fn lemma_pong_round_trip(peers: Seq<Endpoint>)
    requires
        6 * peers.len() + 8 <= u64::MAX,
    ensures
        pong_of(pong_payload(peers)) == Ok::<Seq<Endpoint>, LiaisonError>(peers),
{
    let b = pong_payload(peers);
    let body = endpoints_bytes(peers);
    lemma_endpoints_bytes(peers);
    lemma_read64_le64(peers.len() as u64);
    assert(b.subrange(0, 8) =~= le64(peers.len() as u64));
    assert forall|i: int| 0 <= i < peers.len() implies endpoint_at(b, 8 + 6 * i) == peers[i] by {
        let eb = body.subrange(6 * i, 6 * i + 6);
        assert(eb == endpoint_bytes(peers[i]));
        assert(b.subrange(8 + 6 * i, 8 + 6 * i + 6) =~= eb);
        assert(eb.subrange(0, 4) =~= le32(peers[i].host));
        assert(eb.subrange(4, 6) =~= le16(peers[i].port));
        assert(b.subrange(8 + 6 * i, 8 + 6 * i + 4) =~= le32(peers[i].host));
        assert(b.subrange(8 + 6 * i + 4, 8 + 6 * i + 6) =~= le16(peers[i].port));
        lemma_read32_le32(peers[i].host);
        lemma_read16_le16(peers[i].port);
    }
    assert(Seq::new(peers.len(), |i: int| endpoint_at(b, 8 + 6 * i)) =~= peers);
}

/// `b` with bit `bit` of byte `i` inverted.
pub open spec fn flip_bit(b: Seq<u8>, i: int, bit: u8) -> Seq<u8> {
    b.update(i, b[i] ^ ((1u8 << bit) as u8))
}

proof fn lemma_flip_changes_byte(x: u8, bit: u8)
    requires
        bit < 8,
    ensures
        x ^ ((1u8 << bit) as u8) != x,
{
    assert(x ^ ((1u8 << bit) as u8) != x) by (bit_vector)
        requires
            bit < 8,
    ;
}

/// A DATA payload with one bit inverted never decodes to the data it was
/// made from. A flip in the length field or in the checksum makes it fail
/// with a checksum mismatch, and so does one in the data unless the altered
/// data happens to have the same checksum.
pub proof fn lemma_data_bit_flip(d: Seq<u8>, i: int, bit: u8)
    requires
        d.len() <= u64::MAX - DATA_OVERHEAD,
        0 <= i < data_payload(d).len(),
        bit < 8,
    ensures
        data_of(flip_bit(data_payload(d), i, bit)) != Ok::<Seq<u8>, LiaisonError>(d),
        i < 8 ==> data_of(flip_bit(data_payload(d), i, bit)) == Err::<Seq<u8>, LiaisonError>(
            LiaisonError::ChecksumMismatch,
        ),
        8 <= i < 8 + d.len() ==> data_of(flip_bit(data_payload(d), i, bit)) == Err::<
            Seq<u8>,
            LiaisonError,
        >(LiaisonError::ChecksumMismatch) || x25_of(
            flip_bit(data_payload(d), i, bit).subrange(8, 8 + d.len() as int),
        ) == x25_of(d),
        8 + d.len() <= i ==> data_of(flip_bit(data_payload(d), i, bit)) == Err::<
            Seq<u8>,
            LiaisonError,
        >(LiaisonError::ChecksumMismatch),
{
    let b = data_payload(d);
    let f = flip_bit(b, i, bit);
    let n = d.len() as int;
    lemma_flip_changes_byte(b[i], bit);
    lemma_read64_le64(n as u64);
    lemma_read16_le16(x25_of(d));
    assert(b.subrange(0, 8) =~= le64(n as u64));
    assert(b.subrange(8, 8 + n) =~= d);
    assert(b.subrange(8 + n, 10 + n) =~= le16(x25_of(d)));
    if i < 8 {
        let h = f.subrange(0, 8);
        assert(h[i] != b.subrange(0, 8)[i]);
        lemma_le64_read64(h);
        assert(read64(h) != n as u64);
    } else if i < 8 + n {
        assert(f.subrange(0, 8) =~= b.subrange(0, 8));
        assert(f.subrange(8 + n, 10 + n) =~= b.subrange(8 + n, 10 + n));
        assert(f.subrange(8, 8 + n)[i - 8] != d[i - 8]);
    } else {
        assert(f.subrange(0, 8) =~= b.subrange(0, 8));
        assert(f.subrange(8, 8 + n) =~= d);
        let c = f.subrange(8 + n, 10 + n);
        assert(c[i - 8 - n] != le16(x25_of(d))[i - 8 - n]);
        lemma_le16_read16(c);
        assert(read16(c) != x25_of(d));
    }
}

/// A datagram built from an opcode and a payload that fits is read back as
/// that opcode, with that payload.
pub proof fn lemma_packet_round_trip(opcode: u8, payload: Seq<u8>)
    requires
        payload.len() <= MAX_PAYLOAD,
    ensures
        packet_header_of(packet_bytes(opcode, payload)) == Ok::<PacketHeader, LiaisonError>(
            PacketHeader { opcode, length: payload.len() as u16 },
        ),
        payload_of(packet_bytes(opcode, payload)) == payload,
{
    let b = packet_bytes(opcode, payload);
    lemma_read16_le16(payload.len() as u16);
    assert(b.subrange(1, 3) =~= le16(payload.len() as u16));
    assert(payload_of(b) =~= payload);
}

} // verus!
