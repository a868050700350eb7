//! The wire codec: every protocol frame is the 3-byte marker, the sequence
//! number and ack number as big-endian 16-bit fields, the ack bitfield as a
//! big-endian 32-bit field, and then the payload, inside a fixed 256-byte
//! datagram budget.

use vstd::prelude::*;

use crate::byte_ops::subrange_vec;
use crate::types::{
    RawSocketPayload, RawSocketPayloadV, SequencedAckedSocketPayload, SequencedAckedSocketPayloadV,
    SequencedSocketPayload, SocketPayload,
};

verus! {

/// The fixed datagram capacity in bytes.
pub const PACKET_CAPACITY: usize = 256;

/// Bytes taken by the frame header: marker (3), seq (2), ack_num (2),
/// ack_field (4).
pub const HEADER_LEN: usize = 11;

/// The most payload bytes a frame can carry.
pub const MAX_PAYLOAD_LEN: usize = 245;

/// The marker that opens every protocol frame: the bytes of "012".
pub open spec fn spec_marker() -> Seq<u8> {
    seq![48u8, 49u8, 50u8]
}

/// The marker as a fresh vector.
pub fn marker_bytes() -> (r: Vec<u8>)
    ensures
        r@ == spec_marker(),
{
    let mut r: Vec<u8> = Vec::new();
    r.push(48);
    r.push(49);
    r.push(50);
    proof {
        assert(r@ =~= spec_marker());
    }
    r
}

/// A 16-bit value in big-endian byte order.
pub open spec fn spec_be16(n: u16) -> Seq<u8> {
    seq![(n / 256) as u8, (n % 256) as u8]
}

/// A 32-bit value in big-endian byte order.
pub open spec fn spec_be32(n: u32) -> Seq<u8> {
    seq![
        (n / 0x1000000) as u8,
        ((n / 0x10000) % 256) as u8,
        ((n / 256) % 256) as u8,
        (n % 256) as u8,
    ]
}

/// The 16-bit value written big-endian as `b0`, `b1`.
pub open spec fn spec_val16(b0: u8, b1: u8) -> u16 {
    (b0 * 256 + b1) as u16
}

/// The 32-bit value written big-endian as `b0` .. `b3`.
pub open spec fn spec_val32(b0: u8, b1: u8, b2: u8, b3: u8) -> u32 {
    (b0 * 0x1000000 + b1 * 0x10000 + b2 * 256 + b3) as u32
}

/// Relies on byteorder's `BigEndian::write_u16`: it stores `n` into two
/// bytes, most significant first.
#[verifier::external_body]
fn be16_bytes(n: u16) -> (r: Vec<u8>)
    ensures
        r@ == spec_be16(n),
{
    let mut buf = [0u8; 2];
    <byteorder::BigEndian as byteorder::ByteOrder>::write_u16(&mut buf, n);
    buf.to_vec()
}

/// Relies on byteorder's `BigEndian::write_u32`: it stores `n` into four
/// bytes, most significant first.
#[verifier::external_body]
fn be32_bytes(n: u32) -> (r: Vec<u8>)
    ensures
        r@ == spec_be32(n),
{
    let mut buf = [0u8; 4];
    <byteorder::BigEndian as byteorder::ByteOrder>::write_u32(&mut buf, n);
    buf.to_vec()
}

/// Relies on byteorder's `BigEndian::read_u16`: it reads the first two bytes
/// of the given slice as one big-endian value.
#[verifier::external_body]
fn read_be16(v: &Vec<u8>, off: usize) -> (r: u16)
    requires
        off + 2 <= v@.len(),
    ensures
        r == spec_val16(v@[off as int], v@[off as int + 1]),
{
    <byteorder::BigEndian as byteorder::ByteOrder>::read_u16(&v[off..off + 2])
}

/// Relies on byteorder's `BigEndian::read_u32`: it reads the first four bytes
/// of the given slice as one big-endian value.
#[verifier::external_body]
fn read_be32(v: &Vec<u8>, off: usize) -> (r: u32)
    requires
        off + 4 <= v@.len(),
    ensures
        r == spec_val32(
            v@[off as int],
            v@[off as int + 1],
            v@[off as int + 2],
            v@[off as int + 3],
        ),
{
    <byteorder::BigEndian as byteorder::ByteOrder>::read_u32(&v[off..off + 4])
}

/// Reading back the two big-endian bytes of `n` yields `n`.
pub proof fn lemma_be16_round_trip(n: u16)
    ensures
        spec_val16(spec_be16(n)[0], spec_be16(n)[1]) == n,
{
    let b0 = (n / 256) as u8;
    let b1 = (n % 256) as u8;
    assert(b0 == n / 256 && b1 == n % 256 ==> b0 * 256 + b1 == n) by (bit_vector);
}

/// Reading back the four big-endian bytes of `n` yields `n`.
pub proof fn lemma_be32_round_trip(n: u32)
    ensures
        spec_val32(spec_be32(n)[0], spec_be32(n)[1], spec_be32(n)[2], spec_be32(n)[3]) == n,
{
    let b0 = (n / 0x1000000) as u8;
    let b1 = ((n / 0x10000) % 256) as u8;
    let b2 = ((n / 256) % 256) as u8;
    let b3 = (n % 256) as u8;
    assert(b0 == n / 0x1000000 && b1 == (n / 0x10000) % 256 && b2 == (n / 256) % 256 && b3 == n
        % 256 ==> b0 * 0x1000000 + b1 * 0x10000 + b2 * 256 + b3 == n) by (bit_vector);
}

/// The full wire image of a frame.
pub open spec fn spec_encode(f: SequencedAckedSocketPayloadV) -> Seq<u8> {
    spec_marker() + spec_be16(f.seq_num) + spec_be16(f.ack_num) + spec_be32(f.ack_field) + f.bytes
}

/// What decoding a wire image yields: nothing for frames without the marker
/// or too short to carry the header, else the header fields and the payload.
pub open spec fn spec_decode(addr: crate::types::PeerAddr, b: Seq<u8>) -> Option<
    SequencedAckedSocketPayloadV,
> {
    if b.len() >= HEADER_LEN && b.subrange(0, 3) == spec_marker() {
        Some(
            SequencedAckedSocketPayloadV {
                addr,
                seq_num: spec_val16(b[3], b[4]),
                ack_num: spec_val16(b[5], b[6]),
                ack_field: spec_val32(b[7], b[8], b[9], b[10]),
                bytes: b.skip(HEADER_LEN as int),
            },
        )
    } else {
        None
    }
}

/// Serializes a frame for the wire. Rejects a payload that would not fit in
/// the fixed datagram capacity after the header.
pub fn serialize(payload: SequencedAckedSocketPayload) -> (r: Option<RawSocketPayload>)
    ensures
        r is Some <==> payload@.bytes.len() <= MAX_PAYLOAD_LEN,
        r matches Some(raw) ==> raw@.addr == payload@.addr && raw@.bytes == spec_encode(payload@),
{
    if payload.bytes.len() > MAX_PAYLOAD_LEN {
        return None;
    }
    let mut bytes = marker_bytes();
    let mut seq_b = be16_bytes(payload.seq_num);
    let mut ack_b = be16_bytes(payload.ack_num);
    let mut field_b = be32_bytes(payload.ack_field);
    let mut body = payload.bytes;
    bytes.append(&mut seq_b);
    bytes.append(&mut ack_b);
    bytes.append(&mut field_b);
    bytes.append(&mut body);
    Some(RawSocketPayload { addr: payload.addr, bytes })
}

/// Passes a raw datagram through only when it opens with the protocol
/// marker; anything else is unrelated traffic.
pub fn starts_with_marker(payload: RawSocketPayload) -> (r: Option<RawSocketPayload>)
    ensures
        r is Some <==> payload@.bytes.len() >= 3 && payload@.bytes.subrange(0, 3)
            == spec_marker(),
        r matches Some(p) ==> p@ == payload@,
{
    if payload.bytes.len() < 3 {
        return None;
    }
    if payload.bytes[0] == 48 && payload.bytes[1] == 49 && payload.bytes[2] == 50 {
        proof {
            assert(payload@.bytes.subrange(0, 3) =~= spec_marker());
        }
        Some(payload)
    } else {
        proof {
            assert(payload@.bytes.subrange(0, 3) != spec_marker()) by {
                if payload@.bytes.subrange(0, 3) == spec_marker() {
                    assert(payload@.bytes.subrange(0, 3)[0] == 48u8);
                    assert(payload@.bytes.subrange(0, 3)[1] == 49u8);
                    assert(payload@.bytes.subrange(0, 3)[2] == 50u8);
                }
            }
        }
        None
    }
}

/// Drops the leading marker bytes.
pub fn strip_marker(payload: RawSocketPayload) -> (r: SocketPayload)
    requires
        payload@.bytes.len() >= 3,
    ensures
        r@.addr == payload@.addr,
        r@.bytes == payload@.bytes.skip(3),
{
    let bytes = subrange_vec(&payload.bytes, 3, payload.bytes.len());
    proof {
        assert(payload@.bytes.subrange(3, payload@.bytes.len() as int) =~= payload@.bytes.skip(3));
    }
    SocketPayload { addr: payload.addr, bytes }
}

/// Reads the sequence-number field and drops it from the payload.
pub fn strip_sequence(payload: SocketPayload) -> (r: SequencedSocketPayload)
    requires
        payload@.bytes.len() >= 2,
    ensures
        r@.addr == payload@.addr,
        r@.seq_num == spec_val16(payload@.bytes[0], payload@.bytes[1]),
        r@.bytes == payload@.bytes.skip(2),
{
    let seq_num = read_be16(&payload.bytes, 0);
    let bytes = subrange_vec(&payload.bytes, 2, payload.bytes.len());
    proof {
        assert(payload@.bytes.subrange(2, payload@.bytes.len() as int) =~= payload@.bytes.skip(2));
    }
    SequencedSocketPayload { addr: payload.addr, seq_num, bytes }
}

/// Reads the two ack fields and drops them from the payload.
pub fn strip_acks(payload: SequencedSocketPayload) -> (r: SequencedAckedSocketPayload)
    requires
        payload@.bytes.len() >= 6,
    ensures
        r@.addr == payload@.addr,
        r@.seq_num == payload@.seq_num,
        r@.ack_num == spec_val16(payload@.bytes[0], payload@.bytes[1]),
        r@.ack_field == spec_val32(
            payload@.bytes[2],
            payload@.bytes[3],
            payload@.bytes[4],
            payload@.bytes[5],
        ),
        r@.bytes == payload@.bytes.skip(6),
{
    let ack_num = read_be16(&payload.bytes, 0);
    let ack_field = read_be32(&payload.bytes, 2);
    let bytes = subrange_vec(&payload.bytes, 6, payload.bytes.len());
    proof {
        assert(payload@.bytes.subrange(6, payload@.bytes.len() as int) =~= payload@.bytes.skip(6));
    }
    SequencedAckedSocketPayload {
        addr: payload.addr,
        seq_num: payload.seq_num,
        ack_num,
        ack_field,
        bytes,
    }
}

/// Decodes a raw datagram: nothing for foreign or truncated traffic, else
/// the frame it carries.
pub fn decode(payload: RawSocketPayload) -> (r: Option<SequencedAckedSocketPayload>)
    ensures
        r matches Some(p) ==> spec_decode(payload@.addr, payload@.bytes) == Some(p@),
        r is None ==> spec_decode(payload@.addr, payload@.bytes) is None,
{
    if payload.bytes.len() < HEADER_LEN {
        return None;
    }
    let ghost orig = payload@.bytes;
    match starts_with_marker(payload) {
        None => None,
        Some(marked) => {
            let stripped = strip_marker(marked);
            let sequenced = strip_sequence(stripped);
            let frame = strip_acks(sequenced);
            proof {
                assert(orig.skip(3).skip(2) =~= orig.skip(5));
                assert(orig.skip(5).skip(6) =~= orig.skip(11));
                assert(orig.skip(3)[0] == orig[3]);
                assert(orig.skip(3)[1] == orig[4]);
                assert(orig.skip(5)[0] == orig[5]);
                assert(orig.skip(5)[1] == orig[6]);
                assert(orig.skip(5)[2] == orig[7]);
                assert(orig.skip(5)[3] == orig[8]);
                assert(orig.skip(5)[4] == orig[9]);
                assert(orig.skip(5)[5] == orig[10]);
            }
            Some(frame)
        },
    }
}

/// Round trip: decoding an encoded frame yields the frame back, whatever its
/// payload.
pub proof fn lemma_frame_round_trip(f: SequencedAckedSocketPayloadV)
    ensures
        spec_decode(f.addr, spec_encode(f)) == Some(f),
{
    let b = spec_encode(f);
    assert(b.len() == 11 + f.bytes.len());
    assert(b.subrange(0, 3) =~= spec_marker());
    assert(b[3] == spec_be16(f.seq_num)[0]);
    assert(b[4] == spec_be16(f.seq_num)[1]);
    assert(b[5] == spec_be16(f.ack_num)[0]);
    assert(b[6] == spec_be16(f.ack_num)[1]);
    assert(b[7] == spec_be32(f.ack_field)[0]);
    assert(b[8] == spec_be32(f.ack_field)[1]);
    assert(b[9] == spec_be32(f.ack_field)[2]);
    assert(b[10] == spec_be32(f.ack_field)[3]);
    lemma_be16_round_trip(f.seq_num);
    lemma_be16_round_trip(f.ack_num);
    lemma_be32_round_trip(f.ack_field);
    assert(b.skip(11) =~= f.bytes);
    assert(spec_decode(f.addr, b) == Some(f));
}

} // verus!
