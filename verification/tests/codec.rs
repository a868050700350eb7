use reliable_udp::codec::{
    decode, serialize, starts_with_marker, strip_acks, strip_marker, strip_sequence,
    HEADER_LEN, MAX_PAYLOAD_LEN, PACKET_CAPACITY,
};
use reliable_udp::types::{PeerAddr, RawSocketPayload, SequencedAckedSocketPayload};

fn addr() -> PeerAddr {
    PeerAddr { ip0: 10, ip1: 0, ip2: 0, ip3: 1, port: 4444 }
}

#[test]
fn serialize_writes_marker_and_big_endian_fields() {
    let frame = SequencedAckedSocketPayload {
        addr: addr(),
        seq_num: 0x0102,
        ack_num: 0xA0B0,
        ack_field: 0x01020304,
        bytes: vec![0xDE, 0xAD],
    };
    let raw = serialize(frame).unwrap();
    assert_eq!(
        raw.bytes,
        vec![
            b'0', b'1', b'2', // marker
            0x01, 0x02, // seq
            0xA0, 0xB0, // ack_num
            0x01, 0x02, 0x03, 0x04, // ack_field
            0xDE, 0xAD, // payload
        ]
    );
    assert_eq!(raw.addr, addr());
}

#[test]
fn round_trip_restores_the_frame() {
    let frame = SequencedAckedSocketPayload {
        addr: addr(),
        seq_num: 65535,
        ack_num: 0,
        ack_field: 0xFFFF_FFFF,
        bytes: vec![1, 2, 3, 4, 5],
    };
    let raw = serialize(frame.clone()).unwrap();
    let back = decode(raw).unwrap();
    assert_eq!(back.addr, frame.addr);
    assert_eq!(back.seq_num, frame.seq_num);
    assert_eq!(back.ack_num, frame.ack_num);
    assert_eq!(back.ack_field, frame.ack_field);
    assert_eq!(back.bytes, frame.bytes);
}

#[test]
fn serialize_rejects_oversized_payloads() {
    let fits = SequencedAckedSocketPayload {
        addr: addr(),
        seq_num: 1,
        ack_num: 0,
        ack_field: 0,
        bytes: vec![0; MAX_PAYLOAD_LEN],
    };
    let raw = serialize(fits).unwrap();
    assert_eq!(raw.bytes.len(), PACKET_CAPACITY);

    let too_big = SequencedAckedSocketPayload {
        addr: addr(),
        seq_num: 1,
        ack_num: 0,
        ack_field: 0,
        bytes: vec![0; MAX_PAYLOAD_LEN + 1],
    };
    assert!(serialize(too_big).is_none());
}

#[test]
fn decode_discards_foreign_and_truncated_traffic() {
    let wrong_marker = RawSocketPayload { addr: addr(), bytes: vec![b'x', b'1', b'2', 0, 0, 0, 0, 0, 0, 0, 0] };
    assert!(decode(wrong_marker).is_none());

    let too_short = RawSocketPayload { addr: addr(), bytes: vec![b'0', b'1', b'2', 0, 0] };
    assert!(decode(too_short).is_none());

    let empty = RawSocketPayload { addr: addr(), bytes: vec![] };
    assert!(decode(empty).is_none());

    let bare_header = RawSocketPayload {
        addr: addr(),
        bytes: vec![b'0', b'1', b'2', 0, 9, 0, 3, 0, 0, 0, 5],
    };
    assert_eq!(bare_header.bytes.len(), HEADER_LEN);
    let frame = decode(bare_header).unwrap();
    assert_eq!(frame.seq_num, 9);
    assert_eq!(frame.ack_num, 3);
    assert_eq!(frame.ack_field, 5);
    assert!(frame.bytes.is_empty());
}

#[test]
fn strip_pipeline_reads_the_header_in_order() {
    let raw = RawSocketPayload {
        addr: addr(),
        bytes: vec![b'0', b'1', b'2', 0x10, 0x20, 0x30, 0x40, 1, 2, 3, 4, 7, 8],
    };
    let marked = starts_with_marker(raw).unwrap();
    let stripped = strip_marker(marked);
    let sequenced = strip_sequence(stripped);
    assert_eq!(sequenced.seq_num, 0x1020);
    let frame = strip_acks(sequenced);
    assert_eq!(frame.ack_num, 0x3040);
    assert_eq!(frame.ack_field, 0x01020304);
    assert_eq!(frame.bytes, vec![7, 8]);
}

#[test]
fn marker_check_rejects_near_misses() {
    let raw = RawSocketPayload { addr: addr(), bytes: vec![b'0', b'1', b'3', 0, 0, 0, 0, 0, 0, 0, 0] };
    assert!(starts_with_marker(raw).is_none());
    let short = RawSocketPayload { addr: addr(), bytes: vec![b'0', b'1'] };
    assert!(starts_with_marker(short).is_none());
}
