use reliable_udp::acks::{drop_peer_acks, update_ack_map, update_peer_acks, AckMap, PeerAcks};
use reliable_udp::outbound::prepare_packet;
use reliable_udp::sequencer::{increment_seq_number, SeqNumMap};
use reliable_udp::types::{PeerAddr, SocketPayload};

fn peer(last: u8, port: u16) -> PeerAddr {
    PeerAddr { ip0: 127, ip1: 0, ip2: 0, ip3: last, port }
}

#[test]
fn update_ack_map_for_normal_newer() {
    // In range, sets correct flag
    let mut peer_acks = PeerAcks { ack_num: 5, ack_field: 0b101 };
    let seq_num = 10;
    update_peer_acks(seq_num, &mut peer_acks);
    assert!(peer_acks.ack_num == 10);
    assert!(peer_acks.ack_field == 0b10110000);

    // Out of range, sets ack num and empty flags
    let mut peer_acks = PeerAcks { ack_num: 5, ack_field: 0b101 };
    let seq_num = 40;
    update_peer_acks(seq_num, &mut peer_acks);
    assert!(peer_acks.ack_num == 40);
    assert!(peer_acks.ack_field == 0);
}

#[test]
fn update_ack_map_for_wraparound_newer() {
    // In range, sets correct flag
    let mut peer_acks = PeerAcks { ack_num: 65535, ack_field: 0b101 };
    let seq_num = 4;
    update_peer_acks(seq_num, &mut peer_acks);
    assert!(peer_acks.ack_num == 4);
    assert!(peer_acks.ack_field == 0b10110000);

    // Out of range, sets ack num and empty flags
    let mut peer_acks = PeerAcks { ack_num: 65535, ack_field: 0b101 };
    let seq_num = 40;
    update_peer_acks(seq_num, &mut peer_acks);
    assert!(peer_acks.ack_num == 40);
    assert!(peer_acks.ack_field == 0);
}

#[test]
fn update_ack_map_for_normal_older() {
    // In range, sets correct flag
    let mut peer_acks = PeerAcks { ack_num: 20, ack_field: 0b101 };
    let seq_num = 15;
    update_peer_acks(seq_num, &mut peer_acks);
    assert!(peer_acks.ack_num == 20);
    assert!(peer_acks.ack_field == 0b10101);

    // Out of range does nothing
    let mut peer_acks = PeerAcks { ack_num: 40, ack_field: 0b101 };
    let seq_num = 5;
    update_peer_acks(seq_num, &mut peer_acks);
    assert!(peer_acks.ack_num == 40);
    assert!(peer_acks.ack_field == 0b101);
}

#[test]
fn update_ack_map_for_wraparound_older() {
    // In range, sets correct flag
    let mut peer_acks = PeerAcks { ack_num: 5, ack_field: 0b101 };
    let seq_num = 65535;
    update_peer_acks(seq_num, &mut peer_acks);
    assert!(peer_acks.ack_num == 5);
    assert!(peer_acks.ack_field == 0b100101);

    // Out of range does nothing
    let mut peer_acks = PeerAcks { ack_num: 40, ack_field: 0b101 };
    let seq_num = 65535;
    update_peer_acks(seq_num, &mut peer_acks);
    assert!(peer_acks.ack_num == 40);
    assert!(peer_acks.ack_field == 0b101);
}

#[test]
fn duplicate_seq_changes_nothing() {
    let mut peer_acks = PeerAcks { ack_num: 7, ack_field: 0b11 };
    update_peer_acks(7, &mut peer_acks);
    assert!(peer_acks.ack_num == 7);
    assert!(peer_acks.ack_field == 0b11);
}

#[test]
fn ack_map_tracks_each_sender_separately() {
    let a = peer(1, 1000);
    let b = peer(2, 2000);
    let mut map = AckMap::new();
    update_ack_map(a, 5, &mut map);
    update_ack_map(b, 9, &mut map);
    update_ack_map(a, 6, &mut map);
    let acks_a = map.stamp_for(a);
    assert!(acks_a.ack_num == 6);
    // From the all-zero start, observing 5 marks bit 4 (standing for 0) and
    // observing 6 shifts that up and marks bit 0 (standing for 5).
    assert!(acks_a.ack_field == 0b100001);
    let acks_b = map.stamp_for(b);
    assert!(acks_b.ack_num == 9);
    assert!(acks_b.ack_field == 0b100000000);
}

#[test]
fn stamp_for_unknown_peer_is_zero() {
    let map = AckMap::new();
    let acks = map.stamp_for(peer(3, 3000));
    assert!(acks.ack_num == 0);
    assert!(acks.ack_field == 0);
}

#[test]
fn sequence_numbers_start_at_one_and_count_up() {
    let a = peer(1, 1000);
    let b = peer(2, 2000);
    let mut map = SeqNumMap::new();
    assert!(increment_seq_number(&mut map, a) == 1);
    assert!(increment_seq_number(&mut map, a) == 2);
    assert!(increment_seq_number(&mut map, b) == 1);
    assert!(increment_seq_number(&mut map, a) == 3);
}

#[test]
fn prepare_packet_stamps_sequence_and_ack_state() {
    let dest = peer(9, 9000);
    let mut seq_map = SeqNumMap::new();
    let mut ack_map = AckMap::new();
    update_ack_map(dest, 5, &mut ack_map);
    update_ack_map(dest, 6, &mut ack_map);

    let payload = SocketPayload { addr: dest, bytes: vec![2, 104] };
    let packet = prepare_packet(payload, &mut seq_map, &ack_map);
    assert!(packet.addr == dest);
    assert!(packet.seq_num == 1);
    assert!(packet.ack_num == 6);
    assert!(packet.ack_field == 0b100001);
    assert!(packet.bytes == vec![2, 104]);

    let payload = SocketPayload { addr: dest, bytes: vec![1] };
    let packet = prepare_packet(payload, &mut seq_map, &ack_map);
    assert!(packet.seq_num == 2);
}

#[test]
fn sequence_numbers_wrap_around() {
    let a = peer(1, 1000);
    let mut map = SeqNumMap::new();
    map.entries.push((a, 65535));
    assert!(increment_seq_number(&mut map, a) == 0);
    assert!(increment_seq_number(&mut map, a) == 1);
}

#[test]
fn dropping_a_peer_forgets_its_ack_state_only() {
    let a = peer(1, 1000);
    let b = peer(2, 2000);
    let mut map = AckMap::new();
    update_ack_map(a, 5, &mut map);
    update_ack_map(b, 9, &mut map);
    drop_peer_acks(a, &mut map);
    let acks_a = map.stamp_for(a);
    assert!(acks_a.ack_num == 0 && acks_a.ack_field == 0);
    let acks_b = map.stamp_for(b);
    assert!(acks_b.ack_num == 9);
    drop_peer_acks(a, &mut map);
    assert!(map.stamp_for(b).ack_num == 9);
}
