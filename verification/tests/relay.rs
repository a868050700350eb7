use reliable_udp::connections::{handle_connections, ConnectionTable, ServerState};
use reliable_udp::dispatch::{
    handle_payload, identify_payload, keepalive_packets, reply_all, stringify_body,
};
use reliable_udp::str_ops::{default_string, net_mode_from_string, translate_localhost, LOCAL_IP};
use reliable_udp::types::{
    byte_to_message_type, message_type_to_byte, MessageType, NetMode, PeerAddr, SocketPayload,
};

fn peer(last: u8, port: u16) -> PeerAddr {
    PeerAddr { ip0: 10, ip1: 1, ip2: 2, ip3: last, port }
}

fn state_with(peers: &[PeerAddr]) -> ServerState {
    let mut users = ConnectionTable::new();
    for p in peers {
        handle_connections(&SocketPayload { addr: *p, bytes: vec![1] }, &mut users, 0);
    }
    ServerState { users }
}

#[test]
fn message_type_bytes_round_trip() {
    assert_eq!(message_type_to_byte(MessageType::KeepAlive), 1);
    assert_eq!(message_type_to_byte(MessageType::Message), 2);
    assert!(matches!(byte_to_message_type(1), Some(MessageType::KeepAlive)));
    assert!(matches!(byte_to_message_type(2), Some(MessageType::Message)));
    assert!(byte_to_message_type(0).is_none());
    assert!(byte_to_message_type(3).is_none());
    assert!(byte_to_message_type(255).is_none());
}

#[test]
fn identify_payload_strips_the_type_byte() {
    let a = peer(1, 1000);
    let p = identify_payload(SocketPayload { addr: a, bytes: vec![2, 104, 105] }).unwrap();
    assert_eq!(p.addr, a);
    assert!(matches!(p.msg_type, MessageType::Message));
    assert_eq!(p.bytes, vec![104, 105]);

    let k = identify_payload(SocketPayload { addr: a, bytes: vec![1] }).unwrap();
    assert!(matches!(k.msg_type, MessageType::KeepAlive));
    assert!(k.bytes.is_empty());
}

#[test]
fn identify_payload_discards_unknown_or_empty() {
    let a = peer(1, 1000);
    assert!(identify_payload(SocketPayload { addr: a, bytes: vec![9, 1, 2] }).is_none());
    assert!(identify_payload(SocketPayload { addr: a, bytes: vec![] }).is_none());
}

#[test]
fn message_is_relayed_to_everyone_else_and_origin_gets_a_keepalive() {
    let a = PeerAddr { ip0: 10, ip1: 1, ip2: 2, ip3: 3, port: 4000 };
    let b = peer(4, 5000);
    let c = peer(5, 6000);
    let state = state_with(&[a, b, c]);

    let packets = reply_all(&state, &a, &vec![104, 105]);
    assert_eq!(packets.len(), 3);

    let expected_relay: Vec<u8> = [
        &[2u8][..],
        b"10.1.2.3:4000",
        b": ",
        &[104, 105][..],
    ]
    .concat();

    assert_eq!(packets[0].addr, a);
    assert_eq!(packets[0].bytes, vec![1]);
    assert_eq!(packets[1].addr, b);
    assert_eq!(packets[1].bytes, expected_relay);
    assert_eq!(packets[2].addr, c);
    assert_eq!(packets[2].bytes, expected_relay);
}

#[test]
fn handle_payload_relays_messages_and_ignores_keepalives() {
    let a = peer(3, 4000);
    let b = peer(4, 5000);
    let state = state_with(&[a, b]);

    let msg = identify_payload(SocketPayload { addr: a, bytes: vec![2, 120] }).unwrap();
    let packets = handle_payload(&state, msg);
    assert_eq!(packets.len(), 2);

    let keepalive = identify_payload(SocketPayload { addr: a, bytes: vec![1] }).unwrap();
    let packets = handle_payload(&state, keepalive);
    assert!(packets.is_empty());
}

#[test]
fn heartbeat_sends_a_keepalive_to_every_known_peer() {
    let a = peer(1, 1000);
    let b = peer(2, 2000);
    let state = state_with(&[a, b]);
    let packets = keepalive_packets(&state.users);
    assert_eq!(packets.len(), 2);
    assert_eq!(packets[0].addr, a);
    assert_eq!(packets[0].bytes, vec![1]);
    assert_eq!(packets[1].addr, b);
    assert_eq!(packets[1].bytes, vec![1]);
}

#[test]
fn stringify_body_trims_nul_padding() {
    let s = stringify_body(vec![104, 101, 108, 108, 111, 0, 0, 0]).unwrap();
    assert_eq!(s, "hello");
    let s = stringify_body(vec![0, 0, 104, 105]).unwrap();
    assert_eq!(s, "hi");
    let s = stringify_body(vec![0, 0]).unwrap();
    assert_eq!(s, "");
}

#[test]
fn stringify_body_rejects_invalid_utf8() {
    assert!(stringify_body(vec![0xFF, 0xFE]).is_none());
}

#[test]
fn address_text_matches_its_parts() {
    let a = PeerAddr { ip0: 192, ip1: 168, ip2: 0, ip3: 17, port: 65535 };
    assert_eq!(a.text_bytes(), b"192.168.0.17:65535".to_vec());
    let b = PeerAddr { ip0: 0, ip1: 0, ip2: 0, ip3: 0, port: 0 };
    assert_eq!(b.text_bytes(), b"0.0.0.0:0".to_vec());
}

#[test]
fn default_string_fills_empty_answers() {
    assert_eq!(default_string("", "5555"), "5555");
    assert_eq!(default_string("4444", "5555"), "4444");
}

#[test]
fn translate_localhost_substitutes_the_local_address() {
    assert_eq!(translate_localhost("localhost"), LOCAL_IP);
    assert_eq!(translate_localhost("10.0.0.1"), "10.0.0.1");
}

#[test]
fn net_mode_ignores_letter_case() {
    assert!(matches!(net_mode_from_string("server"), NetMode::Server));
    assert!(matches!(net_mode_from_string("SERVER"), NetMode::Server));
    assert!(matches!(net_mode_from_string("Server"), NetMode::Server));
    assert!(matches!(net_mode_from_string("client"), NetMode::Client));
    assert!(matches!(net_mode_from_string("anything"), NetMode::Client));
    assert!(matches!(net_mode_from_string(""), NetMode::Client));
}
