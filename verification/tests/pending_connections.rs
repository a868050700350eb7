use reliable_udp::connections::{
    cull_connections, handle_connections, ConnectionTable, CONNECTION_TIMEOUT_MS,
};
use reliable_udp::pending::{
    delete_acked_packets, on_send, sweep, PendingTable, PACKET_DROP_TIME_MS,
};
use reliable_udp::types::{PeerAddr, SequencedAckedSocketPayload, SocketPayload};

fn peer(last: u8, port: u16) -> PeerAddr {
    PeerAddr { ip0: 192, ip1: 168, ip2: 0, ip3: last, port }
}

fn frame(addr: PeerAddr, seq_num: u16, body: Vec<u8>) -> SequencedAckedSocketPayload {
    SequencedAckedSocketPayload { addr, seq_num, ack_num: 0, ack_field: 0, bytes: body }
}

#[test]
fn unacked_send_is_returned_once_after_the_drop_timeout() {
    let a = peer(1, 1000);
    let mut pending = PendingTable::new();
    let t0: u64 = 10_000;
    on_send(frame(a, 1, vec![42]), t0, &mut pending);
    assert_eq!(pending.len(), 1);

    // Not yet expired within the window.
    let early = sweep(&mut pending, t0 + PACKET_DROP_TIME_MS);
    assert!(early.is_empty());
    assert_eq!(pending.len(), 1);

    // Expired one second past the timeout: returned exactly once.
    let dropped = sweep(&mut pending, t0 + 6000);
    assert_eq!(dropped.len(), 1);
    assert_eq!(dropped[0].addr, a);
    assert_eq!(dropped[0].bytes, vec![42]);
    assert_eq!(pending.len(), 0);

    // And never again.
    let again = sweep(&mut pending, t0 + 20_000);
    assert!(again.is_empty());
}

#[test]
fn resend_replaces_the_pending_timer() {
    let a = peer(1, 1000);
    let mut pending = PendingTable::new();
    on_send(frame(a, 7, vec![1]), 0, &mut pending);
    on_send(frame(a, 7, vec![1]), 4000, &mut pending);
    assert_eq!(pending.len(), 1);
    // The entry now times from 4000, so it survives a sweep at 5500.
    let dropped = sweep(&mut pending, 5500);
    assert!(dropped.is_empty());
    assert_eq!(pending.len(), 1);
}

#[test]
fn ack_num_clears_the_matching_pending_send() {
    let a = peer(1, 1000);
    let b = peer(2, 2000);
    let mut pending = PendingTable::new();
    on_send(frame(a, 3, vec![1]), 0, &mut pending);
    on_send(frame(a, 4, vec![2]), 0, &mut pending);
    on_send(frame(b, 3, vec![3]), 0, &mut pending);

    // An inbound frame from `a` acknowledging seq 3 by ack_num.
    let inbound = SequencedAckedSocketPayload {
        addr: a,
        seq_num: 9,
        ack_num: 3,
        ack_field: 0,
        bytes: vec![],
    };
    delete_acked_packets(&inbound, &mut pending);
    assert_eq!(pending.len(), 2);
    assert!(pending.entries.iter().all(|e| e.0 != (a, 3)));
    assert!(pending.entries.iter().any(|e| e.0 == (a, 4)));
    assert!(pending.entries.iter().any(|e| e.0 == (b, 3)));
}

#[test]
fn ack_field_bits_clear_earlier_pending_sends() {
    let a = peer(1, 1000);
    let mut pending = PendingTable::new();
    on_send(frame(a, 8, vec![1]), 0, &mut pending);
    on_send(frame(a, 9, vec![2]), 0, &mut pending);
    on_send(frame(a, 10, vec![3]), 0, &mut pending);

    // ack_num = 10 and bit 1 set: acknowledges 10 and 10 - 2 = 8, not 9.
    let inbound = SequencedAckedSocketPayload {
        addr: a,
        seq_num: 1,
        ack_num: 10,
        ack_field: 0b10,
        bytes: vec![],
    };
    delete_acked_packets(&inbound, &mut pending);
    assert_eq!(pending.len(), 1);
    assert!(pending.entries.iter().any(|e| e.0 == (a, 9)));
}

#[test]
fn ack_field_wraps_below_zero() {
    let a = peer(1, 1000);
    let mut pending = PendingTable::new();
    on_send(frame(a, 65535, vec![1]), 0, &mut pending);
    on_send(frame(a, 0, vec![2]), 0, &mut pending);

    // ack_num = 0, bit 0 set: acknowledges 0 and 0 - 1 = 65535 after wrap.
    let inbound = SequencedAckedSocketPayload {
        addr: a,
        seq_num: 1,
        ack_num: 0,
        ack_field: 0b1,
        bytes: vec![],
    };
    delete_acked_packets(&inbound, &mut pending);
    assert_eq!(pending.len(), 0);
}

#[test]
fn acks_from_another_peer_clear_nothing() {
    let a = peer(1, 1000);
    let b = peer(2, 2000);
    let mut pending = PendingTable::new();
    on_send(frame(a, 3, vec![1]), 0, &mut pending);
    let inbound = SequencedAckedSocketPayload {
        addr: b,
        seq_num: 1,
        ack_num: 3,
        ack_field: 0xFFFF_FFFF,
        bytes: vec![],
    };
    delete_acked_packets(&inbound, &mut pending);
    assert_eq!(pending.len(), 1);
}

#[test]
fn silent_peer_is_culled_and_fresh_peer_stays() {
    let quiet = peer(1, 1000);
    let busy = peer(2, 2000);
    let mut table = ConnectionTable::new();
    handle_connections(&SocketPayload { addr: quiet, bytes: vec![1] }, &mut table, 0);
    handle_connections(&SocketPayload { addr: busy, bytes: vec![1] }, &mut table, 0);

    // Both within the window: nothing culled.
    let culled = cull_connections(&mut table, CONNECTION_TIMEOUT_MS);
    assert!(culled.is_empty());

    // `busy` is touched again; `quiet` is not.
    handle_connections(&SocketPayload { addr: busy, bytes: vec![1] }, &mut table, 4000);
    let culled = cull_connections(&mut table, 6000);
    assert_eq!(culled, vec![quiet]);

    let peers = table.known_peers();
    assert!(!peers.contains(&quiet));
    assert!(peers.contains(&busy));
}

#[test]
fn touch_refreshes_the_liveness_window() {
    let a = peer(1, 1000);
    let mut table = ConnectionTable::new();
    handle_connections(&SocketPayload { addr: a, bytes: vec![1] }, &mut table, 0);
    handle_connections(&SocketPayload { addr: a, bytes: vec![1] }, &mut table, 5000);
    let culled = cull_connections(&mut table, 9000);
    assert!(culled.is_empty());
    assert!(table.known_peers().contains(&a));
}
