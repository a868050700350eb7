//! The message dispatcher: classifying inbound payloads by their leading
//! type byte, the relay policy for chat messages, the periodic keep-alive,
//! and turning message bodies back into text.

use vstd::prelude::*;
use vstd::utf8::{decode_utf8, valid_utf8};

use crate::byte_ops::{append_bytes, copy_bytes, subrange_vec};
use crate::connections::{Connection, ConnectionTable, ServerState};
use crate::types::{
    byte_to_message_type, payload_views, spec_addr_text, spec_byte_message_type, IdentifiedPayload,
    MessageType, PeerAddr, SocketPayload, SocketPayloadV,
};

verus! {

/// Recognizes the leading type byte of an inbound payload and strips it.
/// A payload that is empty or opens with an unknown byte yields nothing and
/// is to be discarded.
pub fn identify_payload(payload: SocketPayload) -> (r: Option<IdentifiedPayload>)
    ensures
        r is Some <==> payload@.bytes.len() > 0 && spec_byte_message_type(payload@.bytes[0])
            is Some,
        r matches Some(p) ==> p@.addr == payload@.addr && Some(p@.msg_type)
            == spec_byte_message_type(payload@.bytes[0]) && p@.bytes == payload@.bytes.skip(1),
{
    if payload.bytes.len() == 0 {
        return None;
    }
    match byte_to_message_type(payload.bytes[0]) {
        None => None,
        Some(msg_type) => {
            let bytes = subrange_vec(&payload.bytes, 1, payload.bytes.len());
            proof {
                assert(payload@.bytes.subrange(1, payload@.bytes.len() as int) =~= payload@
                    .bytes.skip(1));
            }
            Some(IdentifiedPayload { addr: payload.addr, msg_type, bytes })
        },
    }
}

/// The one-byte body of a keep-alive frame.
pub open spec fn spec_keepalive_bytes() -> Seq<u8> {
    seq![1u8]
}

/// The body of a relayed chat message: the message type byte, the origin's
/// address as text, a colon and a space, then the original body.
pub open spec fn spec_relay_bytes(origin: PeerAddr, body: Seq<u8>) -> Seq<u8> {
    seq![2u8] + spec_addr_text(origin) + seq![58u8, 32u8] + body
}

/// What the relay sends when a chat message from `origin` arrives: every
/// other known peer gets the prefixed message, and the origin itself gets a
/// keep-alive in acknowledgment.
pub open spec fn spec_replies(
    peers: Seq<(PeerAddr, Connection)>,
    origin: PeerAddr,
    body: Seq<u8>,
) -> Seq<SocketPayloadV> {
    Seq::new(
        peers.len(),
        |i: int|
            if peers[i].0 == origin {
                SocketPayloadV { addr: peers[i].0, bytes: spec_keepalive_bytes() }
            } else {
                SocketPayloadV { addr: peers[i].0, bytes: spec_relay_bytes(origin, body) }
            },
    )
}

/// The packets that deliver a chat message from `origin` to every known
/// peer: exactly one prefixed copy per other peer, and one keep-alive back
/// to the origin.
pub fn reply_all(server_state: &ServerState, origin: &PeerAddr, payload_bytes: &Vec<u8>) -> (r:
    Vec<SocketPayload>)
    ensures
        payload_views(r@) == spec_replies(server_state.users@, *origin, payload_bytes@),
{
    let mut relay: Vec<u8> = Vec::new();
    relay.push(2);
    let origin_text = origin.text_bytes();
    append_bytes(&mut relay, &origin_text);
    relay.push(58);
    relay.push(32);
    append_bytes(&mut relay, payload_bytes);
    proof {
        assert(relay@ =~= spec_relay_bytes(*origin, payload_bytes@));
    }
    let mut r: Vec<SocketPayload> = Vec::new();
    let mut i: usize = 0;
    let n = server_state.users.entries.len();
    while i < n
        invariant
            n == server_state.users@.len(),
            i <= n,
            r@.len() == i,
            relay@ == spec_relay_bytes(*origin, payload_bytes@),
            forall|k: int|
                0 <= k < i ==> (#[trigger] r@[k])@ == spec_replies(
                    server_state.users@,
                    *origin,
                    payload_bytes@,
                )[k],
        decreases n - i,
    {
        let peer = server_state.users.entries[i].0;
        if peer == *origin {
            let mut keepalive: Vec<u8> = Vec::new();
            keepalive.push(1);
            proof {
                assert(keepalive@ =~= spec_keepalive_bytes());
            }
            r.push(SocketPayload { addr: peer, bytes: keepalive });
        } else {
            r.push(SocketPayload { addr: peer, bytes: copy_bytes(&relay) });
        }
        i = i + 1;
    }
    proof {
        assert(payload_views(r@) =~= spec_replies(server_state.users@, *origin, payload_bytes@));
    }
    r
}

/// The packets an identified payload calls for: a chat message is relayed to
/// everyone, a keep-alive calls for nothing beyond the liveness refresh its
/// arrival already caused.
pub fn handle_payload(server_state: &ServerState, payload: IdentifiedPayload) -> (r: Vec<
    SocketPayload,
>)
    ensures
        payload.msg_type == MessageType::Message ==> payload_views(r@) == spec_replies(
            server_state.users@,
            payload@.addr,
            payload@.bytes,
        ),
        payload.msg_type == MessageType::KeepAlive ==> r@.len() == 0,
{
    match payload.msg_type {
        MessageType::Message => reply_all(server_state, &payload.addr, &payload.bytes),
        MessageType::KeepAlive => Vec::new(),
    }
}

/// One keep-alive packet for every known peer: the heartbeat that keeps
/// connection records alive across idle periods.
pub fn keepalive_packets(connections: &ConnectionTable) -> (r: Vec<SocketPayload>)
    ensures
        payload_views(r@) == Seq::new(
            connections@.len(),
            |i: int| SocketPayloadV { addr: connections@[i].0, bytes: spec_keepalive_bytes() },
        ),
{
    let mut r: Vec<SocketPayload> = Vec::new();
    let mut i: usize = 0;
    let n = connections.entries.len();
    while i < n
        invariant
            n == connections@.len(),
            i <= n,
            r@.len() == i,
            forall|k: int|
                0 <= k < i ==> (#[trigger] r@[k])@ == (SocketPayloadV {
                    addr: connections@[k].0,
                    bytes: spec_keepalive_bytes(),
                }),
        decreases n - i,
    {
        let mut keepalive: Vec<u8> = Vec::new();
        keepalive.push(1);
        proof {
            assert(keepalive@ =~= spec_keepalive_bytes());
        }
        r.push(SocketPayload { addr: connections.entries[i].0, bytes: keepalive });
        i = i + 1;
    }
    proof {
        assert(payload_views(r@) =~= Seq::new(
            connections@.len(),
            |i: int| SocketPayloadV { addr: connections@[i].0, bytes: spec_keepalive_bytes() },
        ));
    }
    r
}

/// `s` with its leading zero bytes dropped.
pub open spec fn spec_trim_front(s: Seq<u8>) -> Seq<u8>
    decreases s.len(),
{
    if s.len() > 0 && s[0] == 0 {
        spec_trim_front(s.skip(1))
    } else {
        s
    }
}

/// `s` with its trailing zero bytes dropped.
pub open spec fn spec_trim_back(s: Seq<u8>) -> Seq<u8>
    decreases s.len(),
{
    if s.len() > 0 && s[s.len() - 1] == 0 {
        spec_trim_back(s.drop_last())
    } else {
        s
    }
}

/// `s` without its leading and trailing zero bytes: the padding the console
/// layer is not interested in.
pub open spec fn spec_trim_nuls(s: Seq<u8>) -> Seq<u8> {
    spec_trim_back(spec_trim_front(s))
}

/// Relies on `String::from_utf8`: it succeeds exactly on valid UTF-8 and
/// decodes the bytes it is given.
#[verifier::external_body]
fn bytes_to_string(bytes: Vec<u8>) -> (r: Option<String>)
    ensures
        r is Some <==> valid_utf8(bytes@),
        r matches Some(s) ==> s@ == decode_utf8(bytes@),
{
    String::from_utf8(bytes).ok()
}

/// The text of a message body: the padding NUL bytes around it are dropped
/// and the rest is decoded as UTF-8. Yields nothing when the remaining bytes
/// are not valid UTF-8.
pub fn stringify_body(bytes: Vec<u8>) -> (r: Option<String>)
    ensures
        r is Some <==> valid_utf8(spec_trim_nuls(bytes@)),
        r matches Some(s) ==> s@ == decode_utf8(spec_trim_nuls(bytes@)),
{
    let len = bytes.len();
    let mut lo: usize = 0;
    proof {
        assert(bytes@.skip(0) =~= bytes@);
    }
    while lo < len && bytes[lo] == 0
        invariant
            len == bytes@.len(),
            lo <= len,
            spec_trim_front(bytes@) == spec_trim_front(bytes@.skip(lo as int)),
        decreases len - lo,
    {
        proof {
            assert(bytes@.skip(lo as int).skip(1) =~= bytes@.skip(lo + 1));
        }
        lo = lo + 1;
    }
    proof {
        assert(spec_trim_front(bytes@) == bytes@.skip(lo as int));
    }
    let ghost front = bytes@.skip(lo as int);
    let mut hi: usize = len;
    proof {
        assert(front.take(len - lo as int) =~= front);
    }
    while hi > lo && bytes[hi - 1] == 0
        invariant
            len == bytes@.len(),
            lo <= hi <= len,
            front == bytes@.skip(lo as int),
            spec_trim_back(front) == spec_trim_back(front.take(hi - lo as int)),
        decreases hi,
    {
        proof {
            assert(front.take(hi - lo as int).drop_last() =~= front.take(hi - 1 - lo as int));
        }
        hi = hi - 1;
    }
    proof {
        assert(spec_trim_back(front) == front.take(hi - lo as int));
    }
    let trimmed = subrange_vec(&bytes, lo, hi);
    proof {
        assert(trimmed@ =~= front.take(hi - lo as int));
    }
    bytes_to_string(trimmed)
}

} // verus!
