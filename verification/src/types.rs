//! The data carried through the transport: peer endpoints, payloads at each
//! stage of the outbound pipeline, and the message-kind tag of the relay layer.

use vstd::prelude::*;

use crate::byte_ops::append_bytes;

verus! {

/// An IPv4 endpoint: the key for all per-peer state. Equality is exact.
#[derive(PartialEq, Eq, Structural, Clone, Copy, Debug, Hash)]
pub struct PeerAddr {
    pub ip0: u8,
    pub ip1: u8,
    pub ip2: u8,
    pub ip3: u8,
    pub port: u16,
}

/// The decimal digits of `n`, most significant first, as ASCII bytes.
pub open spec fn spec_dec(n: nat) -> Seq<u8>
    decreases n,
{
    if n < 10 {
        seq![(48 + n) as u8]
    } else {
        spec_dec(n / 10).push((48 + n % 10) as u8)
    }
}

/// The decimal digits of `n` as a fresh vector of ASCII bytes.
pub fn dec_bytes(n: u16) -> (r: Vec<u8>)
    ensures
        r@ == spec_dec(n as nat),
    decreases n,
{
    if n < 10 {
        let mut r: Vec<u8> = Vec::new();
        r.push(48 + n as u8);
        proof {
            assert(r@ =~= spec_dec(n as nat));
        }
        r
    } else {
        let mut r = dec_bytes(n / 10);
        r.push(48 + (n % 10) as u8);
        r
    }
}

/// The text form of an address, as the relay prefixes it: the four octets
/// separated by dots, a colon, and the port, all in decimal.
pub open spec fn spec_addr_text(a: PeerAddr) -> Seq<u8> {
    spec_dec(a.ip0 as nat) + seq![46u8] + spec_dec(a.ip1 as nat) + seq![46u8] + spec_dec(
        a.ip2 as nat,
    ) + seq![46u8] + spec_dec(a.ip3 as nat) + seq![58u8] + spec_dec(a.port as nat)
}

impl PeerAddr {
    /// The text form of this address as ASCII bytes.
    pub fn text_bytes(&self) -> (r: Vec<u8>)
        ensures
            r@ == spec_addr_text(*self),
    {
        let mut r = dec_bytes(self.ip0 as u16);
        r.push(46);
        let mut part = dec_bytes(self.ip1 as u16);
        append_bytes(&mut r, &part);
        r.push(46);
        part = dec_bytes(self.ip2 as u16);
        append_bytes(&mut r, &part);
        r.push(46);
        part = dec_bytes(self.ip3 as u16);
        append_bytes(&mut r, &part);
        r.push(58);
        part = dec_bytes(self.port);
        append_bytes(&mut r, &part);
        proof {
            assert(r@ =~= spec_addr_text(*self));
        }
        r
    }
}

/// The kind tag carried as the first payload byte.
#[derive(PartialEq, Eq, Structural, Clone, Copy, Debug)]
pub enum MessageType {
    KeepAlive,
    Message,
}

/// The network role picked at startup.
#[derive(PartialEq, Eq, Structural, Clone, Copy, Debug)]
pub enum NetMode {
    Client,
    Server,
}

/// An application payload headed to, or received from, a peer.
#[derive(Clone, Debug)]
pub struct SocketPayload {
    pub addr: PeerAddr,
    pub bytes: Vec<u8>,
}

/// Raw bytes as they stand on the wire, before or after framing.
#[derive(Clone, Debug)]
pub struct RawSocketPayload {
    pub addr: PeerAddr,
    pub bytes: Vec<u8>,
}

/// A payload that has been assigned its per-destination sequence number.
#[derive(Clone, Debug)]
pub struct SequencedSocketPayload {
    pub addr: PeerAddr,
    pub seq_num: u16,
    pub bytes: Vec<u8>,
}

/// A sequenced payload stamped with the current ack state for its
/// destination: the complete frame contents, short of the marker.
#[derive(Clone, Debug)]
pub struct SequencedAckedSocketPayload {
    pub addr: PeerAddr,
    pub seq_num: u16,
    pub ack_num: u16,
    pub ack_field: u32,
    pub bytes: Vec<u8>,
}

/// A decoded text message together with its origin.
#[derive(Clone, Debug)]
pub struct StringPayload {
    pub addr: PeerAddr,
    pub msg: String,
}

/// A payload whose leading type byte has been recognized and stripped.
#[derive(Clone, Debug)]
pub struct IdentifiedPayload {
    pub addr: PeerAddr,
    pub msg_type: MessageType,
    pub bytes: Vec<u8>,
}

/// Mathematical image of a `SocketPayload`.
pub ghost struct SocketPayloadV {
    pub addr: PeerAddr,
    pub bytes: Seq<u8>,
}

/// Mathematical image of a `RawSocketPayload`.
pub ghost struct RawSocketPayloadV {
    pub addr: PeerAddr,
    pub bytes: Seq<u8>,
}

/// Mathematical image of a `SequencedSocketPayload`.
pub ghost struct SequencedSocketPayloadV {
    pub addr: PeerAddr,
    pub seq_num: u16,
    pub bytes: Seq<u8>,
}

/// Mathematical image of a `SequencedAckedSocketPayload`.
pub ghost struct SequencedAckedSocketPayloadV {
    pub addr: PeerAddr,
    pub seq_num: u16,
    pub ack_num: u16,
    pub ack_field: u32,
    pub bytes: Seq<u8>,
}

/// Mathematical image of an `IdentifiedPayload`.
pub ghost struct IdentifiedPayloadV {
    pub addr: PeerAddr,
    pub msg_type: MessageType,
    pub bytes: Seq<u8>,
}

impl View for SocketPayload {
    type V = SocketPayloadV;

    open spec fn view(&self) -> SocketPayloadV {
        SocketPayloadV { addr: self.addr, bytes: self.bytes@ }
    }
}

impl View for RawSocketPayload {
    type V = RawSocketPayloadV;

    open spec fn view(&self) -> RawSocketPayloadV {
        RawSocketPayloadV { addr: self.addr, bytes: self.bytes@ }
    }
}

impl View for SequencedSocketPayload {
    type V = SequencedSocketPayloadV;

    open spec fn view(&self) -> SequencedSocketPayloadV {
        SequencedSocketPayloadV { addr: self.addr, seq_num: self.seq_num, bytes: self.bytes@ }
    }
}

impl View for SequencedAckedSocketPayload {
    type V = SequencedAckedSocketPayloadV;

    open spec fn view(&self) -> SequencedAckedSocketPayloadV {
        SequencedAckedSocketPayloadV {
            addr: self.addr,
            seq_num: self.seq_num,
            ack_num: self.ack_num,
            ack_field: self.ack_field,
            bytes: self.bytes@,
        }
    }
}

impl View for IdentifiedPayload {
    type V = IdentifiedPayloadV;

    open spec fn view(&self) -> IdentifiedPayloadV {
        IdentifiedPayloadV { addr: self.addr, msg_type: self.msg_type, bytes: self.bytes@ }
    }
}

/// The views of a sequence of payloads, element by element.
pub open spec fn payload_views(s: Seq<SocketPayload>) -> Seq<SocketPayloadV> {
    s.map_values(|p: SocketPayload| p@)
}

pub fn message_type_to_byte(msg_type: MessageType) -> (b: u8)
    ensures
        b == spec_message_type_byte(msg_type),
{
    match msg_type {
        MessageType::KeepAlive => 1,
        MessageType::Message => 2,
    }
}

pub open spec fn spec_message_type_byte(msg_type: MessageType) -> u8 {
    match msg_type {
        MessageType::KeepAlive => 1,
        MessageType::Message => 2,
    }
}

pub fn byte_to_message_type(byte: u8) -> (t: Option<MessageType>)
    ensures
        t == spec_byte_message_type(byte),
{
    match byte {
        1 => Some(MessageType::KeepAlive),
        2 => Some(MessageType::Message),
        _ => None,
    }
}

pub open spec fn spec_byte_message_type(byte: u8) -> Option<MessageType> {
    if byte == 1 {
        Some(MessageType::KeepAlive)
    } else if byte == 2 {
        Some(MessageType::Message)
    } else {
        None
    }
}

} // verus!
