//! Assembly of an outbound packet: a payload picks up its sequence number
//! from the sequencer and the current ack state for its destination.

use vstd::prelude::*;

use crate::acks::AckMap;
use crate::sequencer::{increment_seq_number, spec_next_seq, SeqNumMap};
use crate::types::{SequencedAckedSocketPayload, SequencedSocketPayload, SocketPayload};

verus! {

/// Attaches a sequence number to a payload.
pub fn add_sequence_number(payload: SocketPayload, sequence_num: u16) -> (r:
    SequencedSocketPayload)
    ensures
        r@.addr == payload@.addr,
        r@.seq_num == sequence_num,
        r@.bytes == payload@.bytes,
{
    SequencedSocketPayload { addr: payload.addr, seq_num: sequence_num, bytes: payload.bytes }
}

/// Stamps the ack fields for the destination onto a sequenced payload.
pub fn add_acks(payload: SequencedSocketPayload, ack_num: u16, ack_field: u32) -> (r:
    SequencedAckedSocketPayload)
    ensures
        r@.addr == payload@.addr,
        r@.seq_num == payload@.seq_num,
        r@.ack_num == ack_num,
        r@.ack_field == ack_field,
        r@.bytes == payload@.bytes,
{
    SequencedAckedSocketPayload {
        addr: payload.addr,
        seq_num: payload.seq_num,
        ack_num: ack_num,
        ack_field: ack_field,
        bytes: payload.bytes,
    }
}

/// Turns an application payload into the frame to deliver: the next sequence
/// number for its destination and the current ack state for that
/// destination, with the payload bytes unchanged. Advances the sequencer for
/// that destination only.
pub fn prepare_packet(payload: SocketPayload, seq_num_map: &mut SeqNumMap, ack_map: &AckMap) -> (r:
    SequencedAckedSocketPayload)
    requires
        old(seq_num_map).wf(),
        ack_map.wf(),
    ensures
        final(seq_num_map).wf(),
        r@.addr == payload@.addr,
        r@.bytes == payload@.bytes,
        r@.seq_num == spec_next_seq(old(seq_num_map).spec_get(payload.addr)),
        final(seq_num_map).spec_get(payload.addr) == r@.seq_num,
        r@.ack_num == ack_map.spec_get(payload.addr).ack_num,
        r@.ack_field == ack_map.spec_get(payload.addr).ack_field,
        forall|b: crate::types::PeerAddr|
            b != payload.addr ==> #[trigger] final(seq_num_map).spec_has(b) == old(
                seq_num_map,
            ).spec_has(b) && final(seq_num_map).spec_get(b) == old(seq_num_map).spec_get(b),
{
    let addr = payload.addr;
    let seq_num = increment_seq_number(seq_num_map, addr);
    let sequenced = add_sequence_number(payload, seq_num);
    let acks = ack_map.stamp_for(addr);
    add_acks(sequenced, acks.ack_num, acks.ack_field)
}

} // verus!
