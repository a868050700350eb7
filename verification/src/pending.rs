//! The retransmission engine's bookkeeping: every sent packet awaiting
//! acknowledgment, keyed by destination and sequence number. Acks delete
//! entries; the timeout sweep removes expired ones and hands their payloads
//! back for resubmission as fresh packets.

use vstd::prelude::*;

use crate::table::{has_key, key_idx, lemma_filter_drops_key, lemma_filter_has_key,
    lemma_filter_in_source, lemma_filter_keeps_unique, lemma_filter_take_step, lemma_key_idx_is,
    lemma_lookup_after_push, lemma_lookup_after_update, unique_keys};
use crate::types::{
    payload_views, PeerAddr, SequencedAckedSocketPayload, SequencedAckedSocketPayloadV,
    SocketPayload, SocketPayloadV,
};

verus! {

/// How long a send may wait for its ack before it counts as dropped, in
/// milliseconds.
pub const PACKET_DROP_TIME_MS: u64 = 5000;

/// One remembered send awaiting acknowledgment.
#[derive(Debug)]
pub struct PendingEntry {
    pub packet: SequencedAckedSocketPayload,
    pub sent_at: u64,
}

/// Mathematical image of a `PendingEntry`.
pub ghost struct PendingEntryV {
    pub packet: SequencedAckedSocketPayloadV,
    pub sent_at: u64,
}

impl View for PendingEntry {
    type V = PendingEntryV;

    open spec fn view(&self) -> PendingEntryV {
        PendingEntryV { packet: self.packet@, sent_at: self.sent_at }
    }
}

/// One row of the table as the contracts see it.
pub type PendingRowV = ((PeerAddr, u16), PendingEntryV);

/// All sends awaiting acknowledgment, keyed by `(destination, seq_num)`.
#[derive(Debug)]
pub struct PendingTable {
    pub entries: Vec<((PeerAddr, u16), PendingEntry)>,
}

impl View for PendingTable {
    type V = Seq<PendingRowV>;

    open spec fn view(&self) -> Seq<PendingRowV> {
        self.entries@.map_values(|e: ((PeerAddr, u16), PendingEntry)| (e.0, e.1@))
    }
}

/// Every row's key is its packet's destination and sequence number.
pub open spec fn keys_match(rows: Seq<PendingRowV>) -> bool {
    forall|i: int|
        0 <= i < rows.len() ==> (#[trigger] rows[i]).0 == (
            rows[i].1.packet.addr,
            rows[i].1.packet.seq_num,
        )
}

/// A pending send has expired at `now` when more than the drop timeout has
/// passed since it went out.
pub open spec fn spec_expired(row: PendingRowV, now: u64) -> bool {
    now > row.1.sent_at && now - row.1.sent_at > PACKET_DROP_TIME_MS
}

/// The backward distance from `ack_num` down to `seq` in the wrapping 16-bit
/// sequence space.
pub open spec fn back_dist(ack_num: u16, seq: u16) -> int {
    if ack_num >= seq {
        ack_num - seq
    } else {
        ack_num + 0x10000 - seq
    }
}

/// Whether an inbound frame's ack fields acknowledge the pending send at
/// `key`: they do when the frame comes from that destination and names the
/// key's sequence number, either as `ack_num` itself or through bit `i` of
/// `ack_field`, which stands for `ack_num - (i + 1)` (mod 2^16).
pub open spec fn spec_acked(key: (PeerAddr, u16), from: PeerAddr, ack_num: u16, ack_field: u32) -> bool {
    key.0 == from && (key.1 == ack_num || {
        let bd = back_dist(ack_num, key.1);
        1 <= bd <= 32 && (ack_field >> ((bd - 1) as u32)) & 1u32 == 1u32
    })
}

impl PendingTable {
    /// Each key appears at most once, and keys agree with their packets.
    pub open spec fn wf(self) -> bool {
        unique_keys(self@) && keys_match(self@)
    }

    pub open spec fn spec_has(self, key: (PeerAddr, u16)) -> bool {
        has_key(self@, key)
    }

    /// The row kept for `key`; meaningful only when the key is present.
    pub open spec fn spec_get(self, key: (PeerAddr, u16)) -> PendingEntryV {
        self@[key_idx(self@, key)].1
    }

    pub fn new() -> (r: PendingTable)
        ensures
            r.wf(),
            r@.len() == 0,
    {
        PendingTable { entries: Vec::new() }
    }

    pub fn len(&self) -> (r: usize)
        ensures
            r == self@.len(),
    {
        self.entries.len()
    }
}

/// Records a just-sent packet as awaiting acknowledgment. A resend under the
/// same destination and sequence number replaces the old entry and its
/// timer; nothing else changes.
pub fn on_send(packet: SequencedAckedSocketPayload, now: u64, pending: &mut PendingTable)
    requires
        old(pending).wf(),
    ensures
        final(pending).wf(),
        old(pending).spec_has((packet.addr, packet.seq_num)) ==> final(pending)@ == old(
            pending,
        )@.update(
            key_idx(old(pending)@, (packet.addr, packet.seq_num)),
            ((packet.addr, packet.seq_num), PendingEntryV { packet: packet@, sent_at: now }),
        ),
        !old(pending).spec_has((packet.addr, packet.seq_num)) ==> final(pending)@ == old(
            pending,
        )@.push(((packet.addr, packet.seq_num), PendingEntryV { packet: packet@, sent_at: now })),
        final(pending).spec_has((packet.addr, packet.seq_num)),
        final(pending).spec_get((packet.addr, packet.seq_num)) == (PendingEntryV {
            packet: packet@,
            sent_at: now,
        }),
        forall|b: (PeerAddr, u16)|
            b != (packet.addr, packet.seq_num) ==> #[trigger] final(pending).spec_has(b) == old(
                pending,
            ).spec_has(b) && (old(pending).spec_has(b) ==> final(pending).spec_get(b) == old(
                pending,
            ).spec_get(b)),
{
    let key = (packet.addr, packet.seq_num);
    let ghost rowv: PendingRowV = (key, PendingEntryV { packet: packet@, sent_at: now });
    let n = pending.entries.len();
    let mut i: usize = 0;
    while i < n
        invariant
            n == pending.entries@.len(),
            i <= n,
            pending@ == old(pending)@,
            pending.entries@ == old(pending).entries@,
            pending.wf(),
            key == (packet.addr, packet.seq_num),
            rowv == (key, PendingEntryV { packet: packet@, sent_at: now }),
            forall|k: int| 0 <= k < i ==> (#[trigger] pending@[k]).0 != key,
        decreases n - i,
    {
        if pending.entries[i].0 .0 == key.0 && pending.entries[i].0 .1 == key.1 {
            proof {
                assert(pending@[i as int].0 == key);
            }
            pending.entries.set(i, (key, PendingEntry { packet, sent_at: now }));
            proof {
                assert(pending@ =~= old(pending)@.update(i as int, rowv));
                lemma_lookup_after_update(old(pending)@, pending@, i as int, key, rowv.1);
                assert(keys_match(pending@));
                lemma_same_others(old(pending)@, pending@, key);
            }
            return ;
        }
        proof {
            assert(pending@[i as int].0 == pending.entries@[i as int].0);
        }
        i = i + 1;
    }
    pending.entries.push((key, PendingEntry { packet, sent_at: now }));
    proof {
        assert(pending@ =~= old(pending)@.push(rowv));
        lemma_lookup_after_push(old(pending)@, pending@, key, rowv.1);
        assert(keys_match(pending@));
        lemma_same_others(old(pending)@, pending@, key);
    }
}

/// When every row off `key` is carried over unchanged at its index-free
/// position, lookups of other keys are unchanged.
proof fn lemma_same_others(pre: Seq<PendingRowV>, post: Seq<PendingRowV>, key: (PeerAddr, u16))
    requires
        unique_keys(pre),
        unique_keys(post),
        forall|k: int| 0 <= k < post.len() && (#[trigger] post[k]).0 != key ==> k < pre.len()
            && post[k] == pre[k],
        forall|k: int| 0 <= k < pre.len() && (#[trigger] pre[k]).0 != key ==> k < post.len()
            && post[k] == pre[k],
    ensures
        forall|b: (PeerAddr, u16)|
            b != key ==> #[trigger] has_key(post, b) == has_key(pre, b) && (has_key(pre, b)
                ==> post[key_idx(post, b)].1 == pre[key_idx(pre, b)].1),
{
    assert forall|b: (PeerAddr, u16)| b != key implies #[trigger] has_key(post, b) == has_key(
        pre,
        b,
    ) && (has_key(pre, b) ==> post[key_idx(post, b)].1 == pre[key_idx(pre, b)].1) by {
        if has_key(post, b) {
            let k = key_idx(post, b);
            assert(post[k].0 == b);
            assert(pre[k].0 == b);
            lemma_key_idx_is(pre, k, b);
        }
        if has_key(pre, b) {
            let k = key_idx(pre, b);
            assert(pre[k].0 == b);
            assert(post[k].0 == b);
            lemma_key_idx_is(post, k, b);
            lemma_key_idx_is(pre, k, b);
        }
    }
}

/// Deletes every pending send that an inbound frame's ack fields
/// acknowledge: the one named by `ack_num` and one for each set bit of
/// `ack_field`, all for the frame's sender. Nothing else changes.
pub fn delete_acked_packets(
    packet: &SequencedAckedSocketPayload,
    packets_awaiting_ack: &mut PendingTable,
)
    requires
        old(packets_awaiting_ack).wf(),
    ensures
        final(packets_awaiting_ack).wf(),
        final(packets_awaiting_ack)@ == old(packets_awaiting_ack)@.filter(
            |r: PendingRowV| !spec_acked(r.0, packet.addr, packet.ack_num, packet.ack_field),
        ),
{
    let ghost orig = old(packets_awaiting_ack)@;
    let ghost keep_pred = |r: PendingRowV| !spec_acked(
        r.0,
        packet.addr,
        packet.ack_num,
        packet.ack_field,
    );
    let from = packet.addr;
    let ack_num = packet.ack_num;
    let ack_field = packet.ack_field;
    let mut j: usize = 0;
    let ghost mut k: int = 0;
    proof {
        assert(orig.take(0).filter(keep_pred) =~= Seq::<PendingRowV>::empty()) by {
            reveal(Seq::filter);
        }
        assert(packets_awaiting_ack@ =~= orig.take(0).filter(keep_pred) + orig.skip(0));
    }
    while j < packets_awaiting_ack.entries.len()
        invariant
            old(packets_awaiting_ack).wf(),
            0 <= k <= orig.len(),
            orig == old(packets_awaiting_ack)@,
            keep_pred == (|r: PendingRowV| !spec_acked(
                r.0,
                packet.addr,
                packet.ack_num,
                packet.ack_field,
            )),
            from == packet.addr,
            ack_num == packet.ack_num,
            ack_field == packet.ack_field,
            j == orig.take(k).filter(keep_pred).len(),
            packets_awaiting_ack@ == orig.take(k).filter(keep_pred) + orig.skip(k),
        decreases orig.len() - k,
    {
        proof {
            assert(k < orig.len()) by {
                assert(packets_awaiting_ack@.len() == j + orig.skip(k).len());
            }
            assert(packets_awaiting_ack@[j as int] == orig[k]) by {
                assert(packets_awaiting_ack@[j as int] == orig.skip(k)[0]);
            }
            lemma_filter_take_step(orig, keep_pred, k);
        }
        let e_key = packets_awaiting_ack.entries[j].0;
        let acked: bool = e_key.0 == from && (e_key.1 == ack_num || {
            let bd: u32 = if ack_num >= e_key.1 {
                (ack_num - e_key.1) as u32
            } else {
                ack_num as u32 + 0x10000 - e_key.1 as u32
            };
            1 <= bd && bd <= 32 && (ack_field >> (bd - 1)) & 1u32 == 1u32
        });
        proof {
            assert(packets_awaiting_ack@[j as int].0 == e_key);
            assert(acked == !keep_pred(orig[k]));
        }
        let ghost pre_rows = packets_awaiting_ack@;
        proof {
            assert(orig.skip(k) =~= seq![orig[k]] + orig.skip(k + 1));
        }
        if acked {
            let _removed = packets_awaiting_ack.entries.remove(j);
            proof {
                assert(packets_awaiting_ack@ =~= pre_rows.remove(j as int));
                assert(orig.take(k + 1).filter(keep_pred) == orig.take(k).filter(keep_pred));
                assert(packets_awaiting_ack@ =~= orig.take(k + 1).filter(keep_pred) + orig.skip(
                    k + 1,
                ));
                k = k + 1;
            }
        } else {
            j = j + 1;
            proof {
                assert(orig.take(k + 1).filter(keep_pred) == orig.take(k).filter(keep_pred).push(
                    orig[k],
                ));
                assert(packets_awaiting_ack@ =~= orig.take(k + 1).filter(keep_pred) + orig.skip(
                    k + 1,
                ));
                k = k + 1;
            }
        }
    }
    proof {
        assert(k == orig.len()) by {
            assert(packets_awaiting_ack@.len() == j + orig.skip(k).len());
        }
        assert(orig.take(k) =~= orig);
        assert(packets_awaiting_ack@ =~= orig.filter(keep_pred));
        lemma_filter_keeps_unique(orig, keep_pred);
        lemma_filter_in_source(orig, keep_pred);
        assert forall|i: int|
            0 <= i < packets_awaiting_ack@.len() implies (#[trigger] packets_awaiting_ack@[i]).0
            == (
            packets_awaiting_ack@[i].1.packet.addr,
            packets_awaiting_ack@[i].1.packet.seq_num,
        ) by {
            let f = orig.filter(keep_pred);
            assert(orig.contains(f[i]));
            let m = choose|m: int| 0 <= m < orig.len() && orig[m] == f[i];
        }
    }
}

/// Removes every pending send older than the drop timeout and returns their
/// original payloads, in table order, for resubmission as fresh packets.
/// Fresh entries stay untouched.
pub fn sweep(pending: &mut PendingTable, now: u64) -> (dropped: Vec<SocketPayload>)
    requires
        old(pending).wf(),
    ensures
        final(pending).wf(),
        final(pending)@ == old(pending)@.filter(|r: PendingRowV| !spec_expired(r, now)),
        payload_views(dropped@) == old(pending)@.filter(
            |r: PendingRowV| spec_expired(r, now),
        ).map_values(
            |r: PendingRowV| SocketPayloadV { addr: r.1.packet.addr, bytes: r.1.packet.bytes },
        ),
{
    let ghost orig = old(pending)@;
    let ghost keep_pred = |r: PendingRowV| !spec_expired(r, now);
    let ghost drop_pred = |r: PendingRowV| spec_expired(r, now);
    let ghost to_payload = |r: PendingRowV| SocketPayloadV {
        addr: r.1.packet.addr,
        bytes: r.1.packet.bytes,
    };
    let mut dropped: Vec<SocketPayload> = Vec::new();
    let mut j: usize = 0;
    let ghost mut k: int = 0;
    proof {
        assert(orig.take(0).filter(keep_pred) =~= Seq::<PendingRowV>::empty()) by {
            reveal(Seq::filter);
        }
        assert(orig.take(0).filter(drop_pred) =~= Seq::<PendingRowV>::empty()) by {
            reveal(Seq::filter);
        }
        assert(pending@ =~= orig.take(0).filter(keep_pred) + orig.skip(0));
        assert(payload_views(dropped@) =~= orig.take(0).filter(drop_pred).map_values(to_payload));
    }
    while j < pending.entries.len()
        invariant
            old(pending).wf(),
            0 <= k <= orig.len(),
            orig == old(pending)@,
            keep_pred == (|r: PendingRowV| !spec_expired(r, now)),
            drop_pred == (|r: PendingRowV| spec_expired(r, now)),
            to_payload == (|r: PendingRowV| SocketPayloadV {
                addr: r.1.packet.addr,
                bytes: r.1.packet.bytes,
            }),
            j == orig.take(k).filter(keep_pred).len(),
            pending@ == orig.take(k).filter(keep_pred) + orig.skip(k),
            payload_views(dropped@) == orig.take(k).filter(drop_pred).map_values(to_payload),
        decreases orig.len() - k,
    {
        proof {
            assert(k < orig.len()) by {
                assert(pending@.len() == j + orig.skip(k).len());
            }
            assert(pending@[j as int] == orig[k]) by {
                assert(pending@[j as int] == orig.skip(k)[0]);
            }
            lemma_filter_take_step(orig, keep_pred, k);
            lemma_filter_take_step(orig, drop_pred, k);
        }
        let sent_at = pending.entries[j].1.sent_at;
        let expired: bool = now > sent_at && now - sent_at > PACKET_DROP_TIME_MS;
        proof {
            assert(pending@[j as int].1.sent_at == sent_at);
            assert(expired == spec_expired(orig[k], now));
        }
        let ghost pre_rows = pending@;
        let ghost pre_payloads = payload_views(dropped@);
        proof {
            assert(orig.skip(k) =~= seq![orig[k]] + orig.skip(k + 1));
        }
        if expired {
            let removed = packets_remove(&mut pending.entries, j);
            dropped.push(SocketPayload { addr: removed.1.packet.addr, bytes: removed.1.packet.bytes });
            proof {
                assert(pending@ =~= pre_rows.remove(j as int));
                assert(orig.take(k + 1).filter(keep_pred) == orig.take(k).filter(keep_pred));
                assert(pending@ =~= orig.take(k + 1).filter(keep_pred) + orig.skip(k + 1));
                assert(orig.take(k + 1).filter(drop_pred) == orig.take(k).filter(drop_pred).push(
                    orig[k],
                ));
                assert((removed.0, removed.1@) == pre_rows[j as int]);
                assert(payload_views(dropped@) =~= pre_payloads.push(to_payload(orig[k])));
                assert(payload_views(dropped@) =~= orig.take(k + 1).filter(drop_pred).map_values(
                    to_payload,
                ));
                k = k + 1;
            }
        } else {
            j = j + 1;
            proof {
                assert(orig.take(k + 1).filter(keep_pred) == orig.take(k).filter(keep_pred).push(
                    orig[k],
                ));
                assert(orig.take(k + 1).filter(drop_pred) == orig.take(k).filter(drop_pred));
                assert(pending@ =~= orig.take(k + 1).filter(keep_pred) + orig.skip(k + 1));
                assert(payload_views(dropped@) =~= orig.take(k + 1).filter(drop_pred).map_values(
                    to_payload,
                ));
                k = k + 1;
            }
        }
    }
    proof {
        assert(k == orig.len()) by {
            assert(pending@.len() == j + orig.skip(k).len());
        }
        assert(orig.take(k) =~= orig);
        assert(pending@ =~= orig.filter(keep_pred));
        assert(payload_views(dropped@) =~= orig.filter(drop_pred).map_values(to_payload));
        lemma_filter_keeps_unique(orig, keep_pred);
        lemma_filter_in_source(orig, keep_pred);
        assert forall|i: int|
            0 <= i < pending@.len() implies (#[trigger] pending@[i]).0 == (
            pending@[i].1.packet.addr,
            pending@[i].1.packet.seq_num,
        ) by {
            let f = orig.filter(keep_pred);
            assert(orig.contains(f[i]));
            let m = choose|m: int| 0 <= m < orig.len() && orig[m] == f[i];
        }
    }
    dropped
}

/// Removes and returns the entry at `j`.
fn packets_remove(entries: &mut Vec<((PeerAddr, u16), PendingEntry)>, j: usize) -> (r: (
    (PeerAddr, u16),
    PendingEntry,
))
    requires
        j < old(entries)@.len(),
    ensures
        final(entries)@ == old(entries)@.remove(j as int),
        r == old(entries)@[j as int],
{
    entries.remove(j)
}

/// An acknowledged pending send is gone after the deletion pass: the one at
/// `ack_num` and each one a set bit of `ack_field` names.
pub proof fn lemma_ack_clears_pending(
    rows: Seq<PendingRowV>,
    from: PeerAddr,
    ack_num: u16,
    ack_field: u32,
    seq: u16,
)
    requires
        spec_acked((from, seq), from, ack_num, ack_field),
    ensures
        !has_key(
            rows.filter(|r: PendingRowV| !spec_acked(r.0, from, ack_num, ack_field)),
            (from, seq),
        ),
{
    let keep_pred = |r: PendingRowV| !spec_acked(r.0, from, ack_num, ack_field);
    assert forall|i: int|
        0 <= i < rows.len() && (#[trigger] rows[i]).0 == (from, seq) implies !keep_pred(
        rows[i],
    ) by {}
    lemma_filter_drops_key(rows, keep_pred, (from, seq));
}

/// A pending send that has expired by `now` is returned by the sweep exactly
/// once — it stands in the dropped rows, whose keys are unique — and is
/// absent from the table afterward.
pub proof fn lemma_retransmit_once(rows: Seq<PendingRowV>, now: u64, key: (PeerAddr, u16))
    requires
        unique_keys(rows),
        has_key(rows, key),
        spec_expired(rows[key_idx(rows, key)], now),
    ensures
        has_key(rows.filter(|r: PendingRowV| spec_expired(r, now)), key),
        unique_keys(rows.filter(|r: PendingRowV| spec_expired(r, now))),
        !has_key(rows.filter(|r: PendingRowV| !spec_expired(r, now)), key),
{
    let drop_pred = |r: PendingRowV| spec_expired(r, now);
    let keep_pred = |r: PendingRowV| !spec_expired(r, now);
    let i = key_idx(rows, key);
    assert(rows[i].0 == key);
    lemma_filter_has_key(rows, drop_pred, i);
    lemma_filter_keeps_unique(rows, drop_pred);
    assert forall|m: int|
        0 <= m < rows.len() && (#[trigger] rows[m]).0 == key implies !keep_pred(rows[m]) by {
        lemma_key_idx_is(rows, m, key);
    }
    lemma_filter_drops_key(rows, keep_pred, key);
}

} // verus!
