//! The ack tracker: per remote peer, the latest received sequence number and
//! a 32-bit bitmap of the 32 sequence numbers immediately preceding it.

use vstd::prelude::*;

use crate::table::{has_key, key_idx, lemma_key_idx_is, lemma_lookup_after_push,
    lemma_lookup_after_remove, lemma_lookup_after_update, unique_keys};
use crate::types::PeerAddr;

verus! {

/// The ack state kept for one remote peer: `ack_num` is the newest received
/// sequence number, and bit `i` of `ack_field` is set exactly when sequence
/// number `ack_num - (i + 1)` (mod 2^16) has also been received.
#[derive(PartialEq, Eq, Structural, Clone, Copy, Debug)]
pub struct PeerAcks {
    pub ack_num: u16,
    pub ack_field: u32,
}

/// The forward distance from `from` to `to` in the wrapping 16-bit sequence
/// space: how many increments lead from `from` to `to`.
pub open spec fn fwd_dist(from: u16, to: u16) -> int {
    if to >= from {
        to - from
    } else {
        to + 0x10000 - from
    }
}

/// What observing `seq_num` does to an ack state. With `d` the forward
/// wrapped distance from `ack_num` to `seq_num`:
/// - `d == 0`: a duplicate, no change;
/// - `0 < d < 32`: `seq_num` is newer, the old field shifts under it;
/// - `32 <= d <= 0x8000`: `seq_num` is newer and the whole window has
///   fallen out of range, so the field resets (the exact half-way distance
///   0x8000 is taken as newer; the observed sequence space cannot tell);
/// - `d > 0x8000`: `seq_num` is older by `0x10000 - d`; in range it only
///   sets its bit, out of range it changes nothing.
pub open spec fn spec_observe(acks: PeerAcks, seq_num: u16) -> PeerAcks {
    let d = fwd_dist(acks.ack_num, seq_num);
    if d == 0 {
        acks
    } else if d < 32 {
        PeerAcks {
            ack_num: seq_num,
            ack_field: ((acks.ack_field << 1u32) | 1u32) << ((d - 1) as u32),
        }
    } else if d <= 0x8000 {
        PeerAcks { ack_num: seq_num, ack_field: 0 }
    } else {
        let bd = 0x10000 - d;
        if bd < 32 {
            PeerAcks {
                ack_num: acks.ack_num,
                ack_field: acks.ack_field | (1u32 << ((bd - 1) as u32)),
            }
        } else {
            acks
        }
    }
}

/// Folds a newly received sequence number into a peer's ack state. This is
/// the wraparound-aware window update at the heart of the protocol.
pub fn update_peer_acks(seq_num: u16, peer_acks: &mut PeerAcks)
    ensures
        *final(peer_acks) == spec_observe(*old(peer_acks), seq_num),
{
    let ack_num = peer_acks.ack_num;
    let d: u32 = if seq_num >= ack_num {
        (seq_num - ack_num) as u32
    } else {
        seq_num as u32 + 0x10000 - ack_num as u32
    };
    if d == 0 {
        // duplicate of the newest received number: nothing to record
    } else if d < 32 {
        peer_acks.ack_field = ((peer_acks.ack_field << 1) | 1) << (d - 1);
        peer_acks.ack_num = seq_num;
    } else if d <= 0x8000 {
        peer_acks.ack_field = 0;
        peer_acks.ack_num = seq_num;
    } else {
        let bd: u32 = 0x10000 - d;
        if bd < 32 {
            peer_acks.ack_field = peer_acks.ack_field | (1u32 << (bd - 1));
        }
    }
}

/// The ack states of all known peers, keyed by address.
#[derive(Debug)]
pub struct AckMap {
    pub entries: Vec<(PeerAddr, PeerAcks)>,
}

impl View for AckMap {
    type V = Seq<(PeerAddr, PeerAcks)>;

    open spec fn view(&self) -> Seq<(PeerAddr, PeerAcks)> {
        self.entries@
    }
}

impl AckMap {
    /// Each peer appears at most once.
    pub open spec fn wf(self) -> bool {
        unique_keys(self@)
    }

    pub open spec fn spec_has(self, addr: PeerAddr) -> bool {
        has_key(self@, addr)
    }

    /// The state kept for `addr`, or the all-zero state for a peer never
    /// heard from.
    pub open spec fn spec_get(self, addr: PeerAddr) -> PeerAcks {
        if self.spec_has(addr) {
            self@[key_idx(self@, addr)].1
        } else {
            PeerAcks { ack_num: 0, ack_field: 0 }
        }
    }

    pub fn new() -> (r: AckMap)
        ensures
            r.wf(),
            r@.len() == 0,
    {
        AckMap { entries: Vec::new() }
    }

    /// The ack fields to stamp on the next outbound packet to `addr`.
    pub fn stamp_for(&self, addr: PeerAddr) -> (r: PeerAcks)
        requires
            self.wf(),
        ensures
            r == self.spec_get(addr),
    {
        let mut i: usize = 0;
        while i < self.entries.len()
            invariant
                self.wf(),
                i <= self@.len(),
                forall|k: int| 0 <= k < i ==> (#[trigger] self@[k]).0 != addr,
        decreases self@.len() - i,
        {
            if self.entries[i].0 == addr {
                proof {
                    lemma_key_idx_is(self@, i as int, addr);
                }
                return self.entries[i].1;
            }
            i = i + 1;
        }
        PeerAcks { ack_num: 0, ack_field: 0 }
    }
}

/// Folds a received sequence number into the state for its sender, creating
/// the all-zero state first for a sender not yet tracked. Other peers'
/// states are untouched.
pub fn update_ack_map(addr: PeerAddr, seq_num: u16, ack_map: &mut AckMap)
    requires
        old(ack_map).wf(),
    ensures
        final(ack_map).wf(),
        old(ack_map).spec_has(addr) ==> final(ack_map)@ == old(ack_map)@.update(
            key_idx(old(ack_map)@, addr),
            (addr, spec_observe(old(ack_map).spec_get(addr), seq_num)),
        ),
        !old(ack_map).spec_has(addr) ==> final(ack_map)@ == old(ack_map)@.push(
            (addr, spec_observe(old(ack_map).spec_get(addr), seq_num)),
        ),
        final(ack_map).spec_has(addr),
        final(ack_map).spec_get(addr) == spec_observe(old(ack_map).spec_get(addr), seq_num),
        forall|b: PeerAddr|
            b != addr ==> #[trigger] final(ack_map).spec_has(b) == old(ack_map).spec_has(b)
                && final(ack_map).spec_get(b) == old(ack_map).spec_get(b),
{
    let n = ack_map.entries.len();
    let mut i: usize = 0;
    while i < n
        invariant
            n == ack_map@.len(),
            i <= n,
            ack_map@ == old(ack_map)@,
            ack_map.wf(),
            forall|k: int| 0 <= k < i ==> (#[trigger] ack_map@[k]).0 != addr,
        decreases n - i,
    {
        if ack_map.entries[i].0 == addr {
            let mut acks = ack_map.entries[i].1;
            proof {
                lemma_key_idx_is(ack_map@, i as int, addr);
            }
            update_peer_acks(seq_num, &mut acks);
            ack_map.entries.set(i, (addr, acks));
            proof {
                lemma_lookup_after_update(old(ack_map)@, ack_map@, i as int, addr, acks);
            }
            return ;
        }
        i = i + 1;
    }
    let mut acks = PeerAcks { ack_num: 0, ack_field: 0 };
    update_peer_acks(seq_num, &mut acks);
    ack_map.entries.push((addr, acks));
    proof {
        lemma_lookup_after_push(old(ack_map)@, ack_map@, addr, acks);
    }
}

/// Forgets the ack state kept for a culled peer, so that table memory stays
/// bounded by the set of live peers. Other peers' states are untouched.
pub fn drop_peer_acks(addr: PeerAddr, ack_map: &mut AckMap)
    requires
        old(ack_map).wf(),
    ensures
        final(ack_map).wf(),
        !final(ack_map).spec_has(addr),
        old(ack_map).spec_has(addr) ==> final(ack_map)@ == old(ack_map)@.remove(
            key_idx(old(ack_map)@, addr),
        ),
        !old(ack_map).spec_has(addr) ==> final(ack_map)@ == old(ack_map)@,
        forall|b: PeerAddr|
            b != addr ==> #[trigger] final(ack_map).spec_has(b) == old(ack_map).spec_has(b)
                && (old(ack_map).spec_has(b) ==> final(ack_map).spec_get(b) == old(
                ack_map,
            ).spec_get(b)),
{
    let n = ack_map.entries.len();
    let mut i: usize = 0;
    while i < n
        invariant
            n == ack_map@.len(),
            i <= n,
            ack_map@ == old(ack_map)@,
            ack_map.wf(),
            forall|k: int| 0 <= k < i ==> (#[trigger] ack_map@[k]).0 != addr,
        decreases n - i,
    {
        if ack_map.entries[i].0 == addr {
            proof {
                lemma_key_idx_is(ack_map@, i as int, addr);
            }
            let _ = ack_map.entries.remove(i);
            proof {
                lemma_lookup_after_remove(old(ack_map)@, ack_map@, i as int);
                assert forall|b: PeerAddr|
                    b != addr && old(ack_map).spec_has(b) implies ack_map.spec_get(b) == old(
                    ack_map,
                ).spec_get(b) by {
                    assert(ack_map@[key_idx(ack_map@, b)] == old(ack_map)@[key_idx(
                        old(ack_map)@,
                        b,
                    )]);
                }
            }
            return ;
        }
        i = i + 1;
    }
    proof {
        if has_key(ack_map@, addr) {
            let k = key_idx(ack_map@, addr);
            assert(ack_map@[k].0 == addr);
        }
    }
}

} // verus!
