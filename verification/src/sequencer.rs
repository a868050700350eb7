//! The sequencer: a per-destination counter handing out the sequence number
//! of each outbound packet, starting from 1 and wrapping modulo 2^16.

use vstd::prelude::*;

use crate::table::{has_key, key_idx, lemma_key_idx_is, lemma_lookup_after_push,
    lemma_lookup_after_update, unique_keys};
use crate::types::PeerAddr;

verus! {

/// The sequence number handed out after `c`: one more, wrapping modulo 2^16.
pub open spec fn spec_next_seq(c: u16) -> u16 {
    if c == 0xFFFF {
        0
    } else {
        (c + 1) as u16
    }
}

/// The last sequence number handed out per destination.
#[derive(Debug)]
pub struct SeqNumMap {
    pub entries: Vec<(PeerAddr, u16)>,
}

impl View for SeqNumMap {
    type V = Seq<(PeerAddr, u16)>;

    open spec fn view(&self) -> Seq<(PeerAddr, u16)> {
        self.entries@
    }
}

impl SeqNumMap {
    /// Each destination appears at most once.
    pub open spec fn wf(self) -> bool {
        unique_keys(self@)
    }

    pub open spec fn spec_has(self, addr: PeerAddr) -> bool {
        has_key(self@, addr)
    }

    /// The counter kept for `addr`: the last number handed out, or 0 for a
    /// destination never sent to.
    pub open spec fn spec_get(self, addr: PeerAddr) -> u16 {
        if self.spec_has(addr) {
            self@[key_idx(self@, addr)].1
        } else {
            0
        }
    }

    pub fn new() -> (r: SeqNumMap)
        ensures
            r.wf(),
            r@.len() == 0,
    {
        SeqNumMap { entries: Vec::new() }
    }
}

/// Hands out the next sequence number for `addr`: each destination's stream
/// counts 1, 2, ... with no gaps, wrapping modulo 2^16. Other destinations'
/// counters are untouched.
pub fn increment_seq_number(seq_num_map: &mut SeqNumMap, addr: PeerAddr) -> (r: u16)
    requires
        old(seq_num_map).wf(),
    ensures
        final(seq_num_map).wf(),
        r == spec_next_seq(old(seq_num_map).spec_get(addr)),
        old(seq_num_map).spec_has(addr) ==> final(seq_num_map)@ == old(seq_num_map)@.update(
            key_idx(old(seq_num_map)@, addr),
            (addr, r),
        ),
        !old(seq_num_map).spec_has(addr) ==> final(seq_num_map)@ == old(seq_num_map)@.push(
            (addr, r),
        ),
        final(seq_num_map).spec_has(addr),
        final(seq_num_map).spec_get(addr) == r,
        forall|b: PeerAddr|
            b != addr ==> #[trigger] final(seq_num_map).spec_has(b) == old(seq_num_map).spec_has(b)
                && final(seq_num_map).spec_get(b) == old(seq_num_map).spec_get(b),
{
    let n = seq_num_map.entries.len();
    let mut i: usize = 0;
    while i < n
        invariant
            n == seq_num_map@.len(),
            i <= n,
            seq_num_map@ == old(seq_num_map)@,
            seq_num_map.wf(),
            forall|k: int| 0 <= k < i ==> (#[trigger] seq_num_map@[k]).0 != addr,
        decreases n - i,
    {
        if seq_num_map.entries[i].0 == addr {
            proof {
                lemma_key_idx_is(seq_num_map@, i as int, addr);
            }
            let cur = seq_num_map.entries[i].1;
            let next: u16 = if cur == 0xFFFF {
                0
            } else {
                cur + 1
            };
            seq_num_map.entries.set(i, (addr, next));
            proof {
                lemma_lookup_after_update(old(seq_num_map)@, seq_num_map@, i as int, addr, next);
            }
            return next;
        }
        i = i + 1;
    }
    let next: u16 = 1;
    seq_num_map.entries.push((addr, next));
    proof {
        lemma_lookup_after_push(old(seq_num_map)@, seq_num_map@, addr, next);
    }
    next
}

} // verus!
