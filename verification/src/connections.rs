//! The connection table: last-contact time per peer, the view of currently
//! known peers, and the culling sweep that evicts peers gone silent.

use vstd::prelude::*;

use crate::table::{has_key, key_idx, lemma_filter_drops_key, lemma_filter_has_key,
    lemma_filter_keeps_unique, lemma_filter_take_step, lemma_key_idx_is,
    lemma_lookup_after_push, lemma_lookup_after_update, unique_keys};
use crate::types::{PeerAddr, SocketPayload};

verus! {

/// How long a peer may stay silent before it is culled, in milliseconds.
pub const CONNECTION_TIMEOUT_MS: u64 = 5000;

/// What the table remembers about one peer.
#[derive(PartialEq, Eq, Structural, Clone, Copy, Debug)]
pub struct Connection {
    pub last_contact: u64,
}

/// A connection is stale at `now` when more than the liveness timeout has
/// passed since its last contact.
pub open spec fn spec_stale(c: Connection, now: u64) -> bool {
    now > c.last_contact && now - c.last_contact > CONNECTION_TIMEOUT_MS
}

/// All currently known peers with their last-contact times.
#[derive(Debug)]
pub struct ConnectionTable {
    pub entries: Vec<(PeerAddr, Connection)>,
}

/// The per-role state of the relay layer: who is around to talk to.
#[derive(Debug)]
pub struct ServerState {
    pub users: ConnectionTable,
}

impl View for ConnectionTable {
    type V = Seq<(PeerAddr, Connection)>;

    open spec fn view(&self) -> Seq<(PeerAddr, Connection)> {
        self.entries@
    }
}

impl ConnectionTable {
    /// Each peer appears at most once.
    pub open spec fn wf(self) -> bool {
        unique_keys(self@)
    }

    pub open spec fn spec_has(self, addr: PeerAddr) -> bool {
        has_key(self@, addr)
    }

    /// The record kept for `addr`; meaningful only when the peer is known.
    pub open spec fn spec_get(self, addr: PeerAddr) -> Connection {
        self@[key_idx(self@, addr)].1
    }

    /// The peers, in table order.
    pub open spec fn spec_peers(self) -> Seq<PeerAddr> {
        self@.map_values(|e: (PeerAddr, Connection)| e.0)
    }

    pub fn new() -> (r: ConnectionTable)
        ensures
            r.wf(),
            r@.len() == 0,
    {
        ConnectionTable { entries: Vec::new() }
    }

    /// A snapshot of the currently known peers, for relaying and listing.
    pub fn known_peers(&self) -> (r: Vec<PeerAddr>)
        ensures
            r@ == self.spec_peers(),
    {
        let mut r: Vec<PeerAddr> = Vec::new();
        let mut i: usize = 0;
        while i < self.entries.len()
            invariant
                i <= self@.len(),
                r@.len() == i,
                forall|k: int| 0 <= k < i ==> r@[k] == (#[trigger] self@[k]).0,
            decreases self@.len() - i,
        {
            r.push(self.entries[i].0);
            i = i + 1;
        }
        proof {
            assert(r@ =~= self.spec_peers());
        }
        r
    }
}

/// Refreshes the last-contact time of the sender of a just-received payload,
/// creating its record if the peer is new. No other record changes.
pub fn handle_connections(payload: &SocketPayload, connections: &mut ConnectionTable, now: u64)
    requires
        old(connections).wf(),
    ensures
        final(connections).wf(),
        old(connections).spec_has(payload.addr) ==> final(connections)@ == old(
            connections,
        )@.update(
            key_idx(old(connections)@, payload.addr),
            (payload.addr, Connection { last_contact: now }),
        ),
        !old(connections).spec_has(payload.addr) ==> final(connections)@ == old(
            connections,
        )@.push((payload.addr, Connection { last_contact: now })),
        final(connections).spec_has(payload.addr),
        final(connections).spec_get(payload.addr) == (Connection { last_contact: now }),
        forall|b: PeerAddr|
            b != payload.addr ==> #[trigger] final(connections).spec_has(b) == old(
                connections,
            ).spec_has(b) && (old(connections).spec_has(b) ==> final(connections).spec_get(b)
                == old(connections).spec_get(b)),
{
    let addr = payload.addr;
    let record = Connection { last_contact: now };
    let n = connections.entries.len();
    let mut i: usize = 0;
    while i < n
        invariant
            n == connections@.len(),
            i <= n,
            connections@ == old(connections)@,
            connections.wf(),
            addr == payload.addr,
            record == (Connection { last_contact: now }),
            forall|k: int| 0 <= k < i ==> (#[trigger] connections@[k]).0 != addr,
        decreases n - i,
    {
        if connections.entries[i].0 == addr {
            connections.entries.set(i, (addr, record));
            proof {
                lemma_lookup_after_update(old(connections)@, connections@, i as int, addr, record);
                assert forall|b: PeerAddr|
                    b != addr && old(connections).spec_has(b) implies connections.spec_get(b)
                    == old(connections).spec_get(b) by {
                    lemma_key_idx_is(old(connections)@, key_idx(old(connections)@, b), b);
                    let j = key_idx(old(connections)@, b);
                    assert(connections@[j] == old(connections)@[j]);
                    lemma_key_idx_is(connections@, j, b);
                }
            }
            return ;
        }
        i = i + 1;
    }
    connections.entries.push((addr, record));
    proof {
        lemma_lookup_after_push(old(connections)@, connections@, addr, record);
        assert forall|b: PeerAddr|
            b != addr && old(connections).spec_has(b) implies connections.spec_get(b)
            == old(connections).spec_get(b) by {
            lemma_key_idx_is(old(connections)@, key_idx(old(connections)@, b), b);
            let j = key_idx(old(connections)@, b);
            assert(connections@[j] == old(connections)@[j]);
            lemma_key_idx_is(connections@, j, b);
        }
    }
}

/// Removes every peer whose last contact lies further back than the liveness
/// timeout, and returns the removed peers. Fresh peers stay untouched.
pub fn cull_connections(connections: &mut ConnectionTable, now: u64) -> (culled: Vec<PeerAddr>)
    requires
        old(connections).wf(),
    ensures
        final(connections).wf(),
        final(connections)@ == old(connections)@.filter(
            |e: (PeerAddr, Connection)| !spec_stale(e.1, now),
        ),
        culled@ == old(connections)@.filter(|e: (PeerAddr, Connection)| spec_stale(e.1, now)).map_values(
            |e: (PeerAddr, Connection)| e.0,
        ),
{
    let ghost keep_pred = |e: (PeerAddr, Connection)| !spec_stale(e.1, now);
    let ghost stale_pred = |e: (PeerAddr, Connection)| spec_stale(e.1, now);
    let mut kept: Vec<(PeerAddr, Connection)> = Vec::new();
    let mut culled: Vec<PeerAddr> = Vec::new();
    let n = connections.entries.len();
    let mut i: usize = 0;
    proof {
        assert(old(connections)@.take(0).filter(keep_pred) =~= Seq::<(PeerAddr, Connection)>::empty())
            by {
            reveal(Seq::filter);
        }
        assert(old(connections)@.take(0).filter(stale_pred) =~= Seq::<(
            PeerAddr,
            Connection,
        )>::empty()) by {
            reveal(Seq::filter);
        }
    }
    while i < n
        invariant
            n == connections@.len(),
            i <= n,
            connections@ == old(connections)@,
            kept@ == connections@.take(i as int).filter(keep_pred),
            culled@ == connections@.take(i as int).filter(stale_pred).map_values(
                |e: (PeerAddr, Connection)| e.0,
            ),
            keep_pred == (|e: (PeerAddr, Connection)| !spec_stale(e.1, now)),
            stale_pred == (|e: (PeerAddr, Connection)| spec_stale(e.1, now)),
        decreases n - i,
    {
        let e = connections.entries[i];
        let stale = now > e.1.last_contact && now - e.1.last_contact > CONNECTION_TIMEOUT_MS;
        proof {
            lemma_filter_take_step(connections@, keep_pred, i as int);
            lemma_filter_take_step(connections@, stale_pred, i as int);
        }
        if stale {
            culled.push(e.0);
            proof {
                assert(culled@ =~= connections@.take(i + 1).filter(stale_pred).map_values(
                    |e: (PeerAddr, Connection)| e.0,
                ));
            }
        } else {
            kept.push(e);
        }
        i = i + 1;
    }
    proof {
        assert(connections@.take(n as int) =~= connections@);
        lemma_filter_keeps_unique(connections@, keep_pred);
    }
    connections.entries = kept;
    culled
}

/// A stale peer is gone from the known peers after a cull, and a fresh one
/// is still there: the liveness guarantee of the connection table.
pub proof fn lemma_cull_liveness(pre: ConnectionTable, post: ConnectionTable, now: u64, p: PeerAddr)
    requires
        pre.wf(),
        post@ == pre@.filter(|e: (PeerAddr, Connection)| !spec_stale(e.1, now)),
        pre.spec_has(p),
    ensures
        spec_stale(pre.spec_get(p), now) ==> !post.spec_peers().contains(p),
        !spec_stale(pre.spec_get(p), now) ==> post.spec_peers().contains(p),
{
    let keep_pred = |e: (PeerAddr, Connection)| !spec_stale(e.1, now);
    let i = key_idx(pre@, p);
    assert(pre@[i].0 == p);
    if spec_stale(pre.spec_get(p), now) {
        assert forall|k: int| 0 <= k < pre@.len() && (#[trigger] pre@[k]).0 == p implies !keep_pred(
            pre@[k],
        ) by {
            lemma_key_idx_is(pre@, k, p);
        }
        lemma_filter_drops_key(pre@, keep_pred, p);
        if post.spec_peers().contains(p) {
            let j = choose|j: int| 0 <= j < post.spec_peers().len() && post.spec_peers()[j] == p;
            assert(post@[j].0 == p);
            assert(has_key(post@, p));
        }
    } else {
        lemma_filter_has_key(pre@, keep_pred, i);
        let j = key_idx(post@, p);
        assert(post@[j].0 == p);
        assert(post.spec_peers()[j] == p);
    }
}

} // verus!
