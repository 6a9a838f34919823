//! The peers this node is connected to, by node id.
use vstd::prelude::*;
use crate::assoc::{assoc_find, assoc_insert, assoc_map, assoc_remove, assoc_wf};
use crate::clock::{now_millis, INSTANT_BOUND};

verus! {

/// A connected peer. Times are Unix milliseconds.
#[derive(Clone, Debug)]
pub struct PeerInfo {
    /// The peer's node id.
    pub node_id: String,
    /// When the connection was made.
    pub connected_at: i64,
    /// When the peer was last seen.
    pub last_seen: i64,
}

/// The connected peers, one record per node id.
#[derive(Debug)]
pub struct PeerTable {
    peers: Vec<(String, PeerInfo)>,
}

impl PeerTable {
    /// One record per node id, kept under its own id.
    pub closed spec fn wf(&self) -> bool {
        &&& assoc_wf(self.peers@)
        &&& forall|j: int|
            0 <= j < self.peers@.len() ==> (#[trigger] self.peers@[j]).1.node_id@
                == self.peers@[j].0@
    }

    /// The peers by node id.
    pub closed spec fn peers_view(&self) -> Map<Seq<char>, PeerInfo> {
        assoc_map(self.peers@)
    }

    /// No peers.
    pub fn new() -> (t: PeerTable)
        ensures
            t.wf(),
            t.peers_view() == Map::<Seq<char>, PeerInfo>::empty(),
    {
        let t = PeerTable { peers: Vec::new() };
        assert(t.peers_view() =~= Map::<Seq<char>, PeerInfo>::empty());
        t
    }

    /// Record a connection to a peer made at `now` (a peer already known
    /// gets a fresh record).
    pub fn add_peer_at(&mut self, node_id: &str, now: i64)
        requires
            old(self).wf(),
        ensures
            final(self).wf(),
            final(self).peers_view().dom().contains(node_id@),
            final(self).peers_view()[node_id@].node_id@ == node_id@,
            final(self).peers_view() == old(self).peers_view().insert(
                node_id@,
                final(self).peers_view()[node_id@],
            ),
            final(self).peers_view()[node_id@].connected_at == now,
            final(self).peers_view()[node_id@].last_seen == now,
    {
        let info = PeerInfo { node_id: String::from_str(node_id), connected_at: now, last_seen: now };
        let ghost i = info;
        assoc_insert(&mut self.peers, node_id, info);
        proof {
            assert forall|j: int| 0 <= j < self.peers@.len() implies (#[trigger] self.peers@[j]).1.node_id@
                == self.peers@[j].0@ by {
                if old(self).peers@.contains(self.peers@[j]) {
                    let k = choose|k: int|
                        0 <= k < old(self).peers@.len() && old(self).peers@[k] == self.peers@[j];
                    assert(old(self).peers@[k].1.node_id@ == old(self).peers@[k].0@);
                }
            }
            assert(self.peers_view()[node_id@] == i);
        }
    }

    /// Record a connection to a peer made now.
    pub fn add_peer(&mut self, node_id: &str)
        requires
            old(self).wf(),
        ensures
            final(self).wf(),
            final(self).peers_view().dom().contains(node_id@),
            final(self).peers_view()[node_id@].node_id@ == node_id@,
            final(self).peers_view() == old(self).peers_view().insert(
                node_id@,
                final(self).peers_view()[node_id@],
            ),
            final(self).peers_view()[node_id@].connected_at == final(self).peers_view()[node_id@].last_seen,
            -INSTANT_BOUND < final(self).peers_view()[node_id@].connected_at < INSTANT_BOUND,
    {
        let now = now_millis();
        self.add_peer_at(node_id, now);
    }

    /// Forget a peer.
    pub fn remove_peer(&mut self, node_id: &str)
        requires
            old(self).wf(),
        ensures
            final(self).wf(),
            final(self).peers_view() == old(self).peers_view().remove(node_id@),
    {
        let _ = assoc_remove(&mut self.peers, node_id);
        proof {
            assert forall|j: int| 0 <= j < self.peers@.len() implies (#[trigger] self.peers@[j]).1.node_id@
                == self.peers@[j].0@ by {
                let k = choose|k: int|
                    0 <= k < old(self).peers@.len() && old(self).peers@[k] == self.peers@[j];
                assert(old(self).peers@[k].1.node_id@ == old(self).peers@[k].0@);
            }
        }
    }

    /// Whether a peer is connected.
    pub fn is_connected(&self, node_id: &str) -> (r: bool)
        requires
            self.wf(),
        ensures
            r == self.peers_view().dom().contains(node_id@),
    {
        assoc_find(&self.peers, node_id).is_some()
    }

    /// The number of connected peers.
    pub fn peer_count(&self) -> (n: usize)
        requires
            self.wf(),
        ensures
            n == self.peers_view().len(),
    {
        proof {
            crate::assoc::lemma_assoc_len(self.peers@);
        }
        self.peers.len()
    }

    /// The connected peers, one record each.
    pub fn get_peers(&self) -> (v: Vec<PeerInfo>)
        requires
            self.wf(),
        ensures
            v@.len() == self.peers_view().len(),
            forall|i: int|
                0 <= i < v@.len() ==> self.peers_view().dom().contains(#[trigger] v@[i].node_id@)
                    && self.peers_view()[v@[i].node_id@] == v@[i],
            forall|i: int, j: int| 0 <= i < j < v@.len() ==> v@[i].node_id@ != v@[j].node_id@,
    {
        let mut v: Vec<PeerInfo> = Vec::new();
        let mut i: usize = 0;
        proof {
            crate::assoc::lemma_assoc_len(self.peers@);
        }
        while i < self.peers.len()
            invariant
                self.wf(),
                i <= self.peers@.len(),
                v@.len() == i,
                forall|k: int| 0 <= k < i ==> #[trigger] v@[k] == self.peers@[k].1,
            decreases self.peers@.len() - i,
        {
            let p = &self.peers[i].1;
            v.push(PeerInfo { node_id: p.node_id.clone(), connected_at: p.connected_at, last_seen: p.last_seen });
            i = i + 1;
        }
        proof {
            assert forall|k: int| 0 <= k < v@.len() implies self.peers_view().dom().contains(
                #[trigger] v@[k].node_id@,
            ) && self.peers_view()[v@[k].node_id@] == v@[k] by {
                crate::assoc::lemma_assoc_at(self.peers@, k);
                assert(self.peers@[k].1.node_id@ == self.peers@[k].0@);
            }
            assert forall|a: int, b: int| 0 <= a < b < v@.len() implies v@[a].node_id@ != v@[b].node_id@ by {
                assert(self.peers@[a].1.node_id@ == self.peers@[a].0@);
                assert(self.peers@[b].1.node_id@ == self.peers@[b].0@);
                assert(crate::assoc::assoc_keys(self.peers@)[a] == self.peers@[a].0@);
                assert(crate::assoc::assoc_keys(self.peers@)[b] == self.peers@[b].0@);
            }
        }
        v
    }
}

} // verus!
