//! The table of known peers.
use vstd::prelude::*;

use super::messages::{PeerId, PeerInfo};
use std::collections::HashMap;

verus! {

/// How peers are found.
#[derive(Debug, Clone, Copy, PartialEq, Eq, Structural)]
pub enum DiscoveryMode {
    /// Bootstrap nodes only.
    Bootstrap,
    /// Local network discovery.
    Local,
    /// Both.
    Hybrid,
}

/// Whether two peer records hold the same values.
pub open spec fn same_info(a: PeerInfo, b: PeerInfo) -> bool {
    &&& a.peer_id@ == b.peer_id@
    &&& a.party_id == b.party_id
    &&& a.address@ == b.address@
    &&& a.last_seen == b.last_seen
    &&& a.capabilities@ == b.capabilities@
}

/// Whether some record in `peers` has the id `id`.
pub open spec fn has_id(peers: Seq<PeerInfo>, id: Seq<char>) -> bool {
    exists|i: int| 0 <= i < peers.len() && (#[trigger] peers[i]).peer_id@ == id
}

/// Whether the ids of the records are pairwise distinct.
pub open spec fn ids_unique(peers: Seq<PeerInfo>) -> bool {
    forall|i: int, j: int|
        0 <= i < peers.len() && 0 <= j < peers.len() && i != j ==> (#[trigger] peers[i]).peer_id@
            != (#[trigger] peers[j]).peer_id@
}

/// Whether a record survives a removal: by id, it has another id than `id`;
/// otherwise it was seen less than `timeout` seconds before `now` (or later).
pub open spec fn survives(p: PeerInfo, by_id: bool, id: Seq<char>, now: u64, timeout: u64) -> bool {
    if by_id {
        p.peer_id@ != id
    } else {
        p.last_seen > now || now - p.last_seen < timeout
    }
}

/// `kept` holds exactly the records of `all` that survive.
pub open spec fn kept_from(
    kept: Seq<PeerInfo>,
    all: Seq<PeerInfo>,
    by_id: bool,
    id: Seq<char>,
    now: u64,
    timeout: u64,
) -> bool {
    &&& forall|k: int|
        0 <= k < kept.len() ==> all.contains(#[trigger] kept[k]) && survives(kept[k], by_id, id, now, timeout)
    &&& forall|j: int|
        0 <= j < all.len() && survives(#[trigger] all[j], by_id, id, now, timeout) ==> kept.contains(all[j])
}

impl PeerInfo {
    /// A copy of the record.
    pub fn copy(&self) -> (r: PeerInfo)
        ensures
            same_info(r, *self),
    {
        let mut capabilities: Vec<String> = Vec::new();
        let mut i: usize = 0;
        while i < self.capabilities.len()
            invariant
                i <= self.capabilities@.len(),
                capabilities@ == self.capabilities@.subrange(0, i as int),
            decreases self.capabilities@.len() - i,
        {
            capabilities.push(self.capabilities[i].clone());
            assert(capabilities@ =~= self.capabilities@.subrange(0, i + 1));
            i = i + 1;
        }
        assert(capabilities@ =~= self.capabilities@);
        PeerInfo {
            peer_id: self.peer_id.clone(),
            party_id: self.party_id,
            address: self.address.clone(),
            last_seen: self.last_seen,
            capabilities,
        }
    }
}

/// The local peer's view of the network: the peers it knows, by id.
pub struct PeerDiscovery {
    local_peer_id: PeerId,
    peers: Vec<PeerInfo>,
    bootstrap_nodes: Vec<String>,
    mode: DiscoveryMode,
}

/// Relies on `SystemTime::now` and `UNIX_EPOCH`: seconds since the epoch, or
/// zero for a clock set before it. Nothing is known of the value.
#[verifier::external_body]
fn current_timestamp_ark() -> (r: u64) {
    std::time::SystemTime::now()
        .duration_since(std::time::UNIX_EPOCH)
        .map(|d| d.as_secs())
        .unwrap_or(0)
}

/// Seconds since the Unix epoch.
pub fn current_timestamp() -> (r: u64) {
    current_timestamp_ark()
}

impl PeerDiscovery {
    /// The known peers, one record per id.
    pub closed spec fn known(&self) -> Seq<PeerInfo> {
        self.peers@
    }

    /// The table invariant: ids are unique.
    pub closed spec fn wf(&self) -> bool {
        ids_unique(self.peers@)
    }

    /// The bootstrap nodes.
    pub closed spec fn bootstrap(&self) -> Seq<String> {
        self.bootstrap_nodes@
    }

    /// The discovery mode.
    pub closed spec fn discovery_mode(&self) -> DiscoveryMode {
        self.mode
    }

    /// Our own peer id.
    pub closed spec fn local_id(&self) -> Seq<char> {
        self.local_peer_id@
    }

    /// A discovery service that knows no peer yet.
    pub fn new(local_peer_id: PeerId, bootstrap_nodes: Vec<String>, mode: DiscoveryMode) -> (r: Self)
        ensures
            r.wf(),
            r.known().len() == 0,
            r.local_id() == local_peer_id@,
    {
        PeerDiscovery { local_peer_id, peers: Vec::new(), bootstrap_nodes, mode }
    }

    /// Keeps the records for which `keep_id` (when `by_id`) or freshness at
    /// `now` (otherwise) holds.
    fn retain_records(&mut self, id: &String, now: u64, timeout_secs: u64, by_id: bool)
        requires
            old(self).wf(),
        ensures
            final(self).wf(),
            final(self).local_id() == old(self).local_id(),
            kept_from(final(self).known(), old(self).known(), by_id, id@, now, timeout_secs),
    {
        let mut rest: Vec<PeerInfo> = Vec::new();
        std::mem::swap(&mut rest, &mut self.peers);
        let ghost orig = rest@;
        let total = rest.len();
        let mut kept: Vec<PeerInfo> = Vec::new();
        let ghost mut src: Seq<int> = Seq::empty();
        let mut i: usize = 0;
        while rest.len() > 0
            invariant
                orig == old(self).peers@,
                self.local_peer_id == old(self).local_peer_id,
                total == orig.len(),
                i <= orig.len(),
                rest@ == orig.subrange(i as int, orig.len() as int),
                ids_unique(orig),
                i + rest@.len() == orig.len(),
                src.len() == kept@.len(),
                forall|k: int|
                    0 <= k < kept@.len() ==> 0 <= #[trigger] src[k] < i && kept@[k] == orig[src[k]]
                        && survives(orig[src[k]], by_id, id@, now, timeout_secs),
                forall|j: int|
                    0 <= j < i && survives(#[trigger] orig[j], by_id, id@, now, timeout_secs) ==> exists|k: int|
                        0 <= k < kept@.len() && kept@[k] == orig[j],
                ids_unique(kept@),
            decreases rest@.len(),
        {
            let p = rest.remove(0);
            assert(p == orig[i as int]);
            let stays = if by_id {
                !(p.peer_id == *id)
            } else {
                p.last_seen > now || now - p.last_seen < timeout_secs
            };
            if stays {
                let ghost before = kept@;
                kept.push(p);
                proof {
                    src = src.push(i as int);
                    assert(kept@.last() == orig[i as int]);
                    assert forall|a: int, b: int|
                        0 <= a < kept@.len() && 0 <= b < kept@.len() && a != b implies (#[trigger] kept@[a]).peer_id@
                            != (#[trigger] kept@[b]).peer_id@ by {
                        if a == kept@.len() - 1 || b == kept@.len() - 1 {
                            let o = if a == kept@.len() - 1 { b } else { a };
                            assert(kept@[o] == before[o]);
                            assert(src[o] < i);
                        } else {
                            assert(kept@[a] == before[a] && kept@[b] == before[b]);
                        }
                    }
                    assert forall|k: int| 0 <= k < kept@.len() implies 0 <= #[trigger] src[k] < i + 1
                        && kept@[k] == orig[src[k]] && survives(orig[src[k]], by_id, id@, now, timeout_secs) by {
                        if k < kept@.len() - 1 {
                            assert(kept@[k] == before[k]);
                        }
                    }
                    assert forall|j: int| 0 <= j < i + 1 && survives(#[trigger] orig[j], by_id, id@, now, timeout_secs) implies exists|k: int|
                        0 <= k < kept@.len() && kept@[k] == orig[j] by {
                        if j < i {
                            let k = choose|k: int| 0 <= k < before.len() && before[k] == orig[j];
                            assert(kept@[k] == before[k]);
                        } else {
                            assert(kept@[kept@.len() - 1] == orig[j]);
                        }
                    }
                }
            }
            i = i + 1;
        }
        assert(i == orig.len());
        proof {
            assert forall|k: int| 0 <= k < kept@.len() implies orig.contains(#[trigger] kept@[k])
                && survives(kept@[k], by_id, id@, now, timeout_secs) by {
                let j = src[k];
                assert(kept@[k] == orig[j]);
            }
            assert forall|j: int| 0 <= j < orig.len() && survives(#[trigger] orig[j], by_id, id@, now, timeout_secs)
                implies kept@.contains(orig[j]) by {
                let k = choose|k: int| 0 <= k < kept@.len() && kept@[k] == orig[j];
            }
        }
        self.peers = kept;
    }

    /// Adds a peer, replacing any record with the same id (in its place).
    pub fn add_peer(&mut self, peer: PeerInfo)
        requires
            old(self).wf(),
        ensures
            final(self).wf(),
            final(self).local_id() == old(self).local_id(),
            final(self).known().len() == old(self).known().len() + (if has_id(old(self).known(), peer.peer_id@) {
                0int
            } else {
                1int
            }),
            final(self).known().contains(peer),
            forall|i: int|
                0 <= i < old(self).known().len() && (#[trigger] old(self).known()[i]).peer_id@ != peer.peer_id@
                    ==> final(self).known()[i] == old(self).known()[i],
    {
        let id = peer.peer_id.clone();
        let ghost before = self.peers@;
        match self.position(&id) {
            Some(i) => {
                self.peers.set(i, peer);
                proof {
                    assert(self.peers@[i as int] == peer);
                    assert forall|a: int, b: int|
                        0 <= a < self.peers@.len() && 0 <= b < self.peers@.len() && a != b implies (#[trigger] self.peers@[a]).peer_id@
                            != (#[trigger] self.peers@[b]).peer_id@ by {
                        assert(self.peers@[a].peer_id@ == before[a].peer_id@);
                        assert(self.peers@[b].peer_id@ == before[b].peer_id@);
                    }
                }
            },
            None => {
                self.peers.push(peer);
                proof {
                    assert(self.peers@[before.len() as int] == peer);
                    assert forall|a: int, b: int|
                        0 <= a < self.peers@.len() && 0 <= b < self.peers@.len() && a != b implies (#[trigger] self.peers@[a]).peer_id@
                            != (#[trigger] self.peers@[b]).peer_id@ by {
                        if a < before.len() {
                            assert(self.peers@[a] == before[a]);
                        }
                        if b < before.len() {
                            assert(self.peers@[b] == before[b]);
                        }
                    }
                }
            },
        }
    }

    /// Forgets the peer with id `peer_id`.
    pub fn remove_peer(&mut self, peer_id: &str)
        requires
            old(self).wf(),
        ensures
            final(self).wf(),
            final(self).local_id() == old(self).local_id(),
            !has_id(final(self).known(), peer_id@),
            kept_from(final(self).known(), old(self).known(), true, peer_id@, 0, 0),
    {
        let id = peer_id.to_string();
        self.retain_records(&id, 0, 0, true);
        proof {
            let ks = self.peers@;
            let os = old(self).peers@;
            if has_id(ks, peer_id@) {
                let i = choose|i: int| 0 <= i < ks.len() && (#[trigger] ks[i]).peer_id@ == peer_id@;
                let j = choose|j: int| 0 <= j < os.len() && ks[i] == os[j] && survives(os[j], true, peer_id@, 0, 0);
            }
        }
    }

    /// Every known peer.
    pub fn get_peers(&self) -> (r: Vec<PeerInfo>)
        ensures
            r@.len() == self.known().len(),
            forall|i: int| 0 <= i < r@.len() ==> same_info(#[trigger] r@[i], self.known()[i]),
    {
        let mut r: Vec<PeerInfo> = Vec::new();
        let mut i: usize = 0;
        while i < self.peers.len()
            invariant
                i <= self.peers@.len(),
                r@.len() == i,
                forall|k: int| 0 <= k < i ==> same_info(#[trigger] r@[k], self.peers@[k]),
            decreases self.peers@.len() - i,
        {
            r.push(self.peers[i].copy());
            i = i + 1;
        }
        r
    }

    /// Index of the record with id `id`, if any.
    fn position(&self, id: &String) -> (r: Option<usize>)
        ensures
            r is None <==> !has_id(self.peers@, id@),
            r matches Some(i) ==> i < self.peers@.len() && self.peers@[i as int].peer_id@ == id@,
    {
        let mut i: usize = 0;
        while i < self.peers.len()
            invariant
                i <= self.peers@.len(),
                forall|k: int| 0 <= k < i ==> (#[trigger] self.peers@[k]).peer_id@ != id@,
            decreases self.peers@.len() - i,
        {
            if self.peers[i].peer_id == *id {
                return Some(i);
            }
            i = i + 1;
        }
        None
    }

    /// The record of the peer with id `peer_id`.
    pub fn get_peer(&self, peer_id: &str) -> (r: Option<PeerInfo>)
        ensures
            r is Some <==> has_id(self.known(), peer_id@),
            r matches Some(p) ==> p.peer_id@ == peer_id@ && exists|i: int|
                0 <= i < self.known().len() && same_info(p, #[trigger] self.known()[i]),
    {
        let id = peer_id.to_string();
        match self.position(&id) {
            Some(i) => {
                let p = self.peers[i].copy();
                assert(same_info(p, self.known()[i as int]));
                Some(p)
            },
            None => None,
        }
    }

    /// Marks the peer with id `peer_id` as seen at time `now`.
    pub fn update_peer_seen_at(&mut self, peer_id: &str, now: u64)
        requires
            old(self).wf(),
        ensures
            final(self).wf(),
            final(self).local_id() == old(self).local_id(),
            final(self).known().len() == old(self).known().len(),
            forall|i: int|
                0 <= i < old(self).known().len() ==> {
                    let o = old(self).known()[i];
                    let f = #[trigger] final(self).known()[i];
                    &&& f.peer_id@ == o.peer_id@
                    &&& f.party_id == o.party_id
                    &&& f.address@ == o.address@
                    &&& f.last_seen == (if o.peer_id@ == peer_id@ { now } else { o.last_seen })
                },
    {
        let id = peer_id.to_string();
        match self.position(&id) {
            Some(i) => {
                let mut p = self.peers[i].copy();
                p.last_seen = now;
                self.peers.set(i, p);
                proof {
                    assert forall|a: int, b: int|
                        0 <= a < self.peers@.len() && 0 <= b < self.peers@.len() && a != b implies (#[trigger] self.peers@[a]).peer_id@
                            != (#[trigger] self.peers@[b]).peer_id@ by {
                        assert(self.peers@[a].peer_id@ == old(self).peers@[a].peer_id@);
                        assert(self.peers@[b].peer_id@ == old(self).peers@[b].peer_id@);
                    }
                    assert forall|k: int| 0 <= k < old(self).peers@.len() && k != i implies
                        (#[trigger] old(self).peers@[k]).peer_id@ != peer_id@ by {
                    }
                }
            },
            None => {},
        }
    }

    /// Marks the peer with id `peer_id` as seen now.
    pub fn update_peer_seen(&mut self, peer_id: &str)
        requires
            old(self).wf(),
        ensures
            final(self).wf(),
            final(self).known().len() == old(self).known().len(),
    {
        let now = current_timestamp();
        self.update_peer_seen_at(peer_id, now);
    }

    /// The bootstrap nodes.
    pub fn bootstrap_nodes(&self) -> (r: &Vec<String>)
        ensures
            r@ == self.bootstrap(),
    {
        &self.bootstrap_nodes
    }

    /// Whether the peer with id `peer_id` is known.
    pub fn is_known(&self, peer_id: &str) -> (r: bool)
        ensures
            r == has_id(self.known(), peer_id@),
    {
        let id = peer_id.to_string();
        self.position(&id).is_some()
    }

    /// Our peer id.
    pub fn local_peer_id(&self) -> (r: &PeerId)
        ensures
            r@ == self.local_id(),
    {
        &self.local_peer_id
    }

    /// The discovery mode.
    pub fn mode(&self) -> (r: DiscoveryMode)
        ensures
            r == self.discovery_mode(),
    {
        self.mode
    }

    /// Forgets the peers not seen for `timeout_secs` seconds at time `now`
    /// (a sighting later than `now` counts as fresh).
    pub fn cleanup_stale_peers_at(&mut self, now: u64, timeout_secs: u64)
        requires
            old(self).wf(),
        ensures
            final(self).wf(),
            final(self).local_id() == old(self).local_id(),
            kept_from(final(self).known(), old(self).known(), false, Seq::empty(), now, timeout_secs),
    {
        let id = String::new();
        self.retain_records(&id, now, timeout_secs, false);
    }

    /// Forgets the peers not seen for `timeout_secs` seconds.
    pub fn cleanup_stale_peers(&mut self, timeout_secs: u64)
        requires
            old(self).wf(),
        ensures
            final(self).wf(),
    {
        let now = current_timestamp();
        self.cleanup_stale_peers_at(now, timeout_secs);
    }

    /// Number of known peers.
    pub fn peer_count(&self) -> (r: usize)
        ensures
            r == self.known().len(),
    {
        self.peers.len()
    }

    /// Whether at least `required` peers are known.
    pub fn has_sufficient_peers(&self, required: usize) -> (r: bool)
        ensures
            r == (self.known().len() >= required),
    {
        self.peer_count() >= required
    }

    /// The known peers that have a party id, by party id; of two peers with
    /// the same party id the later record wins.
    pub fn get_peers_by_party(&self) -> (r: HashMap<usize, PeerInfo>)
        ensures
            forall|k: usize| #[trigger] r@.contains_key(k) <==> exists|i: int|
                0 <= i < self.known().len() && self.known()[i].party_id == Some(k),
            forall|k: usize|
                #[trigger] r@.contains_key(k) ==> r@[k].party_id == Some(k) && exists|i: int|
                    0 <= i < self.known().len() && same_info(r@[k], self.known()[i]),
    {
        let mut r: HashMap<usize, PeerInfo> = HashMap::new();
        let mut i: usize = 0;
        while i < self.peers.len()
            invariant
                i <= self.peers@.len(),
                forall|k: usize| #[trigger] r@.contains_key(k) <==> exists|j: int|
                    0 <= j < i && self.peers@[j].party_id == Some(k),
                forall|k: usize|
                    #[trigger] r@.contains_key(k) ==> r@[k].party_id == Some(k) && exists|j: int|
                        0 <= j < self.peers@.len() && same_info(r@[k], self.peers@[j]),
            decreases self.peers@.len() - i,
        {
            match self.peers[i].party_id {
                Some(id) => {
                    let ghost before_map = r@;
                    let c = self.peers[i].copy();
                    r.insert(id, c);
                    proof {
                        assert forall|k: usize| #[trigger] r@.contains_key(k) implies r@[k].party_id == Some(k)
                            && exists|j: int| 0 <= j < self.peers@.len() && same_info(r@[k], self.peers@[j]) by {
                            if k == id {
                                assert(same_info(r@[k], self.peers@[i as int]));
                            } else {
                                assert(before_map.contains_key(k));
                            }
                        }
                        assert forall|k: usize| #[trigger] r@.contains_key(k) <==> exists|j: int|
                            0 <= j < i + 1 && self.peers@[j].party_id == Some(k) by {
                            if k == id {
                                assert(self.peers@[i as int].party_id == Some(k));
                            }
                        }
                    }
                },
                None => {
                    proof {
                        assert forall|k: usize| #[trigger] r@.contains_key(k) <==> exists|j: int|
                            0 <= j < i + 1 && self.peers@[j].party_id == Some(k) by {
                            if exists|j: int| 0 <= j < i + 1 && self.peers@[j].party_id == Some(k) {
                                let j = choose|j: int| 0 <= j < i + 1 && self.peers@[j].party_id == Some(k);
                                assert(j != i);
                            }
                        }
                    }
                },
            }
            i = i + 1;
        }
        r
    }

    /// The first known peer with party id `party_id`.
    pub fn find_peer_by_party(&self, party_id: usize) -> (r: Option<PeerInfo>)
        ensures
            r is Some <==> exists|i: int|
                0 <= i < self.known().len() && (#[trigger] self.known()[i]).party_id == Some(party_id),
            r matches Some(p) ==> p.party_id == Some(party_id) && exists|i: int|
                0 <= i < self.known().len() && same_info(p, #[trigger] self.known()[i]),
    {
        let mut i: usize = 0;
        while i < self.peers.len()
            invariant
                i <= self.peers@.len(),
                forall|k: int| 0 <= k < i ==> (#[trigger] self.peers@[k]).party_id != Some(party_id),
            decreases self.peers@.len() - i,
        {
            if self.peers[i].party_id == Some(party_id) {
                return Some(self.peers[i].copy());
            }
            i = i + 1;
        }
        None
    }
}

} // verus!
