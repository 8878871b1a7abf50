//! The peer handle table: for each connected peer, its current connection.
use vstd::prelude::*;

use crate::topology::NodeId;

verus! {

/// Identifier minted once per established connection and never reused;
/// tells successive connections to one peer apart.
pub type ConnId = u64;

/// Marks values that are connection identifiers.
pub struct ConnIdTag {}

/// One row of the table: a peer, the identifier of its connection, and the
/// handle through which calls reach that connection.
pub struct PeerEntry<H> {
    pub peer: NodeId,
    pub conn_id: ConnId,
    pub handle: H,
}

/// The peer to connection map that a list of rows describes.
pub open spec fn conn_map<H>(s: Seq<PeerEntry<H>>) -> Map<NodeId, ConnId>
    decreases s.len(),
{
    if s.len() == 0 {
        Map::empty()
    } else {
        conn_map(s.drop_last()).insert(s.last().peer, s.last().conn_id)
    }
}

/// No peer has two rows.
pub open spec fn unique_peers<H>(s: Seq<PeerEntry<H>>) -> bool {
    forall|i: int, j: int| 0 <= i < j < s.len() ==> s[i].peer != s[j].peer
}

/// For a list without repeated peers, the described map holds exactly its rows.
pub proof fn lemma_conn_map_unique<H>(s: Seq<PeerEntry<H>>)
    requires
        unique_peers(s),
    ensures
        forall|k: NodeId| #[trigger] conn_map(s).contains_key(k) <==> exists|i: int| 0 <= i < s.len() && s[i].peer == k,
        forall|i: int| 0 <= i < s.len() ==> #[trigger] conn_map(s)[s[i].peer] == s[i].conn_id,
    decreases s.len(),
{
    if s.len() > 0 {
        let t = s.drop_last();
        assert(unique_peers(t));
        lemma_conn_map_unique(t);
        assert(conn_map(s) == conn_map(t).insert(s.last().peer, s.last().conn_id));
        assert forall|k: NodeId| #[trigger] conn_map(s).contains_key(k) <==> exists|i: int| 0 <= i < s.len() && s[i].peer == k by {
            if conn_map(s).contains_key(k) && k != s.last().peer {
                let i = choose|i: int| 0 <= i < t.len() && t[i].peer == k;
                assert(s[i].peer == k);
            }
            if exists|i: int| 0 <= i < s.len() && s[i].peer == k {
                let i = choose|i: int| 0 <= i < s.len() && s[i].peer == k;
                if i < t.len() {
                    assert(t[i].peer == k);
                }
            }
        }
        assert forall|i: int| 0 <= i < s.len() implies #[trigger] conn_map(s)[s[i].peer] == s[i].conn_id by {
            if i < t.len() {
                assert(t[i] == s[i]);
            }
        }
    }
}

/// Two lists without repeated peers describe the same map when they hold the
/// same (peer, connection) pairs.
proof fn lemma_conn_map_same<H>(s: Seq<PeerEntry<H>>, m: Map<NodeId, ConnId>)
    requires
        unique_peers(s),
        forall|i: int| 0 <= i < s.len() ==> m.contains_key(#[trigger] s[i].peer) && m[s[i].peer] == s[i].conn_id,
        forall|k: NodeId| #[trigger] m.contains_key(k) ==> exists|i: int| 0 <= i < s.len() && s[i].peer == k,
    ensures
        conn_map(s) == m,
{
    lemma_conn_map_unique(s);
    assert forall|k: NodeId| #[trigger] conn_map(s).contains_key(k) <==> m.contains_key(k) by {
        if conn_map(s).contains_key(k) {
            let i = choose|i: int| 0 <= i < s.len() && s[i].peer == k;
            assert(m.contains_key(s[i].peer));
        }
    }
    assert forall|k: NodeId| #[trigger] conn_map(s).contains_key(k) implies conn_map(s)[k] == m[k] by {
        let i = choose|i: int| 0 <= i < s.len() && s[i].peer == k;
        assert(conn_map(s)[s[i].peer] == s[i].conn_id);
        assert(m.contains_key(s[i].peer));
    }
    assert(conn_map(s) =~= m);
}

/// Maps each connected peer to its one current connection. There is at most
/// one row per peer: a newer connection replaces the row of an older one.
pub struct PeerTable<H> {
    entries: Vec<PeerEntry<H>>,
}

impl<H> View for PeerTable<H> {
    type V = Map<NodeId, ConnId>;

    closed spec fn view(&self) -> Map<NodeId, ConnId> {
        conn_map(self.entries@)
    }
}

impl<H> PeerTable<H> {
    /// At most one row per peer.
    pub closed spec fn wf(&self) -> bool {
        unique_peers(self.entries@)
    }

    fn find(&self, peer: NodeId) -> (r: Option<usize>)
        requires
            self.wf(),
        ensures
            match r {
                Some(i) => i < self.entries@.len() && self.entries@[i as int].peer == peer,
                None => !self@.contains_key(peer),
            },
    {
        proof {
            lemma_conn_map_unique(self.entries@);
        }
        let mut i: usize = 0;
        while i < self.entries.len()
            invariant
                i <= self.entries@.len(),
                forall|k: int| 0 <= k < i ==> self.entries@[k].peer != peer,
            decreases self.entries@.len() - i,
        {
            if self.entries[i].peer == peer {
                return Some(i);
            }
            i += 1;
        }
        None
    }

    pub fn new() -> (r: Self)
        ensures
            r.wf(),
            r@ == Map::<NodeId, ConnId>::empty(),
    {
        PeerTable { entries: Vec::new() }
    }

    /// The row of `peer`, if it is connected.
    pub fn get(&self, peer: NodeId) -> (r: Option<&PeerEntry<H>>)
        requires
            self.wf(),
        ensures
            match r {
                Some(e) => self@.contains_key(peer) && e.peer == peer && e.conn_id == self@[peer],
                None => !self@.contains_key(peer),
            },
    {
        proof {
            lemma_conn_map_unique(self.entries@);
        }
        match self.find(peer) {
            Some(i) => Some(&self.entries[i]),
            None => None,
        }
    }

    /// Publishes a connection for `peer`. A row the peer already had is
    /// replaced, never merged, and handed back.
    pub fn insert(&mut self, peer: NodeId, conn_id: ConnId, handle: H) -> (r: Option<PeerEntry<H>>)
        requires
            old(self).wf(),
        ensures
            final(self).wf(),
            final(self)@ == old(self)@.insert(peer, conn_id),
            match r {
                Some(e) => old(self)@.contains_key(peer) && e.peer == peer && e.conn_id == old(self)@[peer],
                None => !old(self)@.contains_key(peer),
            },
    {
        let ghost before = self.entries@;
        proof {
            lemma_conn_map_unique(before);
        }
        match self.find(peer) {
            Some(i) => {
                let superseded = self.entries.remove(i);
                self.entries.push(PeerEntry { peer, conn_id, handle });
                proof {
                    let s = self.entries@;
                    assert forall|a: int, b: int| 0 <= a < b < s.len() implies s[a].peer != s[b].peer by {
                        if b == s.len() - 1 {
                            if a < i {
                                assert(before[a].peer != before[i as int].peer);
                            } else {
                                assert(before[a + 1].peer != before[i as int].peer);
                            }
                        } else {
                            let a0 = if a < i { a } else { a + 1 };
                            let b0 = if b < i { b } else { b + 1 };
                            assert(before[a0].peer != before[b0].peer);
                        }
                    }
                    let m = conn_map(before).insert(peer, conn_id);
                    assert forall|k: NodeId| #[trigger] m.contains_key(k) implies exists|j: int| 0 <= j < s.len() && s[j].peer == k by {
                        if k == peer {
                            assert(s[s.len() - 1].peer == k);
                        } else {
                            let j = choose|j: int| 0 <= j < before.len() && before[j].peer == k;
                            if j < i {
                                assert(s[j].peer == k);
                            } else {
                                assert(s[j - 1].peer == k);
                            }
                        }
                    }
                    assert forall|j: int| 0 <= j < s.len() implies m.contains_key(#[trigger] s[j].peer) && m[s[j].peer] == s[j].conn_id by {
                        if j < s.len() - 1 {
                            let j0 = if j < i { j } else { j + 1 };
                            assert(s[j] == before[j0]);
                            assert(conn_map(before)[before[j0].peer] == before[j0].conn_id);
                        }
                    }
                    lemma_conn_map_same(s, m);
                }
                Some(superseded)
            },
            None => {
                self.entries.push(PeerEntry { peer, conn_id, handle });
                proof {
                    assert(self.entries@.drop_last() == before);
                    assert forall|a: int, b: int| 0 <= a < b < self.entries@.len() implies self.entries@[a].peer != self.entries@[b].peer by {
                        if b == self.entries@.len() - 1 {
                            assert(before[a].peer != peer) by {
                                if before[a].peer == peer {
                                    assert(conn_map(before).contains_key(before[a].peer));
                                }
                            }
                        } else {
                            assert(before[a].peer != before[b].peer);
                        }
                    }
                }
                None
            },
        }
    }

    /// Drops the row of `peer`, if any, and hands it back.
    pub fn remove(&mut self, peer: NodeId) -> (r: Option<PeerEntry<H>>)
        requires
            old(self).wf(),
        ensures
            final(self).wf(),
            final(self)@ == old(self)@.remove(peer),
            match r {
                Some(e) => old(self)@.contains_key(peer) && e.peer == peer && e.conn_id == old(self)@[peer],
                None => !old(self)@.contains_key(peer),
            },
    {
        let ghost before = self.entries@;
        proof {
            lemma_conn_map_unique(before);
        }
        match self.find(peer) {
            Some(i) => {
                let removed = self.entries.remove(i);
                proof {
                    let s = self.entries@;
                    assert forall|a: int, b: int| 0 <= a < b < s.len() implies s[a].peer != s[b].peer by {
                        let a0 = if a < i { a } else { a + 1 };
                        let b0 = if b < i { b } else { b + 1 };
                        assert(before[a0].peer != before[b0].peer);
                    }
                    let m = conn_map(before).remove(peer);
                    assert forall|k: NodeId| #[trigger] m.contains_key(k) implies exists|j: int| 0 <= j < s.len() && s[j].peer == k by {
                        let j = choose|j: int| 0 <= j < before.len() && before[j].peer == k;
                        if j < i {
                            assert(s[j].peer == k);
                        } else {
                            assert(s[j - 1].peer == k);
                        }
                    }
                    assert forall|j: int| 0 <= j < s.len() implies m.contains_key(#[trigger] s[j].peer) && m[s[j].peer] == s[j].conn_id by {
                        let j0 = if j < i { j } else { j + 1 };
                        assert(s[j] == before[j0]);
                        assert(before[j0].peer != before[i as int].peer);
                        assert(conn_map(before)[before[j0].peer] == before[j0].conn_id);
                    }
                    lemma_conn_map_same(s, m);
                }
                Some(removed)
            },
            None => {
                assert(self@ =~= conn_map(before).remove(peer));
                None
            },
        }
    }

    /// The connected peers with their connection identifiers, at this instant.
    pub fn peers(&self) -> (r: Vec<(NodeId, ConnId)>)
        requires
            self.wf(),
        ensures
            forall|i: int, j: int| 0 <= i < j < r@.len() ==> r@[i].0 != r@[j].0,
            forall|i: int| 0 <= i < r@.len() ==> #[trigger] self@.contains_key(r@[i].0) && self@[r@[i].0] == r@[i].1,
            forall|k: NodeId| #[trigger] self@.contains_key(k) ==> exists|i: int| 0 <= i < r@.len() && r@[i] == (k, self@[k]),
    {
        proof {
            lemma_conn_map_unique(self.entries@);
        }
        let mut out: Vec<(NodeId, ConnId)> = Vec::new();
        let mut i: usize = 0;
        while i < self.entries.len()
            invariant
                i <= self.entries@.len(),
                out@.len() == i,
                forall|j: int| 0 <= j < i ==> #[trigger] out@[j] == (self.entries@[j].peer, self.entries@[j].conn_id),
            decreases self.entries@.len() - i,
        {
            out.push((self.entries[i].peer, self.entries[i].conn_id));
            i += 1;
        }
        proof {
            assert forall|k: NodeId| #[trigger] self@.contains_key(k) implies exists|j: int| 0 <= j < out@.len() && out@[j] == (k, self@[k]) by {
                let j = choose|j: int| 0 <= j < self.entries@.len() && self.entries@[j].peer == k;
                assert(out@[j] == (k, self@[k]));
            }
            assert forall|a: int| 0 <= a < out@.len() implies #[trigger] self@.contains_key(out@[a].0) && self@[out@[a].0] == out@[a].1 by {
                assert(out@[a] == (self.entries@[a].peer, self.entries@[a].conn_id));
            }
        }
        out
    }
}

impl<H> PeerTable<H> {
    /// Empties the table and hands back every row it held.
    pub fn drain(&mut self) -> (r: Vec<PeerEntry<H>>)
        requires
            old(self).wf(),
        ensures
            final(self).wf(),
            final(self)@ == Map::<NodeId, ConnId>::empty(),
            unique_peers(r@),
            conn_map(r@) == old(self)@,
    {
        let mut out: Vec<PeerEntry<H>> = Vec::new();
        std::mem::swap(&mut out, &mut self.entries);
        out
    }
}

} // verus!
