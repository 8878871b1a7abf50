//! The transport façade and the connection manager's decisions.
//!
//! The state here is the single source of truth for who this node is
//! connected to. The runtime around it dials, accepts and closes connections;
//! each outcome comes back as a call to one of the `on_*` methods, which
//! decide what to publish, close or dial next. No method waits on anything.
use vstd::prelude::*;

use crate::peer_table::{ConnId, PeerEntry, PeerTable};
use crate::topology::{NodeId, PeerAddr, SubnetTopology};

verus! {

/// Why a call to a peer could not be made.
#[derive(Debug, PartialEq, Eq)]
pub enum SendError {
    /// There is no current connection to the peer.
    ConnectionUnavailable(String),
    /// Catch-all for failures on an existing connection: encoding, a failed
    /// write, or the peer closing the connection unexpectedly.
    Internal(String),
}

/// Of two peers, the one with the larger identifier dials the other; the
/// smaller one only accepts. Both ends apply the same rule, so at most one
/// connection is opened per pair.
pub open spec fn dials_to(local: NodeId, remote: NodeId) -> bool {
    local > remote
}

proof fn lemma_remove_unique(s: Seq<NodeId>, i: int)
    requires
        s.no_duplicates(),
        0 <= i < s.len(),
    ensures
        s.remove(i).to_set() == s.to_set().remove(s[i]),
        s.remove(i).no_duplicates(),
{
    let t = s.remove(i);
    assert forall|x: NodeId| t.to_set().contains(x) <==> s.to_set().remove(s[i]).contains(x) by {
        if t.contains(x) {
            let j = choose|j: int| 0 <= j < t.len() && t[j] == x;
            let j0 = if j < i { j } else { j + 1 };
            assert(s[j0] == x);
        }
        if s.contains(x) && x != s[i] {
            let j = choose|j: int| 0 <= j < s.len() && s[j] == x;
            if j < i {
                assert(t[j] == x);
            } else {
                assert(t[j - 1] == x);
            }
        }
    }
    assert(t.to_set() =~= s.to_set().remove(s[i]));
    assert forall|a: int, b: int| 0 <= a < t.len() && 0 <= b < t.len() && a != b implies t[a] != t[b] by {
        let a0 = if a < i { a } else { a + 1 };
        let b0 = if b < i { b } else { b + 1 };
        assert(s[a0] != s[b0]);
    }
}

proof fn lemma_push_unique(s: Seq<NodeId>, x: NodeId)
    requires
        s.no_duplicates(),
        !s.contains(x),
    ensures
        s.push(x).to_set() == s.to_set().insert(x),
        s.push(x).no_duplicates(),
{
    let t = s.push(x);
    assert forall|y: NodeId| t.to_set().contains(y) <==> s.to_set().insert(x).contains(y) by {
        if t.contains(y) && y != x {
            let j = choose|j: int| 0 <= j < t.len() && t[j] == y;
            assert(s[j] == y);
        }
        if s.contains(y) {
            let j = choose|j: int| 0 <= j < s.len() && s[j] == y;
            assert(t[j] == y);
        }
        if y == x {
            assert(t[s.len() as int] == y);
        }
    }
    assert(t.to_set() =~= s.to_set().insert(x));
    assert forall|a: int, b: int| 0 <= a < t.len() && 0 <= b < t.len() && a != b implies t[a] != t[b] by {
        if a < s.len() && b < s.len() {
            assert(s[a] != s[b]);
        } else if a < s.len() {
            assert(s.contains(s[a]));
        } else if b < s.len() {
            assert(s.contains(s[b]));
        }
    }
}

fn position(v: &Vec<NodeId>, x: NodeId) -> (r: Option<usize>)
    ensures
        match r {
            Some(i) => i < v@.len() && v@[i as int] == x,
            None => !v@.contains(x),
        },
{
    let mut i: usize = 0;
    while i < v.len()
        invariant
            i <= v@.len(),
            forall|k: int| 0 <= k < i ==> v@[k] != x,
        decreases v@.len() - i,
    {
        if v[i] == x {
            return Some(i);
        }
        i += 1;
    }
    None
}

/// A reconciliation pass dials `p` when it is a member with a usable
/// address, this node is the dialing side of the pair, and there is neither a
/// connection to `p` nor a dial in flight.
pub open spec fn should_dial(
    node: NodeId,
    members: Map<NodeId, PeerAddr>,
    handles: Map<NodeId, ConnId>,
    in_flight: Set<NodeId>,
    p: NodeId,
) -> bool {
    &&& members.contains_key(p)
    &&& dials_to(node, p)
    &&& members[p].is_dialable()
    &&& !handles.contains_key(p)
    &&& !in_flight.contains(p)
}

/// Picks the members to dial, each once, and records them as in flight.
#[verifier::rlimit(60)]
fn select_dials<H>(
    node: NodeId,
    nodes: &Vec<(NodeId, PeerAddr)>,
    table: &PeerTable<H>,
    dialing: &mut Vec<NodeId>,
) -> (to_dial: Vec<(NodeId, PeerAddr)>)
    requires
        crate::topology::unique_keys(nodes@),
        table.wf(),
        old(dialing)@.no_duplicates(),
    ensures
        final(dialing)@.no_duplicates(),
        final(dialing)@.to_set() == old(dialing)@.to_set().union(Set::new(|p: NodeId|
            should_dial(node, crate::topology::map_of(nodes@), table@, old(dialing)@.to_set(), p))),
        forall|a: int, b: int| 0 <= a < b < to_dial@.len() ==> to_dial@[a].0 != to_dial@[b].0,
        forall|a: int| 0 <= a < to_dial@.len() ==> {
            &&& should_dial(node, crate::topology::map_of(nodes@), table@, old(dialing)@.to_set(), #[trigger] to_dial@[a].0)
            &&& to_dial@[a].1 == crate::topology::map_of(nodes@)[to_dial@[a].0]
        },
        forall|p: NodeId| should_dial(node, crate::topology::map_of(nodes@), table@, old(dialing)@.to_set(), p)
            ==> exists|a: int| 0 <= a < to_dial@.len() && #[trigger] to_dial@[a].0 == p,
{
    let ghost members = crate::topology::map_of(nodes@);
    let ghost h = table@;
    let ghost old_f = dialing@.to_set();
    proof {
        crate::topology::lemma_map_of_unique(nodes@);
    }
    let mut to_dial: Vec<(NodeId, PeerAddr)> = Vec::new();
    let mut j: usize = 0;
    while j < nodes.len()
        invariant
            table.wf(),
            h == table@,
            crate::topology::unique_keys(nodes@),
            crate::topology::map_of(nodes@) == members,
            forall|k: NodeId| #[trigger] members.contains_key(k) <==> exists|a: int| 0 <= a < nodes@.len() && nodes@[a].0 == k,
            forall|a: int| 0 <= a < nodes@.len() ==> #[trigger] members[nodes@[a].0] == nodes@[a].1,
            j <= nodes@.len(),
            dialing@.no_duplicates(),
            dialing@.to_set() == old_f.union(Set::new(|p: NodeId|
                exists|a: int| 0 <= a < j && nodes@[a].0 == p && should_dial(node, members, h, old_f, p))),
            forall|x: int, y: int| 0 <= x < y < to_dial@.len() ==> to_dial@[x].0 != to_dial@[y].0,
            forall|x: int| 0 <= x < to_dial@.len() ==> {
                &&& should_dial(node, members, h, old_f, #[trigger] to_dial@[x].0)
                &&& to_dial@[x].1 == members[to_dial@[x].0]
                &&& exists|a: int| 0 <= a < j && nodes@[a].0 == to_dial@[x].0
            },
            forall|a: int| 0 <= a < j && should_dial(node, members, h, old_f, #[trigger] nodes@[a].0)
                ==> exists|x: int| 0 <= x < to_dial@.len() && to_dial@[x].0 == nodes@[a].0,
        decreases nodes@.len() - j,
    {
        let (p, addr) = nodes[j];
        let ghost added = Set::new(|q: NodeId|
            exists|a: int| 0 <= a < j && nodes@[a].0 == q && should_dial(node, members, h, old_f, q));
        proof {
            assert(!added.contains(p)) by {
                if added.contains(p) {
                    let a = choose|a: int| 0 <= a < j && nodes@[a].0 == p && should_dial(node, members, h, old_f, p);
                    assert(nodes@[a].0 != nodes@[j as int].0);
                }
            }
            assert(members.contains_key(p));
            assert(members[nodes@[j as int].0] == nodes@[j as int].1);
        }
        let connected = match table.get(p) {
            Some(_) => true,
            None => false,
        };
        let in_flight = match position(&dialing, p) {
            Some(_) => true,
            None => false,
        };
        let ghost added2 = Set::new(|q: NodeId|
            exists|a: int| 0 <= a < j + 1 && nodes@[a].0 == q && should_dial(node, members, h, old_f, q));
        if p < node && addr.dialable() && !connected && !in_flight {
            proof {
                assert(dialing@.to_set().contains(p) == dialing@.contains(p));
                assert(should_dial(node, members, h, old_f, p));
                lemma_push_unique(dialing@, p);
                assert(added2 =~= added.insert(p)) by {
                    assert forall|q: NodeId| added2.contains(q) implies added.insert(q).contains(q) && (q == p || added.contains(q)) by {
                        let a = choose|a: int| 0 <= a < j + 1 && nodes@[a].0 == q && should_dial(node, members, h, old_f, q);
                        if a < j {
                            assert(added.contains(q));
                        }
                    }
                    assert(added2.contains(p)) by {
                        assert(nodes@[j as int].0 == p);
                    }
                    assert forall|q: NodeId| added.contains(q) implies added2.contains(q) by {
                        let a = choose|a: int| 0 <= a < j && nodes@[a].0 == q && should_dial(node, members, h, old_f, q);
                        assert(0 <= a < j + 1);
                    }
                }
                assert forall|x: int| 0 <= x < to_dial@.len() implies to_dial@[x].0 != p by {
                    let a = choose|a: int| 0 <= a < j && nodes@[a].0 == to_dial@[x].0;
                    assert(nodes@[a].0 != nodes@[j as int].0);
                }
            }
            let ghost td = to_dial@;
            dialing.push(p);
            to_dial.push((p, addr));
            proof {
                assert(dialing@.to_set() =~= old_f.union(added2));
                assert forall|x: int| 0 <= x < to_dial@.len() implies exists|a: int| 0 <= a < j + 1 && nodes@[a].0 == #[trigger] to_dial@[x].0 by {
                    if x == to_dial@.len() - 1 {
                        assert(nodes@[j as int].0 == to_dial@[x].0);
                    } else {
                        let a = choose|a: int| 0 <= a < j && nodes@[a].0 == to_dial@[x].0;
                        assert(0 <= a < j + 1);
                    }
                }
                assert forall|a: int| 0 <= a < j + 1 && should_dial(node, members, h, old_f, #[trigger] nodes@[a].0)
                    implies exists|x: int| 0 <= x < to_dial@.len() && to_dial@[x].0 == nodes@[a].0 by {
                    if a == j {
                        assert(to_dial@[to_dial@.len() - 1].0 == nodes@[a].0);
                    } else {
                        let x = choose|x: int| 0 <= x < td.len() && td[x].0 == nodes@[a].0;
                        assert(to_dial@[x] == td[x]);
                    }
                }
            }
        } else {
            proof {
                assert(!should_dial(node, members, h, old_f, p)) by {
                    if should_dial(node, members, h, old_f, p) {
                        assert(dialing@.to_set().contains(p) == dialing@.contains(p));
                        assert(!old_f.contains(p));
                    }
                }
                assert(added2 =~= added) by {
                    assert forall|q: NodeId| added2.contains(q) implies added.contains(q) by {
                        let a = choose|a: int| 0 <= a < j + 1 && nodes@[a].0 == q && should_dial(node, members, h, old_f, q);
                        assert(a != j);
                    }
                    assert forall|q: NodeId| added.contains(q) implies added2.contains(q) by {
                        let a = choose|a: int| 0 <= a < j && nodes@[a].0 == q && should_dial(node, members, h, old_f, q);
                        assert(0 <= a < j + 1);
                    }
                }
                assert forall|x: int| 0 <= x < to_dial@.len() implies exists|a: int| 0 <= a < j + 1 && nodes@[a].0 == #[trigger] to_dial@[x].0 by {
                    let a = choose|a: int| 0 <= a < j && nodes@[a].0 == to_dial@[x].0;
                    assert(0 <= a < j + 1);
                }
            }
        }
        j += 1;
    }
    proof {
        let all = Set::new(|p: NodeId| should_dial(node, members, h, old_f, p));
        let seen = Set::new(|p: NodeId|
            exists|a: int| 0 <= a < nodes@.len() && nodes@[a].0 == p && should_dial(node, members, h, old_f, p));
        assert(seen =~= all) by {
            assert forall|p: NodeId| all.contains(p) implies seen.contains(p) by {
                assert(members.contains_key(p));
                let a = choose|a: int| 0 <= a < nodes@.len() && nodes@[a].0 == p;
            }
        }
        assert forall|p: NodeId| should_dial(node, members, h, old_f, p)
            implies exists|x: int| 0 <= x < to_dial@.len() && #[trigger] to_dial@[x].0 == p by {
            assert(members.contains_key(p));
            let a = choose|a: int| 0 <= a < nodes@.len() && nodes@[a].0 == p;
            assert(should_dial(node, members, h, old_f, nodes@[a].0));
        }
    }
    to_dial
}

/// What happened to a connection that the runtime established.
pub enum Established<H> {
    /// The connection is published under a fresh identifier; a connection it
    /// replaced, if any, is handed back to be closed.
    Published { conn_id: ConnId, superseded: Option<PeerEntry<H>> },
    /// The peer authenticator rejected the connection.
    Rejected(H),
    /// The peer is not a member of the current topology.
    NotMember(H),
    /// The connection came in from a peer that this node is meant to dial.
    WrongDirection(H),
    /// The transport has been shut down.
    Stopped(H),
    /// Every connection identifier has been used up.
    IdsExhausted(H),
}

/// The work a reconciliation pass asks of the runtime.
pub struct Reconciliation<H> {
    /// Peers to dial, each with its advertised address.
    pub to_dial: Vec<(NodeId, PeerAddr)>,
    /// Connections to peers that left the topology, to be closed.
    pub to_close: Vec<PeerEntry<H>>,
}

/// A socket that sends and receives nothing, for building a transport whose
/// connections are all made in memory.
#[derive(Debug)]
pub struct DummyUdpSocket;

/// Connection state of one node: the peer handle table, the latest topology
/// and the dials in flight.
pub struct QuicTransport<H> {
    node_id: NodeId,
    topology: SubnetTopology,
    conn_handles: PeerTable<H>,
    dialing: Vec<NodeId>,
    next_conn_id: ConnId,
    cancelled: bool,
    auth_failures: u64,
    dial_failures: u64,
}

impl<H> QuicTransport<H> {
    pub closed spec fn spec_node_id(&self) -> NodeId {
        self.node_id
    }

    /// The current members and their addresses.
    pub closed spec fn members(&self) -> Map<NodeId, PeerAddr> {
        self.topology@
    }

    /// The peer handle table: each connected peer and its connection.
    pub closed spec fn handles(&self) -> Map<NodeId, ConnId> {
        self.conn_handles@
    }

    /// Peers with an outbound dial in flight.
    pub closed spec fn in_flight(&self) -> Set<NodeId> {
        self.dialing@.to_set()
    }

    /// The identifier the next published connection gets.
    pub closed spec fn spec_next_conn_id(&self) -> ConnId {
        self.next_conn_id
    }

    pub closed spec fn is_cancelled(&self) -> bool {
        self.cancelled
    }

    pub closed spec fn spec_auth_failures(&self) -> u64 {
        self.auth_failures
    }

    pub closed spec fn spec_dial_failures(&self) -> u64 {
        self.dial_failures
    }

    /// The table holds one row per peer, every identifier in it was minted
    /// before the next one, and no dial is listed twice.
    pub closed spec fn wf(&self) -> bool {
        &&& self.conn_handles.wf()
        &&& self.topology.wf()
        &&& self.dialing@.no_duplicates()
        &&& forall|p: NodeId| #[trigger] self.conn_handles@.contains_key(p) ==> self.conn_handles@[p] < self.next_conn_id
    }

    /// A transport for `node_id` with no members, no connections and nothing
    /// in flight. Membership arrives through `on_topology_change`.
    pub fn start(node_id: NodeId) -> (r: Self)
        ensures
            r.wf(),
            r.spec_node_id() == node_id,
            r.members() == Map::<NodeId, PeerAddr>::empty(),
            r.handles() == Map::<NodeId, ConnId>::empty(),
            r.in_flight() == Set::<NodeId>::empty(),
            !r.is_cancelled(),
            r.spec_auth_failures() == 0,
            r.spec_dial_failures() == 0,
    {
        let r = QuicTransport {
            node_id,
            topology: SubnetTopology::new(Vec::new(), 0, 0),
            conn_handles: PeerTable::new(),
            dialing: Vec::new(),
            next_conn_id: 0,
            cancelled: false,
            auth_failures: 0,
            dial_failures: 0,
        };
        proof {
            assert(r.topology@ =~= Map::<NodeId, PeerAddr>::empty());
            assert(r.dialing@.to_set() =~= Set::<NodeId>::empty());
        }
        r
    }

    pub fn node_id(&self) -> (r: NodeId)
        ensures
            r == self.spec_node_id(),
    {
        self.node_id
    }

    pub fn auth_failures(&self) -> (r: u64)
        ensures
            r == self.spec_auth_failures(),
    {
        self.auth_failures
    }

    pub fn dial_failures(&self) -> (r: u64)
        ensures
            r == self.spec_dial_failures(),
    {
        self.dial_failures
    }

    /// The connection to use for a call to `peer_id`. Fails at once, without
    /// waiting for a connection to come up, when there is none.
    pub fn get_conn_handle(&self, peer_id: &NodeId) -> (r: Result<&PeerEntry<H>, SendError>)
        requires
            self.wf(),
        ensures
            match r {
                Ok(e) => self.handles().contains_key(*peer_id) && e.peer == *peer_id && e.conn_id == self.handles()[*peer_id],
                Err(e) => !self.handles().contains_key(*peer_id) && e is ConnectionUnavailable,
            },
    {
        match self.conn_handles.get(*peer_id) {
            Some(e) => Ok(e),
            None => Err(SendError::ConnectionUnavailable(String::from_str("Currently not connected to this peer"))),
        }
    }

    /// The connected peers and their connection identifiers, at this instant.
    pub fn peers(&self) -> (r: Vec<(NodeId, ConnId)>)
        requires
            self.wf(),
        ensures
            forall|i: int, j: int| 0 <= i < j < r@.len() ==> r@[i].0 != r@[j].0,
            forall|i: int| 0 <= i < r@.len() ==> #[trigger] self.handles().contains_key(r@[i].0) && self.handles()[r@[i].0] == r@[i].1,
            forall|k: NodeId| #[trigger] self.handles().contains_key(k) ==> exists|i: int| 0 <= i < r@.len() && r@[i] == (k, self.handles()[k]),
    {
        self.conn_handles.peers()
    }

    /// Brings the table in line with the current topology: connections to
    /// peers that left are taken out and handed back to be closed, and each
    /// member that should be dialed (see `should_dial`) is dialed once. Also
    /// run after a backoff, to retry members whose dials failed.
    #[verifier::rlimit(60)]
    pub fn reconcile(&mut self) -> (r: Reconciliation<H>)
        requires
            old(self).wf(),
        ensures
            final(self).wf(),
            final(self).spec_node_id() == old(self).spec_node_id(),
            final(self).members() == old(self).members(),
            final(self).spec_next_conn_id() == old(self).spec_next_conn_id(),
            final(self).is_cancelled() == old(self).is_cancelled(),
            final(self).spec_auth_failures() == old(self).spec_auth_failures(),
            final(self).spec_dial_failures() == old(self).spec_dial_failures(),
            old(self).is_cancelled() ==> {
                &&& final(self).handles() == old(self).handles()
                &&& final(self).in_flight() == old(self).in_flight()
                &&& r.to_dial@.len() == 0
                &&& r.to_close@.len() == 0
            },
            !old(self).is_cancelled() ==> {
                &&& final(self).handles() == old(self).handles().restrict(old(self).members().dom())
                &&& crate::peer_table::unique_peers(r.to_close@)
                &&& crate::peer_table::conn_map(r.to_close@) == old(self).handles().remove_keys(old(self).members().dom())
                &&& forall|a: int, b: int| 0 <= a < b < r.to_dial@.len() ==> r.to_dial@[a].0 != r.to_dial@[b].0
                &&& forall|a: int| 0 <= a < r.to_dial@.len() ==> {
                    &&& should_dial(old(self).spec_node_id(), old(self).members(), old(self).handles(), old(self).in_flight(), #[trigger] r.to_dial@[a].0)
                    &&& r.to_dial@[a].1 == old(self).members()[r.to_dial@[a].0]
                }
                &&& forall|p: NodeId| should_dial(old(self).spec_node_id(), old(self).members(), old(self).handles(), old(self).in_flight(), p)
                    ==> exists|a: int| 0 <= a < r.to_dial@.len() && #[trigger] r.to_dial@[a].0 == p
                &&& final(self).in_flight() == old(self).in_flight().union(Set::new(|p: NodeId|
                    should_dial(old(self).spec_node_id(), old(self).members(), old(self).handles(), old(self).in_flight(), p)))
            },
    {
        if self.cancelled {
            return Reconciliation { to_dial: Vec::new(), to_close: Vec::new() };
        }
        let ghost node = self.node_id;
        let ghost members = self.topology@;
        let ghost old_h = self.conn_handles@;
        let ghost old_f = self.dialing@.to_set();

        // Take out the connections to peers that left.
        let mut table: PeerTable<H> = PeerTable::new();
        std::mem::swap(&mut table, &mut self.conn_handles);
        let keys = table.peers();
        let mut to_close: Vec<PeerEntry<H>> = Vec::new();
        let mut i: usize = 0;
        while i < keys.len()
            invariant
                self.topology.wf(),
                self.topology@ == members,
                table.wf(),
                i <= keys@.len(),
                forall|a: int, b: int| 0 <= a < b < keys@.len() ==> keys@[a].0 != keys@[b].0,
                forall|a: int| 0 <= a < keys@.len() ==> #[trigger] old_h.contains_key(keys@[a].0) && old_h[keys@[a].0] == keys@[a].1,
                forall|k: NodeId| #[trigger] old_h.contains_key(k) ==> exists|a: int| 0 <= a < keys@.len() && keys@[a] == (k, old_h[k]),
                forall|k: NodeId| #[trigger] table@.contains_key(k) ==> old_h.contains_key(k) && table@[k] == old_h[k],
                forall|k: NodeId| old_h.contains_key(k) && members.contains_key(k) ==> #[trigger] table@.contains_key(k),
                forall|a: int| 0 <= a < i && !members.contains_key(keys@[a].0) ==> !table@.contains_key(#[trigger] keys@[a].0),
                forall|a: int| i <= a < keys@.len() ==> table@.contains_key(#[trigger] keys@[a].0),
                crate::peer_table::unique_peers(to_close@),
                crate::peer_table::conn_map(to_close@) == old_h.restrict(Set::new(|k: NodeId|
                    exists|a: int| 0 <= a < i && keys@[a].0 == k && !members.contains_key(k))),
            decreases keys@.len() - i,
        {
            let k = keys[i].0;
            let ghost before = to_close@;
            let ghost closed = Set::new(|x: NodeId| exists|a: int| 0 <= a < i && keys@[a].0 == x && !members.contains_key(x));
            if !self.topology.is_member(&k) {
                assert(table@.contains_key(keys@[i as int].0));
                match table.remove(k) {
                    Some(e) => {
                        to_close.push(e);
                        proof {
                            crate::peer_table::lemma_conn_map_unique(before);
                            assert(to_close@.drop_last() == before);
                            assert forall|a: int| 0 <= a < before.len() implies before[a].peer != k by {
                                assert(crate::peer_table::conn_map(before).contains_key(before[a].peer));
                                assert(closed.contains(before[a].peer));
                                let c = choose|c: int| 0 <= c < i && keys@[c].0 == before[a].peer && !members.contains_key(before[a].peer);
                                assert(!table@.contains_key(keys@[c].0) || c >= i);
                            }
                            assert(crate::peer_table::unique_peers(to_close@));
                            let closed2 = Set::new(|x: NodeId| exists|a: int| 0 <= a < i + 1 && keys@[a].0 == x && !members.contains_key(x));
                            assert(closed2 =~= closed.insert(k)) by {
                                assert forall|x: NodeId| closed2.contains(x) implies closed.insert(k).contains(x) by {
                                    let a = choose|a: int| 0 <= a < i + 1 && keys@[a].0 == x && !members.contains_key(x);
                                    if a < i {
                                        assert(closed.contains(x));
                                    }
                                }
                                assert forall|x: NodeId| closed.insert(k).contains(x) implies closed2.contains(x) by {
                                    if x == k {
                                        assert(keys@[i as int].0 == x);
                                    } else {
                                        let a = choose|a: int| 0 <= a < i && keys@[a].0 == x && !members.contains_key(x);
                                        assert(0 <= a < i + 1 && keys@[a].0 == x);
                                    }
                                }
                            }
                            assert(crate::peer_table::conn_map(to_close@) =~= old_h.restrict(closed2));
                        }
                    },
                    None => {},
                }
            } else {
                proof {
                    let closed2 = Set::new(|x: NodeId| exists|a: int| 0 <= a < i + 1 && keys@[a].0 == x && !members.contains_key(x));
                    assert(closed2 =~= closed) by {
                        assert forall|x: NodeId| closed2.contains(x) implies closed.contains(x) by {
                            let a = choose|a: int| 0 <= a < i + 1 && keys@[a].0 == x && !members.contains_key(x);
                            assert(a != i);
                        }
                        assert forall|x: NodeId| closed.contains(x) implies closed2.contains(x) by {
                            let a = choose|a: int| 0 <= a < i && keys@[a].0 == x && !members.contains_key(x);
                            assert(0 <= a < i + 1 && keys@[a].0 == x);
                        }
                    }
                }
            }
            i += 1;
        }
        proof {
            assert(table@ =~= old_h.restrict(members.dom())) by {
                assert forall|k: NodeId| old_h.contains_key(k) && !members.contains_key(k) implies !table@.contains_key(k) by {
                    let a = choose|a: int| 0 <= a < keys@.len() && keys@[a] == (k, old_h[k]);
                    assert(!table@.contains_key(keys@[a].0));
                }
            }
            let closed = Set::new(|x: NodeId| exists|a: int| 0 <= a < keys@.len() && keys@[a].0 == x && !members.contains_key(x));
            assert(old_h.restrict(closed) =~= old_h.remove_keys(members.dom())) by {
                assert forall|k: NodeId| old_h.contains_key(k) && !members.contains_key(k) implies closed.contains(k) by {
                    let a = choose|a: int| 0 <= a < keys@.len() && keys@[a] == (k, old_h[k]);
                    assert(keys@[a].0 == k);
                }
            }
        }
        std::mem::swap(&mut table, &mut self.conn_handles);

        // Dial the members that should be dialed.
        let mut dialing: Vec<NodeId> = Vec::new();
        std::mem::swap(&mut dialing, &mut self.dialing);
        let to_dial = select_dials(self.node_id, self.topology.iter(), &self.conn_handles, &mut dialing);
        proof {
            let h = self.conn_handles@;
            assert forall|p: NodeId| should_dial(node, members, h, old_f, p) == should_dial(node, members, old_h, old_f, p) by {
                if members.contains_key(p) {
                    assert(h.contains_key(p) == old_h.contains_key(p));
                }
            }
            assert(Set::new(|p: NodeId| should_dial(node, members, h, old_f, p)) =~= Set::new(|p: NodeId| should_dial(node, members, old_h, old_f, p)));
        }
        self.dialing = dialing;
        Reconciliation { to_dial, to_close }
    }

    /// Takes in a new topology snapshot, which replaces the previous one
    /// wholesale, and reconciles against it. After shutdown the snapshot is
    /// ignored.
    pub fn on_topology_change(&mut self, topology: SubnetTopology) -> (r: Reconciliation<H>)
        requires
            old(self).wf(),
            topology.wf(),
        ensures
            final(self).wf(),
            final(self).spec_node_id() == old(self).spec_node_id(),
            final(self).spec_next_conn_id() == old(self).spec_next_conn_id(),
            final(self).is_cancelled() == old(self).is_cancelled(),
            old(self).is_cancelled() ==> {
                &&& final(self).members() == old(self).members()
                &&& final(self).handles() == old(self).handles()
                &&& final(self).in_flight() == old(self).in_flight()
                &&& r.to_dial@.len() == 0
                &&& r.to_close@.len() == 0
            },
            !old(self).is_cancelled() ==> {
                &&& final(self).members() == topology@
                &&& final(self).handles() == old(self).handles().restrict(topology@.dom())
                &&& crate::peer_table::unique_peers(r.to_close@)
                &&& crate::peer_table::conn_map(r.to_close@) == old(self).handles().remove_keys(topology@.dom())
                &&& forall|a: int, b: int| 0 <= a < b < r.to_dial@.len() ==> r.to_dial@[a].0 != r.to_dial@[b].0
                &&& forall|a: int| 0 <= a < r.to_dial@.len() ==> {
                    &&& should_dial(old(self).spec_node_id(), topology@, old(self).handles(), old(self).in_flight(), #[trigger] r.to_dial@[a].0)
                    &&& r.to_dial@[a].1 == topology@[r.to_dial@[a].0]
                }
                &&& forall|p: NodeId| should_dial(old(self).spec_node_id(), topology@, old(self).handles(), old(self).in_flight(), p)
                    ==> exists|a: int| 0 <= a < r.to_dial@.len() && #[trigger] r.to_dial@[a].0 == p
                &&& final(self).in_flight() == old(self).in_flight().union(Set::new(|p: NodeId|
                    should_dial(old(self).spec_node_id(), topology@, old(self).handles(), old(self).in_flight(), p)))
            },
    {
        if self.cancelled {
            return Reconciliation { to_dial: Vec::new(), to_close: Vec::new() };
        }
        self.topology = topology;
        self.reconcile()
    }

    fn stop_dialing(&mut self, peer: NodeId)
        requires
            old(self).wf(),
        ensures
            final(self).wf(),
            final(self).in_flight() == old(self).in_flight().remove(peer),
            final(self).node_id == old(self).node_id,
            final(self).topology == old(self).topology,
            final(self).conn_handles == old(self).conn_handles,
            final(self).next_conn_id == old(self).next_conn_id,
            final(self).cancelled == old(self).cancelled,
            final(self).auth_failures == old(self).auth_failures,
            final(self).dial_failures == old(self).dial_failures,
    {
        match position(&self.dialing, peer) {
            Some(i) => {
                proof {
                    lemma_remove_unique(self.dialing@, i as int);
                }
                self.dialing.remove(i);
            },
            None => {
                assert(self.dialing@.to_set() =~= self.dialing@.to_set().remove(peer));
            },
        }
    }

    /// Records a dial that failed. The peer stays eligible: the next
    /// reconciliation pass dials it again.
    pub fn on_dial_failed(&mut self, peer: NodeId)
        requires
            old(self).wf(),
        ensures
            final(self).wf(),
            final(self).in_flight() == old(self).in_flight().remove(peer),
            final(self).spec_dial_failures() == (if old(self).spec_dial_failures() < u64::MAX { old(self).spec_dial_failures() + 1 } else { u64::MAX as int }),
            final(self).handles() == old(self).handles(),
            final(self).members() == old(self).members(),
            final(self).spec_node_id() == old(self).spec_node_id(),
            final(self).spec_next_conn_id() == old(self).spec_next_conn_id(),
            final(self).is_cancelled() == old(self).is_cancelled(),
            final(self).spec_auth_failures() == old(self).spec_auth_failures(),
    {
        self.stop_dialing(peer);
        self.dial_failures = self.dial_failures.saturating_add(1);
    }

    /// Takes in a connection that the runtime dialed (`outbound`) or
    /// accepted, with the peer authenticator's verdict on it, and decides
    /// whether to publish it. Only an authenticated connection to a current
    /// member, made in the direction the tie-break rule gives, is published.
    pub fn on_connection_established(&mut self, peer: NodeId, handle: H, authenticated: bool, outbound: bool) -> (r: Established<H>)
        requires
            old(self).wf(),
        ensures
            final(self).wf(),
            final(self).spec_node_id() == old(self).spec_node_id(),
            final(self).members() == old(self).members(),
            final(self).is_cancelled() == old(self).is_cancelled(),
            final(self).spec_dial_failures() == old(self).spec_dial_failures(),
            final(self).in_flight() == (if outbound { old(self).in_flight().remove(peer) } else { old(self).in_flight() }),
            (r is Stopped) == old(self).is_cancelled(),
            (r is Rejected) == (!old(self).is_cancelled() && !authenticated),
            (r is NotMember) == (!old(self).is_cancelled() && authenticated && !old(self).members().contains_key(peer)),
            (r is WrongDirection) == (!old(self).is_cancelled() && authenticated && old(self).members().contains_key(peer)
                && !outbound && !dials_to(peer, old(self).spec_node_id())),
            (r is IdsExhausted) == (!old(self).is_cancelled() && authenticated && old(self).members().contains_key(peer)
                && (outbound || dials_to(peer, old(self).spec_node_id())) && old(self).spec_next_conn_id() == u64::MAX),
            final(self).spec_auth_failures() == (if r is Rejected && old(self).spec_auth_failures() < u64::MAX {
                old(self).spec_auth_failures() + 1
            } else {
                old(self).spec_auth_failures() as int
            }),
            match r {
                Established::Published { conn_id, superseded } => {
                    &&& conn_id == old(self).spec_next_conn_id()
                    &&& final(self).spec_next_conn_id() == conn_id + 1
                    &&& final(self).handles() == old(self).handles().insert(peer, conn_id)
                    &&& match superseded {
                        Some(e) => old(self).handles().contains_key(peer) && e.peer == peer && e.conn_id == old(self).handles()[peer],
                        None => !old(self).handles().contains_key(peer),
                    }
                },
                Established::Rejected(h) => h == handle && final(self).handles() == old(self).handles() && final(self).spec_next_conn_id() == old(self).spec_next_conn_id(),
                Established::NotMember(h) => h == handle && final(self).handles() == old(self).handles() && final(self).spec_next_conn_id() == old(self).spec_next_conn_id(),
                Established::WrongDirection(h) => h == handle && final(self).handles() == old(self).handles() && final(self).spec_next_conn_id() == old(self).spec_next_conn_id(),
                Established::Stopped(h) => h == handle && final(self).handles() == old(self).handles() && final(self).spec_next_conn_id() == old(self).spec_next_conn_id(),
                Established::IdsExhausted(h) => h == handle && final(self).handles() == old(self).handles() && final(self).spec_next_conn_id() == old(self).spec_next_conn_id(),
            },
    {
        if outbound {
            self.stop_dialing(peer);
        }
        if self.cancelled {
            return Established::Stopped(handle);
        }
        if !authenticated {
            self.auth_failures = self.auth_failures.saturating_add(1);
            return Established::Rejected(handle);
        }
        if !self.topology.is_member(&peer) {
            return Established::NotMember(handle);
        }
        if !outbound && !(peer > self.node_id) {
            return Established::WrongDirection(handle);
        }
        if self.next_conn_id == u64::MAX {
            return Established::IdsExhausted(handle);
        }
        let conn_id = self.next_conn_id;
        self.next_conn_id = conn_id + 1;
        let superseded = self.conn_handles.insert(peer, conn_id, handle);
        Established::Published { conn_id, superseded }
    }

    /// Takes in the closing of a connection. The row is dropped only when it
    /// still holds that very connection: a newer one to the same peer stays.
    pub fn on_connection_closed(&mut self, peer: NodeId, conn_id: ConnId) -> (r: Option<PeerEntry<H>>)
        requires
            old(self).wf(),
        ensures
            final(self).wf(),
            final(self).spec_node_id() == old(self).spec_node_id(),
            final(self).members() == old(self).members(),
            final(self).in_flight() == old(self).in_flight(),
            final(self).spec_next_conn_id() == old(self).spec_next_conn_id(),
            final(self).is_cancelled() == old(self).is_cancelled(),
            final(self).spec_auth_failures() == old(self).spec_auth_failures(),
            final(self).spec_dial_failures() == old(self).spec_dial_failures(),
            (r is Some) == (old(self).handles().contains_key(peer) && old(self).handles()[peer] == conn_id),
            final(self).handles() == (if r is Some { old(self).handles().remove(peer) } else { old(self).handles() }),
            match r {
                Some(e) => e.peer == peer && e.conn_id == conn_id,
                None => true,
            },
    {
        let current = match self.conn_handles.get(peer) {
            Some(e) => e.conn_id == conn_id,
            None => false,
        };
        if current {
            self.conn_handles.remove(peer)
        } else {
            None
        }
    }

    /// Fires the cancellation: from now on nothing is published or dialed.
    /// Empties the table and hands back every connection it held, to be
    /// closed; dials in flight are forgotten.
    pub fn shutdown(&mut self) -> (r: Vec<PeerEntry<H>>)
        requires
            old(self).wf(),
        ensures
            final(self).wf(),
            final(self).is_cancelled(),
            final(self).handles() == Map::<NodeId, ConnId>::empty(),
            final(self).in_flight() == Set::<NodeId>::empty(),
            final(self).spec_node_id() == old(self).spec_node_id(),
            final(self).members() == old(self).members(),
            final(self).spec_next_conn_id() == old(self).spec_next_conn_id(),
            crate::peer_table::unique_peers(r@),
            crate::peer_table::conn_map(r@) == old(self).handles(),
    {
        self.cancelled = true;
        self.dialing = Vec::new();
        assert(self.dialing@.to_set() =~= Set::<NodeId>::empty());
        self.conn_handles.drain()
    }
}

} // verus!
