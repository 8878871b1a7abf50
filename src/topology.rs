//! Topology snapshots: which peers belong to the subnet, and where to reach them.
use vstd::prelude::*;

verus! {

/// Opaque identity of a subnet member, stable across reconnections.
pub type NodeId = u64;

/// A version of the registry that membership is read from.
pub type RegistryVersion = u64;

/// A network address at which a peer accepts connections.
#[derive(Clone, Copy, Debug, PartialEq, Eq, Structural)]
pub enum PeerAddr {
    V4 { ip: u32, port: u16 },
    V6 { ip6: u128, port: u16 },
}

impl PeerAddr {
    /// An address can be dialed when neither its host nor its port is the
    /// unspecified (all zero) value.
    pub open spec fn is_dialable(self) -> bool {
        match self {
            PeerAddr::V4 { ip, port } => ip != 0 && port != 0,
            PeerAddr::V6 { ip6, port } => ip6 != 0 && port != 0,
        }
    }

    pub fn dialable(&self) -> (r: bool)
        ensures
            r == self.is_dialable(),
    {
        match self {
            PeerAddr::V4 { ip, port } => *ip != 0 && *port != 0,
            PeerAddr::V6 { ip6, port } => *ip6 != 0 && *port != 0,
        }
    }
}

/// The map that a list of (peer, address) pairs describes; a later pair for
/// the same peer replaces an earlier one.
pub open spec fn map_of(s: Seq<(NodeId, PeerAddr)>) -> Map<NodeId, PeerAddr>
    decreases s.len(),
{
    if s.len() == 0 {
        Map::empty()
    } else {
        map_of(s.drop_last()).insert(s.last().0, s.last().1)
    }
}

/// No peer occurs twice in the list.
pub open spec fn unique_keys(s: Seq<(NodeId, PeerAddr)>) -> bool {
    forall|i: int, j: int| 0 <= i < j < s.len() ==> s[i].0 != s[j].0
}

/// For a list without repeated peers, the described map holds exactly its pairs.
pub proof fn lemma_map_of_unique(s: Seq<(NodeId, PeerAddr)>)
    requires
        unique_keys(s),
    ensures
        forall|k: NodeId| #[trigger] map_of(s).contains_key(k) <==> exists|i: int| 0 <= i < s.len() && s[i].0 == k,
        forall|i: int| 0 <= i < s.len() ==> #[trigger] map_of(s)[s[i].0] == s[i].1,
    decreases s.len(),
{
    if s.len() > 0 {
        let t = s.drop_last();
        assert(unique_keys(t));
        lemma_map_of_unique(t);
        assert(!map_of(t).contains_key(s.last().0)) by {
            if map_of(t).contains_key(s.last().0) {
                let i = choose|i: int| 0 <= i < t.len() && t[i].0 == s.last().0;
                assert(s[i].0 == s[s.len() - 1].0);
            }
        }
        assert forall|k: NodeId| #[trigger] map_of(s).contains_key(k) <==> exists|i: int| 0 <= i < s.len() && s[i].0 == k by {
            if map_of(s).contains_key(k) && k != s.last().0 {
                let i = choose|i: int| 0 <= i < t.len() && t[i].0 == k;
                assert(s[i].0 == k);
            }
            if exists|i: int| 0 <= i < s.len() && s[i].0 == k {
                let i = choose|i: int| 0 <= i < s.len() && s[i].0 == k;
                if i < t.len() {
                    assert(t[i].0 == k);
                }
            }
        }
        assert forall|i: int| 0 <= i < s.len() implies #[trigger] map_of(s)[s[i].0] == s[i].1 by {
            if i < t.len() {
                assert(t[i] == s[i]);
            }
        }
    }
}

/// The position of `node` in the list, if it occurs there.
fn find_node(nodes: &Vec<(NodeId, PeerAddr)>, node: NodeId) -> (r: Option<usize>)
    ensures
        match r {
            Some(i) => i < nodes@.len() && nodes@[i as int].0 == node,
            None => forall|k: int| 0 <= k < nodes@.len() ==> nodes@[k].0 != node,
        },
{
    let mut i: usize = 0;
    while i < nodes.len()
        invariant
            i <= nodes@.len(),
            forall|k: int| 0 <= k < i ==> nodes@[k].0 != node,
        decreases nodes@.len() - i,
    {
        if nodes[i].0 == node {
            return Some(i);
        }
        i += 1;
    }
    None
}

/// Holds the addresses of all peers in a subnet, and the range of registry
/// versions for which this membership is valid.
#[derive(Clone, Debug)]
pub struct SubnetTopology {
    subnet_nodes: Vec<(NodeId, PeerAddr)>,
    earliest_registry_version: RegistryVersion,
    latest_registry_version: RegistryVersion,
}

impl View for SubnetTopology {
    type V = Map<NodeId, PeerAddr>;

    closed spec fn view(&self) -> Map<NodeId, PeerAddr> {
        map_of(self.subnet_nodes@)
    }
}

impl SubnetTopology {
    /// Each member is listed once.
    pub closed spec fn wf(&self) -> bool {
        unique_keys(self.subnet_nodes@)
    }

    pub closed spec fn spec_earliest_registry_version(&self) -> RegistryVersion {
        self.earliest_registry_version
    }

    pub closed spec fn spec_latest_registry_version(&self) -> RegistryVersion {
        self.latest_registry_version
    }

    /// Builds a snapshot from (peer, address) pairs; where a peer is listed
    /// more than once, its last address is kept.
    pub fn new(
        subnet_nodes: Vec<(NodeId, PeerAddr)>,
        earliest_registry_version: RegistryVersion,
        latest_registry_version: RegistryVersion,
    ) -> (r: Self)
        ensures
            r.wf(),
            r@ == map_of(subnet_nodes@),
            r.spec_earliest_registry_version() == earliest_registry_version,
            r.spec_latest_registry_version() == latest_registry_version,
    {
        let mut nodes: Vec<(NodeId, PeerAddr)> = Vec::new();
        let mut i: usize = 0;
        while i < subnet_nodes.len()
            invariant
                i <= subnet_nodes@.len(),
                unique_keys(nodes@),
                map_of(nodes@) == map_of(subnet_nodes@.subrange(0, i as int)),
            decreases subnet_nodes@.len() - i,
        {
            let (peer, addr) = subnet_nodes[i];
            let ghost before = nodes@;
            proof {
                lemma_map_of_unique(before);
            }
            match find_node(&nodes, peer) {
                Some(j) => {
                    nodes.set(j, (peer, addr));
                    proof {
                        assert(unique_keys(nodes@));
                        lemma_map_of_unique(nodes@);
                        assert(map_of(nodes@) =~= map_of(before).insert(peer, addr)) by {
                            assert forall|k: NodeId| #[trigger] map_of(nodes@).contains_key(k) <==> map_of(before).insert(peer, addr).contains_key(k) by {
                                if map_of(before).contains_key(k) {
                                    let t = choose|t: int| 0 <= t < before.len() && before[t].0 == k;
                                    assert(nodes@[t].0 == k);
                                }
                                if k == peer {
                                    assert(nodes@[j as int].0 == k);
                                }
                                if map_of(nodes@).contains_key(k) {
                                    let t = choose|t: int| 0 <= t < nodes@.len() && nodes@[t].0 == k;
                                    assert(before[t].0 == k || t == j);
                                }
                            }
                            assert forall|k: NodeId| #[trigger] map_of(nodes@).contains_key(k) implies map_of(nodes@)[k] == map_of(before).insert(peer, addr)[k] by {
                                let t = choose|t: int| 0 <= t < nodes@.len() && nodes@[t].0 == k;
                                assert(map_of(nodes@)[nodes@[t].0] == nodes@[t].1);
                                if t != j {
                                    assert(map_of(before)[before[t].0] == before[t].1);
                                }
                            }
                        }
                    }
                },
                None => {
                    nodes.push((peer, addr));
                    proof {
                        assert(nodes@.drop_last() == before);
                    }
                },
            }
            proof {
                assert(subnet_nodes@.subrange(0, i + 1).drop_last() == subnet_nodes@.subrange(0, i as int));
            }
            i += 1;
        }
        proof {
            assert(subnet_nodes@.subrange(0, subnet_nodes@.len() as int) == subnet_nodes@);
        }
        SubnetTopology { subnet_nodes: nodes, earliest_registry_version, latest_registry_version }
    }

    /// The members with their addresses, each member once.
    pub fn iter(&self) -> (r: &Vec<(NodeId, PeerAddr)>)
        requires
            self.wf(),
        ensures
            unique_keys(r@),
            map_of(r@) == self@,
    {
        &self.subnet_nodes
    }

    pub fn is_member(&self, node: &NodeId) -> (r: bool)
        requires
            self.wf(),
        ensures
            r == self@.contains_key(*node),
    {
        proof {
            lemma_map_of_unique(self.subnet_nodes@);
        }
        match find_node(&self.subnet_nodes, *node) {
            Some(i) => {
                assert(self.subnet_nodes@[i as int].0 == *node);
                true
            },
            None => false,
        }
    }

    pub fn get_addr(&self, node: &NodeId) -> (r: Option<PeerAddr>)
        requires
            self.wf(),
        ensures
            r == (if self@.contains_key(*node) { Some(self@[*node]) } else { None::<PeerAddr> }),
    {
        proof {
            lemma_map_of_unique(self.subnet_nodes@);
        }
        match find_node(&self.subnet_nodes, *node) {
            Some(i) => {
                assert(map_of(self.subnet_nodes@)[self.subnet_nodes@[i as int].0] == self.subnet_nodes@[i as int].1);
                Some(self.subnet_nodes[i].1)
            },
            None => None,
        }
    }

    /// The identifiers of all members.
    pub fn get_subnet_nodes(&self) -> (r: std::collections::BTreeSet<NodeId>)
        requires
            self.wf(),
        ensures
            r@ == self@.dom(),
    {
        broadcast use vstd::laws_cmp::group_laws_cmp;
        proof {
            lemma_map_of_unique(self.subnet_nodes@);
        }
        let mut out: std::collections::BTreeSet<NodeId> = std::collections::BTreeSet::new();
        let mut i: usize = 0;
        while i < self.subnet_nodes.len()
            invariant
                i <= self.subnet_nodes@.len(),
                out@ == Set::new(|k: NodeId| exists|a: int| 0 <= a < i && self.subnet_nodes@[a].0 == k),
            decreases self.subnet_nodes@.len() - i,
        {
            let ghost before = out@;
            out.insert(self.subnet_nodes[i].0);
            proof {
                let k0 = self.subnet_nodes@[i as int].0;
                assert(out@ =~= Set::new(|k: NodeId| exists|a: int| 0 <= a < i + 1 && self.subnet_nodes@[a].0 == k)) by {
                    assert forall|k: NodeId| (exists|a: int| 0 <= a < i + 1 && self.subnet_nodes@[a].0 == k) implies out@.contains(k) by {
                        let a = choose|a: int| 0 <= a < i + 1 && self.subnet_nodes@[a].0 == k;
                        if a < i {
                            assert(before.contains(k));
                        }
                    }
                    assert forall|k: NodeId| out@.contains(k) implies (exists|a: int| 0 <= a < i + 1 && self.subnet_nodes@[a].0 == k) by {
                        if k == k0 {
                            assert(self.subnet_nodes@[i as int].0 == k);
                        } else {
                            let a = choose|a: int| 0 <= a < i && self.subnet_nodes@[a].0 == k;
                            assert(0 <= a < i + 1);
                        }
                    }
                }
            }
            i += 1;
        }
        assert(out@ =~= self@.dom());
        out
    }

    pub fn latest_registry_version(&self) -> (r: RegistryVersion)
        ensures
            r == self.spec_latest_registry_version(),
    {
        self.latest_registry_version
    }

    pub fn earliest_registry_version(&self) -> (r: RegistryVersion)
        ensures
            r == self.spec_earliest_registry_version(),
    {
        self.earliest_registry_version
    }
}

} // verus!
