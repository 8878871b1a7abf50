//! What a run of the connection manager settles on.
use vstd::prelude::*;

use crate::peer_table::ConnId;
use crate::topology::NodeId;

verus! {

/// The connected peers after a sequence of connection outcomes, each a peer
/// and whether the authenticator accepted it: an accepted connection is
/// published, a rejected one leaves the table as it was.
pub open spec fn settle(keys: Set<NodeId>, outcomes: Seq<(NodeId, bool)>) -> Set<NodeId>
    decreases outcomes.len(),
{
    if outcomes.len() == 0 {
        keys
    } else {
        let rest = settle(keys, outcomes.drop_last());
        if outcomes.last().1 {
            rest.insert(outcomes.last().0)
        } else {
            rest
        }
    }
}

proof fn lemma_settle(keys: Set<NodeId>, outcomes: Seq<(NodeId, bool)>)
    ensures
        forall|p: NodeId| #[trigger] settle(keys, outcomes).contains(p) <==> keys.contains(p)
            || exists|i: int| 0 <= i < outcomes.len() && outcomes[i] == (p, true),
    decreases outcomes.len(),
{
    if outcomes.len() > 0 {
        let t = outcomes.drop_last();
        lemma_settle(keys, t);
        let last = outcomes.last();
        assert(settle(keys, outcomes) == (if last.1 { settle(keys, t).insert(last.0) } else { settle(keys, t) }));
        assert forall|p: NodeId| #[trigger] settle(keys, outcomes).contains(p) <==> keys.contains(p)
            || exists|i: int| 0 <= i < outcomes.len() && outcomes[i] == (p, true) by {
            if last.1 && last.0 == p {
                assert(outcomes[outcomes.len() - 1] == (p, true));
            }
            if exists|i: int| 0 <= i < t.len() && t[i] == (p, true) {
                let i = choose|i: int| 0 <= i < t.len() && t[i] == (p, true);
                assert(outcomes[i] == (p, true));
            }
            if exists|i: int| 0 <= i < outcomes.len() && outcomes[i] == (p, true) {
                let i = choose|i: int| 0 <= i < outcomes.len() && outcomes[i] == (p, true);
                if i < t.len() {
                    assert(t[i] == (p, true));
                }
            }
        }
    }
}

/// Eventual convergence. Reconciling a table against membership `members`
/// keeps only the members' rows; if then every member without a connection
/// gets one connection outcome, the connected peers are exactly the members
/// whose connection the authenticator did not reject.
pub proof fn lemma_reconciliation_converges(
    handles: Map<NodeId, ConnId>,
    members: Set<NodeId>,
    outcomes: Seq<(NodeId, bool)>,
)
    requires
        forall|i: int| 0 <= i < outcomes.len() ==> members.contains(#[trigger] outcomes[i].0)
            && !handles.contains_key(outcomes[i].0),
        forall|p: NodeId| members.contains(p) && !handles.contains_key(p)
            ==> exists|i: int| 0 <= i < outcomes.len() && #[trigger] outcomes[i].0 == p,
        forall|i: int, j: int| 0 <= i < j < outcomes.len() ==> outcomes[i].0 != outcomes[j].0,
    ensures
        settle(handles.restrict(members).dom(), outcomes) == members.filter(|p: NodeId|
            !exists|i: int| 0 <= i < outcomes.len() && outcomes[i] == (p, false)),
{
    let keys = handles.restrict(members).dom();
    lemma_settle(keys, outcomes);
    let goal = members.filter(|p: NodeId| !exists|i: int| 0 <= i < outcomes.len() && outcomes[i] == (p, false));
    assert forall|p: NodeId| settle(keys, outcomes).contains(p) <==> goal.contains(p) by {
        if keys.contains(p) {
            if exists|i: int| 0 <= i < outcomes.len() && outcomes[i] == (p, false) {
                let i = choose|i: int| 0 <= i < outcomes.len() && outcomes[i] == (p, false);
                assert(!handles.contains_key(outcomes[i].0));
            }
        }
        if exists|i: int| 0 <= i < outcomes.len() && outcomes[i] == (p, true) {
            let i = choose|i: int| 0 <= i < outcomes.len() && outcomes[i] == (p, true);
            assert(members.contains(outcomes[i].0));
            if exists|j: int| 0 <= j < outcomes.len() && outcomes[j] == (p, false) {
                let j = choose|j: int| 0 <= j < outcomes.len() && outcomes[j] == (p, false);
                assert(i != j);
                if i < j {
                    assert(outcomes[i].0 != outcomes[j].0);
                } else {
                    assert(outcomes[j].0 != outcomes[i].0);
                }
            }
        }
        if goal.contains(p) && !keys.contains(p) {
            assert(members.contains(p) && !handles.contains_key(p));
            let i = choose|i: int| 0 <= i < outcomes.len() && #[trigger] outcomes[i].0 == p;
            assert(outcomes[i] != (p, false));
            assert(outcomes[i] == (p, true));
        }
    }
    assert(settle(keys, outcomes) =~= goal);
}

} // verus!
