//! A cluster of Raft nodes over a network that may lose, delay, reorder and
//! duplicate messages, with nodes that may crash and restart from what they
//! have persisted, and what such a cluster never does.

use vstd::prelude::*;

use crate::raft::log;
use crate::raft::log::{LogEntryView, NodeId, Term};
use crate::raft::message::MessageView;
use crate::raft::safety;
use crate::raft::storage;
use crate::raft::storage::{HardState, StorageView};
use crate::raft::transition;
use crate::raft::transition::{EffectView, EventView, NodeView};

verus! {

/// A message on its way.
pub struct Packet {
    pub from: NodeId,
    pub to: NodeId,
    pub message: MessageView,
}

/// The state of a whole cluster.
#[verifier::ext_equal]
pub struct Cluster {
    pub nodes: Map<NodeId, NodeView>,
    /// Every packet ever sent: each may be delivered late, often or never.
    pub packets: Set<Packet>,
    /// What each node has persisted.
    pub disks: Map<NodeId, StorageView>,
    /// What each node's state machine has consumed since its last start.
    pub applied: Map<NodeId, Seq<LogEntryView>>,
    /// Every leader of a term there has ever been.
    pub leaders: Set<(Term, NodeId)>,
}

/// The packets among some effects of a node.
pub open spec fn sent(from: NodeId, effects: Seq<EffectView>) -> Set<Packet> {
    Set::new(|p: Packet| p.from == from && effects.contains(EffectView::Send(p.to, p.message)))
}

/// The durable state after some effects of a node, carried out in order. The
/// hard state written is that of the node after its step.
pub open spec fn written(disk: StorageView, node: NodeView, effects: Seq<EffectView>) -> StorageView
    decreases effects.len(),
{
    if effects.len() == 0 {
        disk
    } else {
        let before = written(disk, node, effects.drop_last());
        match effects.last() {
            EffectView::Persist => StorageView {
                hard_state: HardState {
                    current_term: node.current_term,
                    voted_for: node.voted_for,
                },
                ..before
            },
            EffectView::PersistTruncate(from) => StorageView {
                entries: storage::cut(before.entries, from),
                ..before
            },
            EffectView::PersistEntries(entries) => StorageView {
                entries: storage::stored_all(before.entries, entries),
                ..before
            },
            _ => before,
        }
    }
}

/// What a state machine has consumed after some effects.
pub open spec fn consumed(stream: Seq<LogEntryView>, effects: Seq<EffectView>) -> Seq<LogEntryView>
    decreases effects.len(),
{
    if effects.len() == 0 {
        stream
    } else {
        let before = consumed(stream, effects.drop_last());
        match effects.last() {
            EffectView::Apply(entry) => before.push(entry),
            _ => before,
        }
    }
}

/// A node that starts again from its durable state.
pub open spec fn restarted(node: NodeView, disk: StorageView, timeout: u32) -> NodeView {
    NodeView {
        current_term: disk.hard_state.current_term,
        voted_for: disk.hard_state.voted_for,
        log: disk.entries,
        ..transition::fresh(node.id, node.peers, timeout)
    }
}

/// What can happen next in a cluster.
pub enum Move {
    /// A node takes an event: a tick, a packet addressed to it, a proposal.
    Step(NodeId, EventView),
    /// A node crashes and starts again.
    Restart(NodeId, u32),
    /// A node draws another election timeout.
    Rearm(NodeId, u32),
}

/// A cluster that has just started with the given members.
pub open spec fn initial(c: Cluster, members: Set<NodeId>) -> bool {
    &&& members.finite()
    &&& c.nodes.dom() == members
    &&& c.disks.dom() == members
    &&& c.applied.dom() == members
    &&& c.packets == Set::<Packet>::empty()
    &&& c.leaders == Set::<(Term, NodeId)>::empty()
    &&& forall|id: NodeId| #[trigger]
        members.contains(id) ==> {
            &&& exists|peers: Seq<NodeId>, timeout: u32|
                {
                    &&& #[trigger] peers_of(members, id, peers)
                    &&& c.nodes[id] == #[trigger] transition::fresh(id, peers, timeout)
                }
            &&& c.disks[id] == (StorageView {
                hard_state: HardState { current_term: 0, voted_for: None },
                entries: Seq::empty(),
            })
            &&& c.applied[id] == Seq::<LogEntryView>::empty()
        }
}

/// The peers of a member are the other members, each once.
pub open spec fn peers_of(members: Set<NodeId>, id: NodeId, peers: Seq<NodeId>) -> bool {
    &&& peers.no_duplicates()
    &&& forall|p: NodeId| #[trigger]
        peers.contains(p) <==> members.contains(p) && p != id
}

/// One move of a cluster.
pub open spec fn moves(c: Cluster, m: Move, d: Cluster) -> bool {
    match m {
        Move::Step(id, event) => {
            let (node, effects) = transition::step(c.nodes[id], event);
            &&& c.nodes.contains_key(id)
            &&& transition::step_fits(c.nodes[id], event)
            &&& event matches EventView::Message(from, message) ==> c.packets.contains(
                Packet { from, to: id, message },
            )
            &&& d == Cluster {
                nodes: c.nodes.insert(id, node),
                packets: c.packets.union(sent(id, effects)),
                disks: c.disks.insert(id, written(c.disks[id], node, effects)),
                applied: c.applied.insert(id, consumed(c.applied[id], effects)),
                leaders: if node.role is Leader {
                    c.leaders.insert((node.current_term, id))
                } else {
                    c.leaders
                },
            }
        },
        Move::Restart(id, timeout) => {
            &&& c.nodes.contains_key(id)
            &&& d == Cluster {
                nodes: c.nodes.insert(id, restarted(c.nodes[id], c.disks[id], timeout)),
                applied: c.applied.insert(id, Seq::empty()),
                ..c
            }
        },
        Move::Rearm(id, timeout) => {
            &&& c.nodes.contains_key(id)
            &&& d == Cluster {
                nodes: c.nodes.insert(
                    id,
                    NodeView { election_timeout_ticks: timeout, ..c.nodes[id] },
                ),
                ..c
            }
        },
    }
}

/// A run of a cluster: it starts fresh and makes one move after the other.
pub open spec fn run(members: Set<NodeId>, states: Seq<Cluster>, steps: Seq<Move>) -> bool {
    &&& states.len() == steps.len() + 1
    &&& initial(states[0], members)
    &&& forall|i: int|
        0 <= i < steps.len() ==> #[trigger] moves(states[i], steps[i], states[i + 1])
}

/// Law: election safety: no term ever has two leaders.
pub proof fn election_safety(
    members: Set<NodeId>,
    states: Seq<Cluster>,
    steps: Seq<Move>,
    at: int,
    term: Term,
    a: NodeId,
    b: NodeId,
)
    requires
        run(members, states, steps),
        0 <= at < states.len(),
        states[at].leaders.contains((term, a)),
        states[at].leaders.contains((term, b)),
    ensures
        a == b,
{
    let h = safety::run_ok(members, states, steps, at);
}

/// Law: whoever leads a term is on record as its leader, then and ever after.
pub proof fn leaders_are_recorded(
    members: Set<NodeId>,
    states: Seq<Cluster>,
    steps: Seq<Move>,
    at: int,
    later: int,
    id: NodeId,
)
    requires
        run(members, states, steps),
        0 <= at <= later < states.len(),
        members.contains(id),
        states[at].nodes[id].role is Leader,
    ensures
        states[later].leaders.contains((states[at].nodes[id].current_term, id)),
    decreases later,
{
    let now = states[later];
    if at < later {
        leaders_are_recorded(members, states, steps, at, later - 1, id);
        assert(moves(states[later - 1], steps[later - 1], states[later - 1 + 1]));
    } else if at > 0 {
        let before = states[at - 1];
        assert(moves(before, steps[at - 1], states[at - 1 + 1]));
        let h = safety::run_ok(members, states, steps, at - 1);
        assert(safety::member_ok(h, members, before, id));
        if before.nodes[id].role is Leader {
            leaders_are_recorded(members, states, steps, at - 1, at - 1, id);
        }
        match steps[at - 1] {
            Move::Step(who, event) => {
                if who != id {
                    assert(before.nodes[id] == now.nodes[id]);
                }
            },
            Move::Restart(who, timeout) => {
                if who != id {
                    assert(before.nodes[id] == now.nodes[id]);
                }
            },
            Move::Rearm(who, timeout) => {
                assert(before.nodes[id].role == now.nodes[id].role);
                assert(before.nodes[id].current_term == now.nodes[id].current_term);
            },
        }
    } else {
        assert(initial(states[0], members));
    }
}

/// Law: log matching: where two logs have an entry of the same term at the same
/// index, they are the same up to there.
pub proof fn log_matching(
    members: Set<NodeId>,
    states: Seq<Cluster>,
    steps: Seq<Move>,
    at: int,
    a: NodeId,
    b: NodeId,
    index: int,
)
    requires
        run(members, states, steps),
        0 <= at < states.len(),
        members.contains(a),
        members.contains(b),
        1 <= index <= states[at].nodes[a].log.len(),
        index <= states[at].nodes[b].log.len(),
        states[at].nodes[a].log[index - 1].term == states[at].nodes[b].log[index - 1].term,
    ensures
        states[at].nodes[a].log.take(index) == states[at].nodes[b].log.take(index),
        states[at].nodes[a].log[index - 1] == states[at].nodes[b].log[index - 1],
{
    let h = safety::run_ok(members, states, steps, at);
    let x = states[at].nodes[a].log;
    let y = states[at].nodes[b].log;
    assert(safety::member_ok(h, members, states[at], a));
    assert(safety::member_ok(h, members, states[at], b));
    assert(safety::grounded(h, x, index - 1));
    assert(safety::grounded(h, y, index - 1));
    assert(x.take(index)[index - 1] == y.take(index)[index - 1]);
}

/// Law: state machine safety: of any two state machines, one has consumed a
/// beginning of what the other has consumed.
pub proof fn state_machine_safety(
    members: Set<NodeId>,
    states: Seq<Cluster>,
    steps: Seq<Move>,
    at: int,
    a: NodeId,
    b: NodeId,
)
    requires
        run(members, states, steps),
        0 <= at < states.len(),
        members.contains(a),
        members.contains(b),
        states[at].applied[a].len() <= states[at].applied[b].len(),
    ensures
        states[at].applied[b].take(states[at].applied[a].len() as int) == states[at].applied[a],
{
    let h = safety::run_ok(members, states, steps, at);
    assert(safety::member_ok(h, members, states[at], a));
    assert(safety::member_ok(h, members, states[at], b));
    let m = states[at].nodes[a];
    let n = states[at].nodes[b];
    let count = states[at].applied[a].len() as int;
    safety::committed_agree(h, members, m, n, count);
    assert(n.log.take(n.last_applied as int).take(count) =~= n.log.take(count));
}

/// Law: a state machine has consumed exactly the entries of its node's log up to
/// the one applied last, each once and in their order.
pub proof fn machines_follow_their_logs(
    members: Set<NodeId>,
    states: Seq<Cluster>,
    steps: Seq<Move>,
    at: int,
    id: NodeId,
)
    requires
        run(members, states, steps),
        0 <= at < states.len(),
        members.contains(id),
    ensures
        ({
            let n = states[at].nodes[id];
            &&& n.last_applied <= n.log.len()
            &&& states[at].applied[id] == n.log.take(n.last_applied as int)
        }),
{
    let h = safety::run_ok(members, states, steps, at);
    assert(safety::member_ok(h, members, states[at], id));
}

/// Law: leader completeness: what any node has committed is in the log of every
/// leader of the same or a later term.
pub proof fn leader_completeness(
    members: Set<NodeId>,
    states: Seq<Cluster>,
    steps: Seq<Move>,
    at: int,
    node: NodeId,
    leader: NodeId,
)
    requires
        run(members, states, steps),
        0 <= at < states.len(),
        members.contains(node),
        members.contains(leader),
        states[at].nodes[leader].role is Leader,
        states[at].nodes[leader].current_term >= states[at].nodes[node].current_term,
    ensures
        ({
            let n = states[at].nodes[node];
            let l = states[at].nodes[leader];
            &&& n.commit_index <= n.log.len()
            &&& n.commit_index <= l.log.len()
            &&& l.log.take(n.commit_index as int) == n.log.take(n.commit_index as int)
        }),
{
    let h = safety::run_ok(members, states, steps, at);
    assert(safety::member_ok(h, members, states[at], node));
    assert(safety::member_ok(h, members, states[at], leader));
    let n = states[at].nodes[node];
    let l = states[at].nodes[leader];
    safety::backed_wider(
        h,
        members,
        n.log,
        n.commit_index as int,
        n.current_term as int,
        l.current_term as int,
    );
    safety::backed_in_reign(h, members, n.log, n.commit_index as int, l.current_term);
}

/// Law: durability: after every step, with its effects carried out in order,
/// the disk holds the node's term, vote and log, so a restart finds them again.
pub proof fn restart_recovers(
    members: Set<NodeId>,
    states: Seq<Cluster>,
    steps: Seq<Move>,
    at: int,
    id: NodeId,
    timeout: u32,
)
    requires
        run(members, states, steps),
        0 <= at < states.len(),
        members.contains(id),
    ensures
        ({
            let n = states[at].nodes[id];
            let again = restarted(n, states[at].disks[id], timeout);
            &&& again.current_term == n.current_term
            &&& again.voted_for == n.voted_for
            &&& again.log == n.log
            &&& again.commit_index == 0
            &&& again.role is Follower
        }),
{
    let h = safety::run_ok(members, states, steps, at);
    assert(safety::member_ok(h, members, states[at], id));
}

} // verus!
