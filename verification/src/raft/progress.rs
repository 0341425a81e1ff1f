//! What a node gets done: elections that start and are won, entries that are
//! sent, taken in and committed.

use vstd::prelude::*;

use crate::raft::laws;
use crate::raft::log::{LogEntryView, LogIndex, NodeId};
use crate::raft::machine::{Effect, Event, RaftNode};
use crate::raft::message::{
    AppendEntriesResp, AppendEntriesView, Message, MessageView, RequestVoteReq, RequestVoteResp,
};
use crate::raft::safety;
use crate::raft::transition;
use crate::raft::transition::{EffectView, EventView, NodeView, RoleView};

verus! {

/// Law: a majority is more than half of the cluster, and the least number that
/// is.
pub proof fn majorities_are_more_than_half(peers: nat)
    ensures
        2 * transition::majority(peers) > peers + 1,
        2 * (transition::majority(peers) - 1) <= peers + 1,
{
}

/// Law: a node that hears nothing waits until its timeout, and does nothing but
/// count. Then it stands for the next term: it votes for itself, writes that
/// down, and asks every peer for its vote, telling how far its own log goes.
/// Without peers it has won.
pub proof fn silence_starts_an_election(n: NodeView)
    requires
        transition::step_fits(n, EventView::Tick),
        !(n.role is Leader),
    ensures
        ({
            let (next, effects) = transition::step(n, EventView::Tick);
            if n.ticks_since_reset + 1 < n.election_timeout_ticks {
                &&& effects.len() == 0
                &&& next == (NodeView {
                    ticks_since_reset: (n.ticks_since_reset + 1) as u32,
                    ..n
                })
            } else {
                &&& next.current_term == n.current_term + 1
                &&& next.voted_for == Some(n.id)
                &&& next.ticks_since_reset == 0
                &&& next.log == n.log
                &&& next.commit_index == n.commit_index
                &&& next.last_applied == n.last_applied
                &&& next.peers == n.peers
                &&& next.id == n.id
                &&& n.peers.len() == 0 ==> next.role is Leader && next.leader_hint == Some(n.id)
                &&& n.peers.len() > 0 ==> next.leader_hint is None && next.role
                    == (RoleView::Candidate { votes: set![n.id] })
                &&& effects.len() == 1 + n.peers.len()
                &&& effects[0] is Persist
                &&& forall|i: int|
                    0 <= i < n.peers.len() ==> effects[1 + i] == EffectView::Send(
                        #[trigger] n.peers[i],
                        MessageView::RequestVote(
                            RequestVoteReq {
                                term: (n.current_term + 1) as u64,
                                candidate_id: n.id,
                                last_log_index: n.log.len() as u64,
                                last_log_term: if n.log.len() == 0 {
                                    0
                                } else {
                                    n.log[n.log.len() - 1].term
                                },
                            },
                        ),
                    )
            }
        }),
{
    assert(set![n.id] =~= Set::<NodeId>::empty().insert(n.id));
    assert(Set::<NodeId>::empty().insert(n.id).len() == 1);
}

/// Law: a leader says at every third tick how things stand, to every peer, and
/// nothing at the ticks between. It stays leader and changes nothing else.
pub proof fn leaders_speak_at_every_third_tick(n: NodeView, i: int)
    requires
        transition::step_fits(n, EventView::Tick),
        n.role is Leader,
        0 <= i < n.peers.len(),
    ensures
        ({
            let (next, effects) = transition::step(n, EventView::Tick);
            if n.ticks_since_reset < 2 {
                &&& effects.len() == 0
                &&& next == (NodeView {
                    ticks_since_reset: (n.ticks_since_reset + 1) as u32,
                    ..n
                })
            } else {
                &&& next == (NodeView { ticks_since_reset: 0, ..n })
                &&& effects.len() == n.peers.len()
                &&& match effects[i] {
                    EffectView::Send(to, MessageView::AppendEntries(append)) => to == n.peers[i]
                        && sends_the_rest(n, to, append),
                    _ => false,
                }
            }
        }),
{
    let later = NodeView { ticks_since_reset: (n.ticks_since_reset + 1) as u32, ..n };
    appends_send_the_rest(later, n.peers[i]);
}

/// Whether a message is what a leader owes a peer: its term and commit point,
/// and all entries from the one that the peer needs next, with what stands
/// before them.
pub open spec fn sends_the_rest(n: NodeView, peer: NodeId, append: AppendEntriesView) -> bool {
    &&& append.term == n.current_term
    &&& append.leader_id == n.id
    &&& append.leader_commit == n.commit_index
    &&& match n.role {
        RoleView::Leader { next_index, .. } => next_index.contains_key(peer) && 1
            <= next_index[peer] <= n.log.len() + 1 ==> {
            let next = next_index[peer];
            &&& append.prev_log_index + 1 == next
            &&& append.entries.len() == n.log.len() + 1 - next
            &&& forall|k: int|
                0 <= k < append.entries.len() ==> #[trigger] append.entries[k] == n.log[next - 1
                    + k]
            &&& append.prev_log_term == (if next == 1 {
                0
            } else {
                n.log[next - 2].term
            })
        },
        _ => false,
    }
}

proof fn appends_send_the_rest(n: NodeView, peer: NodeId)
    requires
        n.role is Leader,
    ensures
        sends_the_rest(n, peer, transition::append_for(n, peer)),
{
}

/// Law: a vote is granted if and only if the candidate's term is not behind,
/// the node has not voted for another in that term, and the candidate's log
/// ends in a later term, or in the same one and is no shorter. The answer goes
/// to the one who asked and bears the higher of the two terms; a vote that is
/// granted is noted and starts the wait anew.
pub proof fn votes_go_to_those_who_are_up_to_date(n: NodeView, from: NodeId, req: RequestVoteReq)
    ensures
        ({
            let (next, effects) = transition::step(
                n,
                EventView::Message(from, MessageView::RequestVote(req)),
            );
            let ends = if n.log.len() == 0 {
                0
            } else {
                n.log[n.log.len() - 1].term
            };
            let granted = {
                &&& req.term >= n.current_term
                &&& req.term > n.current_term || n.voted_for is None || n.voted_for
                    == Some(req.candidate_id)
                &&& req.last_log_term > ends || (req.last_log_term == ends && req.last_log_index
                    >= n.log.len())
            };
            let term = if req.term > n.current_term {
                req.term
            } else {
                n.current_term
            };
            &&& effects.len() > 0
            &&& effects.last() == EffectView::Send(
                from,
                MessageView::RequestVoteResp(RequestVoteResp { term, vote_granted: granted }),
            )
            &&& next.current_term == term
            &&& granted ==> next.voted_for == Some(req.candidate_id) && next.ticks_since_reset == 0
                && effects.len() >= 2 && effects[effects.len() - 2] is Persist
            &&& !granted && req.term > n.current_term ==> next.voted_for is None
            &&& !granted && req.term <= n.current_term ==> next == n && effects.len() == 1
            &&& req.term > n.current_term ==> next.role is Follower
            &&& req.term <= n.current_term ==> next.role == n.role
            &&& next.log == n.log
            &&& next.commit_index == n.commit_index
        }),
{
}

/// Law: a candidate counts each vote of its term once for each peer. With more
/// than half of the cluster it leads: it expects every peer to hold its whole
/// log, knows of none that does, and tells every peer at once. Without, it goes
/// on waiting. A refusal, a late vote, or one that comes when it no longer
/// stands changes nothing.
pub proof fn more_than_half_of_the_votes_win(
    n: NodeView,
    votes: Set<NodeId>,
    from: NodeId,
    resp: RequestVoteResp,
)
    requires
        resp.term <= n.current_term,
    ensures
        ({
            let (next, effects) = transition::step(
                n,
                EventView::Message(from, MessageView::RequestVoteResp(resp)),
            );
            let counts = n.role == (RoleView::Candidate { votes }) && resp.term == n.current_term
                && resp.vote_granted;
            let more = votes.insert(from);
            &&& next.current_term == n.current_term
            &&& next.voted_for == n.voted_for
            &&& next.log == n.log
            &&& next.commit_index == n.commit_index
            &&& !(resp.vote_granted && resp.term == n.current_term && n.role is Candidate)
                ==> next == n && effects.len() == 0
            &&& counts && 2 * more.len() <= n.peers.len() + 1 ==> effects.len() == 0 && next == (
            NodeView { role: RoleView::Candidate { votes: more }, ..n })
            &&& counts && 2 * more.len() > n.peers.len() + 1 ==> {
                &&& next.leader_hint == Some(n.id)
                &&& next.ticks_since_reset == 0
                &&& effects.len() == n.peers.len()
                &&& match next.role {
                    RoleView::Leader { next_index, match_index } => forall|i: int|
                        0 <= i < n.peers.len() ==> {
                            &&& next_index.contains_key(#[trigger] n.peers[i])
                            &&& match_index.contains_key(n.peers[i])
                            &&& match_index[n.peers[i]] == 0
                            &&& n.log.len() < u64::MAX ==> next_index[n.peers[i]] == n.log.len()
                                + 1
                            &&& match effects[i] {
                                EffectView::Send(to, MessageView::AppendEntries(append)) => to
                                    == n.peers[i] && sends_the_rest(next, to, append),
                                _ => false,
                            }
                        },
                    _ => false,
                }
            }
        }),
{
    majorities_are_more_than_half(n.peers.len());
    let (next, effects) = transition::step(
        n,
        EventView::Message(from, MessageView::RequestVoteResp(resp)),
    );
    let more = votes.insert(from);
    if n.role == (RoleView::Candidate { votes }) && resp.term == n.current_term
        && resp.vote_granted {
        let standing = NodeView { role: RoleView::Candidate { votes: more }, ..n };
        assert(effects =~= transition::try_win(standing).1);
        if 2 * more.len() > n.peers.len() + 1 {
            assert forall|i: int| 0 <= i < n.peers.len() implies n.peers.contains(
                #[trigger] n.peers[i],
            ) && sends_the_rest(next, n.peers[i], transition::append_for(next, n.peers[i])) by {
                appends_send_the_rest(next, n.peers[i]);
            }
        }
    }
}

/// Law: a node refuses entries of an earlier term, and ones whose predecessor
/// it does not hold; it says so and keeps its log. It takes in all others and
/// says up to where it now holds what the leader holds. Whoever heard from the
/// leader of its term knows it, waits anew, and stands no more.
pub proof fn entries_are_taken_in(n: NodeView, from: NodeId, req: AppendEntriesView)
    requires
        n.log.len() + req.entries.len() < u64::MAX,
        laws::in_place(req),
    ensures
        ({
            let (next, effects) = transition::step(
                n,
                EventView::Message(from, MessageView::AppendEntries(req)),
            );
            let p = req.prev_log_index;
            let fits = if p == 0 {
                req.prev_log_term == 0
            } else {
                p <= n.log.len() && n.log[p - 1].term == req.prev_log_term
            };
            let term = if req.term > n.current_term {
                req.term
            } else {
                n.current_term
            };
            &&& effects.len() > 0
            &&& next.current_term == term
            &&& match effects.last() {
                EffectView::Send(to, MessageView::AppendEntriesResp(resp)) => {
                    &&& to == from
                    &&& resp.term == term
                    &&& resp.success <==> req.term >= n.current_term && fits
                    &&& resp.match_index == (if resp.success {
                        p + req.entries.len()
                    } else {
                        0
                    })
                },
                _ => false,
            }
            &&& req.term < n.current_term ==> next == n && effects.len() == 1
            &&& req.term >= n.current_term ==> {
                &&& next.leader_hint == Some(req.leader_id)
                &&& next.ticks_since_reset == 0
                &&& !(next.role is Candidate)
            }
            &&& !fits ==> next.log == n.log && next.commit_index == n.commit_index
            &&& req.term >= n.current_term && fits ==> {
                &&& laws::holds_all(next.log, p as int, req.entries)
                &&& next.log.take(p as int) == n.log.take(p as int)
                &&& req.leader_commit <= n.commit_index ==> next.commit_index == n.commit_index
                &&& req.leader_commit > n.commit_index ==> next.commit_index == (
                if req.leader_commit <= next.log.len() {
                    req.leader_commit as int
                } else {
                    next.log.len() as int
                })
                &&& laws::holds_all(n.log, p as int, req.entries) ==> next.log == n.log
                &&& !laws::holds_all(n.log, p as int, req.entries) ==> next.log.len() == p
                    + req.entries.len()
                &&& req.leader_commit > n.commit_index && n.last_applied <= next.commit_index
                    ==> next.last_applied == next.commit_index
            }
        }),
{
    let p = req.prev_log_index as int;
    let (next, effects) = transition::step(
        n,
        EventView::Message(from, MessageView::AppendEntries(req)),
    );
    if req.term >= n.current_term && p <= n.log.len() {
        let q = laws::merge_holds_all(n.log, p, req.entries);
        let (kept, added, cuts) = transition::merged(n.log, req.entries);
        if laws::holds_all(n.log, p, req.entries) {
            assert(kept + added =~= n.log);
        } else {
            assert((kept + added).take(p) =~= n.log.take(p));
        }
    }
}

/// Law: how many peers hold an entry is counted peer by peer.
pub proof fn holders_are_counted(
    peers: Seq<NodeId>,
    peer: NodeId,
    match_index: Map<NodeId, LogIndex>,
    index: int,
)
    ensures
        transition::holders(Seq::empty(), match_index, index) == 0,
        transition::holders(peers.push(peer), match_index, index) == transition::holders(
            peers,
            match_index,
            index,
        ) + (if match_index.contains_key(peer) && match_index[peer] >= index {
            1int
        } else {
            0int
        }),
{
    assert(peers.push(peer).drop_last() =~= peers);
}

/// Whether the entry at an index is of a leader's own term and, the leader
/// counted, held by more than half of the cluster.
pub open spec fn held_by_most(n: NodeView, match_index: Map<NodeId, LogIndex>, index: int) -> bool {
    &&& 1 <= index <= n.log.len()
    &&& n.log[index - 1].term == n.current_term
    &&& 2 * (transition::holders(n.peers, match_index, index) + 1) > n.peers.len() + 1
}

proof fn the_highest_is_found(n: NodeView, match_index: Map<NodeId, LogIndex>, upto: int, k: int)
    requires
        n.role matches RoleView::Leader { match_index: held, .. } && held == match_index,
        transition::highest_committable(n, upto) < k <= upto,
    ensures
        !held_by_most(n, match_index, k),
    decreases upto,
{
    majorities_are_more_than_half(n.peers.len());
    if upto > n.commit_index && !transition::committable(n, upto) && k < upto {
        the_highest_is_found(n, match_index, upto - 1, k);
    }
}

/// Law: a reply of a leader's own term is noted for that peer alone. A success
/// raises what the peer is known to hold to what it says, never lowers it, and
/// the next entries start behind that. The leader then commits the last entry
/// of its own term that more than half of the cluster holds, and nothing
/// beyond; it never takes back what is committed.
pub proof fn what_most_hold_is_committed(
    n: NodeView,
    next_index: Map<NodeId, LogIndex>,
    match_index: Map<NodeId, LogIndex>,
    from: NodeId,
    resp: AppendEntriesResp,
    k: int,
)
    requires
        n.role == (RoleView::Leader { next_index, match_index }),
        match_index.contains_key(from),
        resp.term == n.current_term,
        resp.success,
        n.log.len() < u64::MAX,
    ensures
        ({
            let (next, effects) = transition::step(
                n,
                EventView::Message(from, MessageView::AppendEntriesResp(resp)),
            );
            let best = if resp.match_index > match_index[from] {
                resp.match_index
            } else {
                match_index[from]
            };
            let held = match_index.insert(from, best);
            &&& next.role == (RoleView::Leader {
                next_index: next_index.insert(
                    from,
                    if best < u64::MAX {
                        (best + 1) as u64
                    } else {
                        best
                    },
                ),
                match_index: held,
            })
            &&& next.log == n.log
            &&& next.current_term == n.current_term
            &&& next.commit_index >= n.commit_index
            &&& next.commit_index > n.commit_index ==> held_by_most(
                n,
                held,
                next.commit_index as int,
            )
            &&& k > next.commit_index ==> !held_by_most(n, held, k)
            &&& next.commit_index > n.commit_index && n.last_applied <= next.commit_index
                ==> next.last_applied == next.commit_index && effects.len() == next.commit_index
                - n.last_applied && forall|i: int|
                0 <= i < effects.len() ==> #[trigger] effects[i] == EffectView::Apply(
                    n.log[n.last_applied + i],
                )
            &&& next.commit_index == n.commit_index ==> effects.len() == 0
        }),
{
    majorities_are_more_than_half(n.peers.len());
    let updated = transition::noted(n, from, true, resp.match_index);
    let held = updated.role->match_index;
    safety::highest_is_committable(updated, n.log.len() as int);
    let top = transition::highest_committable(updated, n.log.len() as int);
    highest_is_within(updated, n.log.len() as int);
    if top < k <= n.log.len() {
        the_highest_is_found(updated, held, n.log.len() as int, k);
        assert(!held_by_most(updated, held, k));
    }
    assert(Seq::<EffectView>::empty() + transition::advance_commit(updated).1
        =~= transition::advance_commit(updated).1);
}

proof fn highest_is_within(n: NodeView, upto: int)
    ensures
        transition::highest_committable(n, upto) == n.commit_index
            || transition::highest_committable(n, upto) <= upto,
    decreases upto,
{
    if upto > n.commit_index && !transition::committable(n, upto) {
        highest_is_within(n, upto - 1);
    }
}

/// Law: a peer that refused is sent more at once: the entries from one further
/// back, though never from before what it is known to hold. Nothing is
/// committed on that account.
pub proof fn refusals_are_met_with_more(
    n: NodeView,
    next_index: Map<NodeId, LogIndex>,
    match_index: Map<NodeId, LogIndex>,
    from: NodeId,
    resp: AppendEntriesResp,
)
    requires
        n.role == (RoleView::Leader { next_index, match_index }),
        match_index.contains_key(from),
        next_index.contains_key(from),
        match_index[from] < u64::MAX,
        resp.term == n.current_term,
        !resp.success,
    ensures
        ({
            let (next, effects) = transition::step(
                n,
                EventView::Message(from, MessageView::AppendEntriesResp(resp)),
            );
            let lower = if next_index[from] - 1 > match_index[from] + 1 {
                next_index[from] - 1
            } else {
                match_index[from] + 1
            };
            &&& next == (NodeView {
                role: RoleView::Leader {
                    next_index: next_index.insert(from, lower as u64),
                    match_index,
                },
                ..n
            })
            &&& effects.len() == 1
            &&& match effects[0] {
                EffectView::Send(to, MessageView::AppendEntries(append)) => to == from
                    && sends_the_rest(next, from, append),
                _ => false,
            }
        }),
{
    let updated = transition::noted(n, from, false, resp.match_index);
    appends_send_the_rest(updated, from);
}

/// Law: a leader puts what is proposed at the end of its log, under its term
/// and the next number, writes it down, and sends it to every peer. Any other
/// node changes nothing, and says whom it takes for the leader.
pub proof fn proposals_go_to_the_leader(n: NodeView, command: Seq<u8>)
    requires
        n.log.len() < u64::MAX - 1,
    ensures
        ({
            let (next, effects) = transition::step(n, EventView::Propose(command));
            if n.role is Leader {
                let entry = LogEntryView {
                    term: n.current_term,
                    index: (n.log.len() + 1) as u64,
                    command,
                };
                &&& next.log == n.log.push(entry)
                &&& next.role == n.role
                &&& next.current_term == n.current_term
                &&& next.commit_index >= n.commit_index
                &&& effects.len() >= 1 + n.peers.len()
                &&& effects[0] == EffectView::PersistEntries(seq![entry])
                &&& forall|i: int|
                    0 <= i < n.peers.len() ==> match effects[1 + i] {
                        EffectView::Send(to, MessageView::AppendEntries(append)) => to
                            == #[trigger] n.peers[i] && sends_the_rest(
                            NodeView { log: next.log, ..n },
                            to,
                            append,
                        ),
                        _ => false,
                    }
                &&& n.peers.len() == 0 && n.commit_index <= n.log.len() ==> next.commit_index
                    == n.log.len() + 1
            } else {
                &&& next == n
                &&& effects.len() == 1
                &&& effects[0] == (EffectView::ProposeRejected { leader_hint: n.leader_hint })
            }
        }),
{
    if n.role is Leader {
        let entry = LogEntryView {
            term: n.current_term,
            index: (n.log.len() + 1) as u64,
            command,
        };
        let appended = NodeView { log: n.log.push(entry), ..n };
        safety::highest_is_committable(appended, appended.log.len() as int);
        assert forall|i: int| 0 <= i < n.peers.len() implies sends_the_rest(
            appended,
            #[trigger] n.peers[i],
            transition::append_for(appended, n.peers[i]),
        ) by {
            appends_send_the_rest(appended, n.peers[i]);
        }
        if n.peers.len() == 0 {
            assert(transition::committable(appended, appended.log.len() as int));
        }
    }
}

/// Law: whoever hears of a later term follows in it, whatever it was before.
pub proof fn later_terms_are_followed(n: NodeView, from: NodeId, message: MessageView, term: u64)
    requires
        term == (match message {
            MessageView::RequestVote(req) => req.term,
            MessageView::RequestVoteResp(resp) => resp.term,
            MessageView::AppendEntries(req) => req.term,
            MessageView::AppendEntriesResp(resp) => resp.term,
        }),
        term > n.current_term,
    ensures
        ({
            let (next, effects) = transition::step(n, EventView::Message(from, message));
            &&& next.role is Follower
            &&& next.current_term == term
            &&& next.ticks_since_reset == 0
            &&& effects.len() > 0 && effects[0] is Persist
            &&& !(message is RequestVote) ==> next.voted_for is None
            &&& next.id == n.id && next.peers == n.peers && next.election_timeout_ticks
                == n.election_timeout_ticks
        }),
{
}


/// Law: a proposal to a leader is in its log, written down and sent to every
/// peer; one to any other node is rejected, with the leader that it knows of,
/// and leaves it as it was.
pub proof fn nodes_take_proposals(
    node: &mut RaftNode,
    command: Vec<u8>,
    effects: Vec<Effect>,
    i: int,
)
    requires
        transition::step_fits(old(node)@, EventView::Propose(command@)),
        call_ensures(RaftNode::step, (node, Event::Propose(command)), effects),
    ensures
        ({
            let (was, now) = (old(node)@, final(node)@);
            &&& was.role is Leader ==> {
                &&& now.log.len() == was.log.len() + 1
                &&& now.log.take(was.log.len() as int) == was.log
                &&& now.log.last().command == command@
                &&& now.log.last().term == was.current_term
                &&& now.log.last().index == was.log.len() + 1
                &&& effects@.len() >= 1 + was.peers.len()
                &&& effects@[0] is PersistEntries
                &&& 0 <= i < was.peers.len() ==> match effects@[1 + i] {
                    Effect::Send(to, Message::AppendEntries(req)) => to == was.peers[i] && req.term
                        == was.current_term,
                    _ => false,
                }
            }
            &&& !(was.role is Leader) ==> {
                &&& now == was
                &&& effects@.len() == 1
                &&& match effects@[0] {
                    Effect::ProposeRejected { leader_hint } => leader_hint == was.leader_hint,
                    _ => false,
                }
            }
        }),
{
    let (was, now) = (old(node)@, final(node)@);
    assert(Event::Propose(command).deep_view() == EventView::Propose(command@));
    proposals_go_to_the_leader(was, command@);
    let seen = effects.deep_view();
    assert(seen.len() == effects@.len());
    assert(seen[0] == effects@[0].deep_view());
    if was.role is Leader {
        assert(now.log.take(was.log.len() as int) =~= was.log);
        if 0 <= i < was.peers.len() {
            assert(seen[1 + i] == effects@[1 + i].deep_view());
        }
    }
}

/// Law: a node answers a request for its vote, to the one who asked, with its
/// vote exactly where the candidate's term is not behind, no other candidate has
/// the vote of that term, and the candidate's log is up to date.
pub proof fn nodes_answer_candidates(
    node: &mut RaftNode,
    from: NodeId,
    req: RequestVoteReq,
    effects: Vec<Effect>,
)
    requires
        call_ensures(
            RaftNode::step,
            (node, Event::Message(from, Message::RequestVote(req))),
            effects,
        ),
    ensures
        ({
            let was = old(node)@;
            let ends = if was.log.len() == 0 {
                0
            } else {
                was.log[was.log.len() - 1].term
            };
            &&& effects@.len() > 0
            &&& match effects@.last() {
                Effect::Send(to, Message::RequestVoteResp(resp)) => to == from && (
                resp.vote_granted <==> {
                    &&& req.term >= was.current_term
                    &&& req.term > was.current_term || was.voted_for is None || was.voted_for
                        == Some(req.candidate_id)
                    &&& req.last_log_term > ends || (req.last_log_term == ends
                        && req.last_log_index >= was.log.len())
                }) && (resp.vote_granted ==> final(node)@.voted_for == Some(req.candidate_id)),
                _ => false,
            }
        }),
{
    let event = Event::Message(from, Message::RequestVote(req));
    assert(event.deep_view() == EventView::Message(from, MessageView::RequestVote(req)));
    votes_go_to_those_who_are_up_to_date(old(node)@, from, req);
    let seen = effects.deep_view();
    assert(seen.len() == effects@.len());
    assert(seen[seen.len() - 1] == effects@[effects@.len() - 1].deep_view());
}

/// Law: a node that ticks stands for election when it has waited long enough,
/// and asks every peer; a leader speaks to every peer at each third tick. At any
/// other tick nothing is done.
pub proof fn nodes_tick(node: &mut RaftNode, effects: Vec<Effect>, i: int)
    requires
        transition::step_fits(old(node)@, EventView::Tick),
        call_ensures(RaftNode::step, (node, Event::Tick), effects),
        0 <= i < old(node)@.peers.len(),
    ensures
        ({
            let (was, now) = (old(node)@, final(node)@);
            let silent = if was.role is Leader {
                was.ticks_since_reset < 2
            } else {
                was.ticks_since_reset + 1 < was.election_timeout_ticks
            };
            &&& silent ==> effects@.len() == 0 && now.role == was.role && now.current_term
                == was.current_term
            &&& !silent && was.role is Leader ==> {
                &&& effects@.len() == was.peers.len()
                &&& now.role == was.role
                &&& match effects@[i] {
                    Effect::Send(to, Message::AppendEntries(req)) => to == was.peers[i] && req.term
                        == was.current_term && req.leader_commit == was.commit_index,
                    _ => false,
                }
            }
            &&& !silent && !(was.role is Leader) ==> {
                &&& now.current_term == was.current_term + 1
                &&& now.role is Candidate
                &&& now.voted_for == Some(was.id)
                &&& effects@.len() == 1 + was.peers.len()
                &&& effects@[0] is Persist
                &&& match effects@[1 + i] {
                    Effect::Send(to, Message::RequestVote(req)) => to == was.peers[i] && req.term
                        == now.current_term && req.candidate_id == was.id && req.last_log_index
                        == was.log.len(),
                    _ => false,
                }
            }
        }),
{
    let was = old(node)@;
    let seen = effects.deep_view();
    assert(seen.len() == effects@.len());
    assert(Event::Tick.deep_view() == EventView::Tick);
    if was.role is Leader {
        leaders_speak_at_every_third_tick(was, i);
        if seen.len() > 0 {
            assert(seen[i] == effects@[i].deep_view());
        }
    } else {
        silence_starts_an_election(was);
        if seen.len() > 0 {
            assert(seen[0] == effects@[0].deep_view());
            assert(seen[1 + i] == effects@[1 + i].deep_view());
        }
    }
}

} // verus!
