//! What one step of a Raft node does, as functions on models: a node and an
//! event give the next node and the effects, in the order in which they have
//! to be carried out.

use vstd::prelude::*;

use crate::raft::log;
use crate::raft::log::{LogEntryView, LogIndex, NodeId, Term};
use crate::raft::message::{
    AppendEntriesResp, AppendEntriesView, MessageView, RequestVoteReq, RequestVoteResp,
};

verus! {

/// Leader heartbeats every N ticks.
pub const HEARTBEAT_TICKS: u32 = 3;

#[verifier::ext_equal]
pub enum RoleView {
    Follower,
    Candidate { votes: Set<NodeId> },
    Leader { next_index: Map<NodeId, LogIndex>, match_index: Map<NodeId, LogIndex> },
}

#[verifier::ext_equal]
pub enum EventView {
    Tick,
    Message(NodeId, MessageView),
    Propose(Seq<u8>),
}

#[verifier::ext_equal]
pub enum EffectView {
    Send(NodeId, MessageView),
    Persist,
    PersistTruncate(LogIndex),
    PersistEntries(Seq<LogEntryView>),
    Apply(LogEntryView),
    ProposeRejected { leader_hint: Option<NodeId> },
}

#[verifier::ext_equal]
pub struct NodeView {
    pub id: NodeId,
    pub peers: Seq<NodeId>,
    pub role: RoleView,
    pub current_term: Term,
    pub voted_for: Option<NodeId>,
    pub log: Seq<LogEntryView>,
    pub commit_index: LogIndex,
    pub last_applied: LogIndex,
    pub ticks_since_reset: u32,
    pub election_timeout_ticks: u32,
    pub leader_hint: Option<NodeId>,
}

/// A node that has just started with an empty log.
pub open spec fn fresh(id: NodeId, peers: Seq<NodeId>, timeout: u32) -> NodeView {
    NodeView {
        id,
        peers,
        role: RoleView::Follower,
        current_term: 0,
        voted_for: None,
        log: Seq::empty(),
        commit_index: 0,
        last_applied: 0,
        ticks_since_reset: 0,
        election_timeout_ticks: timeout,
        leader_hint: None,
    }
}

/// The size of a majority of the full cluster, the node and its peers.
pub open spec fn majority(peers: nat) -> nat {
    (peers + 1) / 2 + 1
}

/// The machine limits under which a step is defined: the next term and the
/// next log index still have a number.
pub open spec fn step_fits(n: NodeView, event: EventView) -> bool {
    &&& n.ticks_since_reset < u32::MAX
    &&& n.log.len() < u64::MAX - 1
    &&& match event {
        EventView::Tick => n.current_term < u64::MAX,
        EventView::Message(_, MessageView::AppendEntries(req)) => n.log.len() + req.entries.len()
            < u64::MAX,
        _ => true,
    }
}

/// The step: the next node and its effects.
pub open spec fn step(n: NodeView, event: EventView) -> (NodeView, Seq<EffectView>) {
    match event {
        EventView::Tick => on_tick(n),
        EventView::Message(from, MessageView::RequestVote(req)) => on_request_vote(n, from, req),
        EventView::Message(from, MessageView::RequestVoteResp(resp)) => on_request_vote_resp(
            n,
            from,
            resp,
        ),
        EventView::Message(from, MessageView::AppendEntries(req)) => on_append_entries(
            n,
            from,
            req,
        ),
        EventView::Message(from, MessageView::AppendEntriesResp(resp)) => on_append_entries_resp(
            n,
            from,
            resp,
        ),
        EventView::Propose(command) => on_propose(n, command),
    }
}

/// The rule for every message: one that bears a higher term makes the node a
/// follower of that term with its vote forgotten.
pub open spec fn stepped_down(n: NodeView, term: Term) -> NodeView {
    if term <= n.current_term {
        n
    } else {
        NodeView {
            current_term: term,
            voted_for: None,
            role: RoleView::Follower,
            ticks_since_reset: 0,
            ..n
        }
    }
}

/// Stepping down changes the hard state, which has to be persisted.
pub open spec fn step_down_effects(n: NodeView, term: Term) -> Seq<EffectView> {
    if term <= n.current_term {
        Seq::empty()
    } else {
        seq![EffectView::Persist]
    }
}

pub open spec fn on_tick(n: NodeView) -> (NodeView, Seq<EffectView>) {
    let ticks = (n.ticks_since_reset + 1) as u32;
    let later = NodeView { ticks_since_reset: ticks, ..n };
    if n.role is Leader {
        if ticks >= HEARTBEAT_TICKS {
            (NodeView { ticks_since_reset: 0, ..n }, replication(later))
        } else {
            (later, Seq::empty())
        }
    } else if ticks >= n.election_timeout_ticks {
        start_election(later)
    } else {
        (later, Seq::empty())
    }
}

/// The node as a candidate of the next term, with its own vote.
pub open spec fn candidacy(n: NodeView) -> NodeView {
    NodeView {
        current_term: (n.current_term + 1) as u64,
        voted_for: Some(n.id),
        role: RoleView::Candidate { votes: Set::empty().insert(n.id) },
        ticks_since_reset: 0,
        leader_hint: None,
        ..n
    }
}

/// The request for votes that a candidate sends to every peer.
pub open spec fn vote_request(n: NodeView) -> RequestVoteReq {
    RequestVoteReq {
        term: n.current_term,
        candidate_id: n.id,
        last_log_index: n.log.len() as u64,
        last_log_term: log::last_term(n.log),
    }
}

pub open spec fn vote_requests(n: NodeView) -> Seq<EffectView> {
    Seq::new(
        n.peers.len(),
        |i: int| EffectView::Send(n.peers[i], MessageView::RequestVote(vote_request(n))),
    )
}

/// A candidate persists its term and vote first, then asks everyone.
pub open spec fn start_election(n: NodeView) -> (NodeView, Seq<EffectView>) {
    let candidate = candidacy(n);
    let (won, announced) = try_win(candidate);
    (won, seq![EffectView::Persist] + vote_requests(candidate) + announced)
}

/// The up-to-date check on a candidate's log: a higher last term wins
/// outright, on the same last term the longer log does.
pub open spec fn up_to_date(
    their_term: Term,
    their_index: int,
    log: Seq<LogEntryView>,
) -> bool {
    their_term > log::last_term(log) || (their_term == log::last_term(log) && their_index >= log.len())
}

/// Whether a node, already at the request's term or above, grants the vote.
pub open spec fn grants(n: NodeView, req: RequestVoteReq) -> bool {
    &&& req.term == n.current_term
    &&& up_to_date(req.last_log_term, req.last_log_index as int, n.log)
    &&& n.voted_for is None || n.voted_for == Some(req.candidate_id)
}

pub open spec fn on_request_vote(n: NodeView, from: NodeId, req: RequestVoteReq) -> (
    NodeView,
    Seq<EffectView>,
) {
    let at_term = stepped_down(n, req.term);
    let grant = grants(at_term, req);
    let reply = EffectView::Send(
        from,
        MessageView::RequestVoteResp(
            RequestVoteResp { term: at_term.current_term, vote_granted: grant },
        ),
    );
    if grant {
        (
            NodeView { voted_for: Some(req.candidate_id), ticks_since_reset: 0, ..at_term },
            step_down_effects(n, req.term).push(EffectView::Persist).push(reply),
        )
    } else {
        (at_term, step_down_effects(n, req.term).push(reply))
    }
}

pub open spec fn on_request_vote_resp(n: NodeView, from: NodeId, resp: RequestVoteResp) -> (
    NodeView,
    Seq<EffectView>,
) {
    let at_term = stepped_down(n, resp.term);
    match at_term.role {
        RoleView::Candidate { votes } => if resp.term == at_term.current_term && resp.vote_granted {
            let (won, announced) = try_win(
                NodeView { role: RoleView::Candidate { votes: votes.insert(from) }, ..at_term },
            );
            (won, step_down_effects(n, resp.term) + announced)
        } else {
            (at_term, step_down_effects(n, resp.term))
        },
        _ => (at_term, step_down_effects(n, resp.term)),
    }
}

/// The candidate as the leader of its term: every peer is expected to hold
/// the whole log, none is known to.
pub open spec fn elected(n: NodeView) -> NodeView {
    let next = (n.log.len() + 1) as u64;
    NodeView {
        role: RoleView::Leader {
            next_index: Map::new(|p: NodeId| n.peers.contains(p), |p: NodeId| next),
            match_index: Map::new(|p: NodeId| n.peers.contains(p), |p: NodeId| 0u64),
        },
        leader_hint: Some(n.id),
        ticks_since_reset: 0,
        ..n
    }
}

/// A candidate with the votes of a majority becomes leader and says so at
/// once to every peer.
pub open spec fn try_win(n: NodeView) -> (NodeView, Seq<EffectView>) {
    match n.role {
        RoleView::Candidate { votes } => if votes.len() >= majority(n.peers.len()) {
            (elected(n), replication(elected(n)))
        } else {
            (n, Seq::empty())
        },
        _ => (n, Seq::empty()),
    }
}

/// The index of the first entry a leader sends to a peer.
pub open spec fn next_for(n: NodeView, peer: NodeId) -> LogIndex {
    match n.role {
        RoleView::Leader { next_index, .. } => if next_index.contains_key(peer) {
            next_index[peer]
        } else {
            (n.log.len() + 1) as u64
        },
        _ => (n.log.len() + 1) as u64,
    }
}

/// What a leader sends to a peer: the whole rest of its log from the peer's
/// next index, and how far the log is committed.
pub open spec fn append_for(n: NodeView, peer: NodeId) -> AppendEntriesView {
    let next = next_for(n, peer);
    let prev = if next == 0 {
        0
    } else {
        (next - 1) as u64
    };
    AppendEntriesView {
        term: n.current_term,
        leader_id: n.id,
        prev_log_index: prev,
        prev_log_term: match log::term_at(n.log, prev as int) {
            Some(term) => term,
            None => 0,
        },
        entries: log::suffix(n.log, next as int),
        leader_commit: n.commit_index,
    }
}

pub open spec fn replication(n: NodeView) -> Seq<EffectView> {
    Seq::new(
        n.peers.len(),
        |i: int| EffectView::Send(
            n.peers[i],
            MessageView::AppendEntries(append_for(n, n.peers[i])),
        ),
    )
}

/// How a follower's log takes in a leader's entries: what is left of the
/// log, what has to be appended to it, and where it was truncated.
pub open spec fn merged(log: Seq<LogEntryView>, entries: Seq<LogEntryView>) -> (
    Seq<LogEntryView>,
    Seq<LogEntryView>,
    Seq<EffectView>,
)
    decreases entries.len(),
{
    if entries.len() == 0 {
        (log, Seq::empty(), Seq::empty())
    } else {
        let (kept, added, cuts) = merged(log, entries.drop_last());
        let entry = entries.last();
        match log::term_at(kept, entry.index as int) {
            Some(term) => if term == entry.term {
                (kept, added, cuts)
            } else {
                (
                    log::truncated(kept, entry.index as int),
                    added.push(entry),
                    cuts.push(EffectView::PersistTruncate(entry.index)),
                )
            },
            None => (kept, added.push(entry), cuts),
        }
    }
}

/// The entries of a log between two commit points, as effects.
pub open spec fn applications(log: Seq<LogEntryView>, from: int, to: int) -> Seq<EffectView> {
    if from < to {
        Seq::new((to - from) as nat, |i: int| EffectView::Apply(log[from + i]))
    } else {
        Seq::empty()
    }
}

/// The node with everything up to its commit index applied.
pub open spec fn caught_up(n: NodeView) -> NodeView {
    if n.last_applied < n.commit_index {
        NodeView { last_applied: n.commit_index, ..n }
    } else {
        n
    }
}

pub open spec fn append_reply(
    n: NodeView,
    from: NodeId,
    success: bool,
    match_index: LogIndex,
) -> EffectView {
    EffectView::Send(
        from,
        MessageView::AppendEntriesResp(
            AppendEntriesResp { term: n.current_term, success, match_index },
        ),
    )
}

/// A node that has heard from the leader of its own term: a candidate lost
/// the race, and the election timer starts again.
pub open spec fn following(n: NodeView, leader: NodeId) -> NodeView {
    NodeView {
        role: if n.role is Candidate {
            RoleView::Follower
        } else {
            n.role
        },
        ticks_since_reset: 0,
        leader_hint: Some(leader),
        ..n
    }
}

/// A follower's log and commit point after a leader's entries.
pub open spec fn accepted(n: NodeView, req: AppendEntriesView) -> NodeView {
    let (kept, added, cuts) = merged(n.log, req.entries);
    let log = kept + added;
    if req.leader_commit > n.commit_index {
        NodeView {
            log,
            commit_index: if req.leader_commit <= log.len() {
                req.leader_commit
            } else {
                log.len() as u64
            },
            ..n
        }
    } else {
        NodeView { log, ..n }
    }
}

/// The log changes that have to be persisted before the reply leaves.
pub open spec fn merge_effects(log: Seq<LogEntryView>, entries: Seq<LogEntryView>) -> Seq<
    EffectView,
> {
    let (kept, added, cuts) = merged(log, entries);
    if added.len() > 0 {
        cuts.push(EffectView::PersistEntries(added))
    } else {
        cuts
    }
}

pub open spec fn on_append_entries(n: NodeView, from: NodeId, req: AppendEntriesView) -> (
    NodeView,
    Seq<EffectView>,
) {
    let at_term = stepped_down(n, req.term);
    let before = step_down_effects(n, req.term);
    if req.term < at_term.current_term {
        (at_term, before.push(append_reply(at_term, from, false, 0)))
    } else {
        let follower = following(at_term, req.leader_id);
        if log::term_at(follower.log, req.prev_log_index as int) != Some(req.prev_log_term) {
            (follower, before.push(append_reply(follower, from, false, 0)))
        } else {
            let merged_in = accepted(follower, req);
            let (done, applied) = if req.leader_commit > follower.commit_index {
                (
                    caught_up(merged_in),
                    applications(
                        merged_in.log,
                        merged_in.last_applied as int,
                        merged_in.commit_index as int,
                    ),
                )
            } else {
                (merged_in, Seq::empty())
            };
            (
                done,
                (before + merge_effects(follower.log, req.entries) + applied).push(
                    append_reply(
                        done,
                        from,
                        true,
                        (req.prev_log_index + req.entries.len()) as u64,
                    ),
                ),
            )
        }
    }
}

/// How many of the peers are known to hold the log up to an index.
pub open spec fn holders(
    peers: Seq<NodeId>,
    match_index: Map<NodeId, LogIndex>,
    index: int,
) -> nat
    decreases peers.len(),
{
    if peers.len() == 0 {
        0
    } else {
        let peer = peers.last();
        holders(peers.drop_last(), match_index, index) + if match_index.contains_key(peer)
            && match_index[peer] >= index {
            1nat
        } else {
            0nat
        }
    }
}

/// Whether a leader may commit up to an index: the entry there is of its own
/// term, and a majority holds it, the leader itself counted.
pub open spec fn committable(n: NodeView, index: int) -> bool {
    match n.role {
        RoleView::Leader { match_index, .. } => {
            &&& 1 <= index <= n.log.len()
            &&& n.log[index - 1].term == n.current_term
            &&& holders(n.peers, match_index, index) + 1 >= majority(n.peers.len())
        },
        _ => false,
    }
}

/// The highest index up to `upto` that may be committed, the present commit
/// index if there is none above it.
pub open spec fn highest_committable(n: NodeView, upto: int) -> int
    decreases upto,
{
    if upto <= n.commit_index {
        n.commit_index as int
    } else if committable(n, upto) {
        upto
    } else {
        highest_committable(n, upto - 1)
    }
}

/// A leader commits as far as it may and applies what it commits.
pub open spec fn advance_commit(n: NodeView) -> (NodeView, Seq<EffectView>) {
    let commit = highest_committable(n, n.log.len() as int);
    if commit > n.commit_index {
        (
            caught_up(NodeView { commit_index: commit as u64, ..n }),
            applications(n.log, n.last_applied as int, commit),
        )
    } else {
        (n, Seq::empty())
    }
}

/// A leader's bookkeeping of one peer after a reply.
pub open spec fn noted(n: NodeView, from: NodeId, success: bool, match_index: LogIndex) -> NodeView
    recommends
        n.role is Leader,
{
    let next = n.role->next_index;
    let held = n.role->match_index;
    let known = held[from];
    if success {
        let best = if match_index > known {
            match_index
        } else {
            known
        };
        NodeView {
            role: RoleView::Leader {
                next_index: next.insert(from, after(best)),
                match_index: held.insert(from, best),
            },
            ..n
        }
    } else {
        let back = next_for(n, from);
        let lower = if back > 0 {
            (back - 1) as u64
        } else {
            0
        };
        NodeView {
            role: RoleView::Leader {
                next_index: next.insert(
                    from,
                    if lower > after(known) {
                        lower
                    } else {
                        after(known)
                    },
                ),
                match_index: held,
            },
            ..n
        }
    }
}

/// The index after another one.
pub open spec fn after(index: LogIndex) -> LogIndex {
    if index < u64::MAX {
        (index + 1) as u64
    } else {
        u64::MAX
    }
}

/// A leader takes the best match a peer has reported, and commits what a
/// majority holds; a peer that refused gets the entries from one further
/// back.
pub open spec fn on_append_entries_resp(n: NodeView, from: NodeId, resp: AppendEntriesResp) -> (
    NodeView,
    Seq<EffectView>,
) {
    let at_term = stepped_down(n, resp.term);
    let before = step_down_effects(n, resp.term);
    if at_term.role is Leader && resp.term == at_term.current_term
        && at_term.role->match_index.contains_key(from) {
        let updated = noted(at_term, from, resp.success, resp.match_index);
        if resp.success {
            let (done, applied) = advance_commit(updated);
            (done, before + applied)
        } else {
            (
                updated,
                before.push(
                    EffectView::Send(from, MessageView::AppendEntries(append_for(updated, from))),
                ),
            )
        }
    } else {
        (at_term, before)
    }
}

/// A leader appends a proposal to its own log, persists it and sends it out;
/// any other node refuses it and says whom to ask.
pub open spec fn on_propose(n: NodeView, command: Seq<u8>) -> (NodeView, Seq<EffectView>) {
    if n.role is Leader {
        let entry = LogEntryView {
            term: n.current_term,
            index: (n.log.len() + 1) as u64,
            command,
        };
        let appended = NodeView { log: n.log.push(entry), ..n };
        let (done, applied) = advance_commit(appended);
        (
            done,
            seq![EffectView::PersistEntries(seq![entry])] + replication(appended) + applied,
        )
    } else {
        (n, seq![EffectView::ProposeRejected { leader_hint: n.leader_hint }])
    }
}

} // verus!
