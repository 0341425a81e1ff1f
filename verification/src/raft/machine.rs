//! The Raft state machine as a pure function. No I/O, no clocks, no
//! randomness: events in, effects out. What a step does is stated in
//! `transition`.

use std::collections::{HashMap, HashSet};

use vstd::prelude::*;

use crate::duplicate::Duplicate;
use crate::raft::log;
use crate::raft::log::{LogEntry, LogEntryView, LogIndex, NodeId, RaftLog, Term};
use crate::raft::message::{
    AppendEntriesReq, AppendEntriesResp, Message, RequestVoteReq, RequestVoteResp,
};
use crate::raft::storage::HardState;
use crate::raft::transition;
use crate::raft::transition::{EffectView, EventView, NodeView, RoleView};

pub use crate::raft::transition::HEARTBEAT_TICKS;

verus! {

#[derive(Debug, PartialEq)]
pub enum Role {
    Follower,
    Candidate { votes: HashSet<NodeId> },
    /// The bookkeeping lives in the variant: it cannot exist unless the node
    /// is leader, and stepping down destroys it.
    Leader { next_index: HashMap<NodeId, LogIndex>, match_index: HashMap<NodeId, LogIndex> },
}

impl DeepView for Role {
    type V = RoleView;

    open spec fn deep_view(&self) -> RoleView {
        match self {
            Role::Follower => RoleView::Follower,
            Role::Candidate { votes } => RoleView::Candidate { votes: votes@ },
            Role::Leader { next_index, match_index } => RoleView::Leader {
                next_index: next_index@,
                match_index: match_index@,
            },
        }
    }
}

#[derive(Debug, Clone, PartialEq)]
pub enum Event {
    Tick,
    Message(NodeId, Message),
    Propose(Vec<u8>),
}

impl DeepView for Event {
    type V = EventView;

    open spec fn deep_view(&self) -> EventView {
        match self {
            Event::Tick => EventView::Tick,
            Event::Message(from, message) => EventView::Message(*from, message.deep_view()),
            Event::Propose(command) => EventView::Propose(command@),
        }
    }
}

#[derive(Debug, Clone, PartialEq)]
pub enum Effect {
    Send(NodeId, Message),
    /// The hard state changed: it has to be on disk before any `Send` of the
    /// same batch. The order of the effects is the contract.
    Persist,
    PersistTruncate(LogIndex),
    PersistEntries(Vec<LogEntry>),
    Apply(LogEntry),
    ProposeRejected { leader_hint: Option<NodeId> },
}

impl DeepView for Effect {
    type V = EffectView;

    open spec fn deep_view(&self) -> EffectView {
        match self {
            Effect::Send(to, message) => EffectView::Send(*to, message.deep_view()),
            Effect::Persist => EffectView::Persist,
            Effect::PersistTruncate(from) => EffectView::PersistTruncate(*from),
            Effect::PersistEntries(entries) => EffectView::PersistEntries(entries.deep_view()),
            Effect::Apply(entry) => EffectView::Apply(entry.deep_view()),
            Effect::ProposeRejected { leader_hint } => EffectView::ProposeRejected {
                leader_hint: *leader_hint,
            },
        }
    }
}

pub struct RaftNode {
    pub id: NodeId,
    pub peers: Vec<NodeId>,
    pub role: Role,
    pub current_term: Term,
    pub voted_for: Option<NodeId>,
    pub log: RaftLog,
    pub commit_index: LogIndex,
    pub last_applied: LogIndex,
    pub ticks_since_reset: u32,
    pub election_timeout_ticks: u32,
    pub leader_hint: Option<NodeId>,
}

impl View for RaftNode {
    type V = NodeView;

    open spec fn view(&self) -> NodeView {
        NodeView {
            id: self.id,
            peers: self.peers@,
            role: self.role.deep_view(),
            current_term: self.current_term,
            voted_for: self.voted_for,
            log: self.log@,
            commit_index: self.commit_index,
            last_applied: self.last_applied,
            ticks_since_reset: self.ticks_since_reset,
            election_timeout_ticks: self.election_timeout_ticks,
            leader_hint: self.leader_hint,
        }
    }
}

/// Moves all effects of the second list behind those of the first.
fn extend(effects: &mut Vec<Effect>, more: Vec<Effect>)
    ensures
        final(effects).deep_view() == old(effects).deep_view() + more.deep_view(),
{
    let mut more = more;
    let ghost tail = more.deep_view();
    effects.append(&mut more);
    assert(effects.deep_view() =~= old(effects).deep_view() + tail);
}

/// Adds one effect at the end.
fn emit(effects: &mut Vec<Effect>, effect: Effect)
    ensures
        final(effects).deep_view() == old(effects).deep_view().push(effect.deep_view()),
{
    effects.push(effect);
    assert(effects.deep_view() =~= old(effects).deep_view().push(effect.deep_view()));
}

fn no_effects() -> (effects: Vec<Effect>)
    ensures
        effects.deep_view() == Seq::<EffectView>::empty(),
{
    let effects: Vec<Effect> = Vec::new();
    assert(effects.deep_view() =~= Seq::<EffectView>::empty());
    effects
}

impl RaftNode {
    pub fn new(id: NodeId, peers: Vec<NodeId>, election_timeout_ticks: u32) -> (node: Self)
        ensures
            node@ == transition::fresh(id, peers@, election_timeout_ticks),
    {
        RaftNode {
            id,
            peers,
            role: Role::Follower,
            current_term: 0,
            voted_for: None,
            log: RaftLog::new(),
            commit_index: 0,
            last_applied: 0,
            ticks_since_reset: 0,
            election_timeout_ticks,
            leader_hint: None,
        }
    }

    pub fn set_election_timeout(&mut self, ticks: u32)
        ensures
            final(self)@ == (NodeView { election_timeout_ticks: ticks, ..old(self)@ }),
    {
        self.election_timeout_ticks = ticks;
    }

    /// Majority of the full cluster, the peers and this node: 3 nodes give 2,
    /// 5 give 3, a single node 1.
    fn majority(&self) -> (size: usize)
        ensures
            size == transition::majority(self@.peers.len()),
    {
        self.peers.len() / 2 + self.peers.len() % 2 + 1
    }

    /// Becomes a follower of any higher term; the effect to carry out, if
    /// any, comes first.
    fn maybe_step_down(&mut self, msg_term: Term) -> (effects: Vec<Effect>)
        ensures
            final(self)@ == transition::stepped_down(old(self)@, msg_term),
            effects.deep_view() == transition::step_down_effects(old(self)@, msg_term),
    {
        let mut effects = no_effects();
        if msg_term <= self.current_term {
            return effects;
        }
        self.current_term = msg_term;
        self.voted_for = None;
        self.role = Role::Follower;
        self.ticks_since_reset = 0;
        emit(&mut effects, Effect::Persist);
        assert(effects.deep_view() =~= seq![EffectView::Persist]);
        effects
    }

    fn on_request_vote(&mut self, from: NodeId, req: RequestVoteReq) -> (effects: Vec<Effect>)
        ensures
            (final(self)@, effects.deep_view()) == transition::on_request_vote(
                old(self)@,
                from,
                req,
            ),
    {
        let mut effects = self.maybe_step_down(req.term);
        let mine_term: u64 = self.log.last_term();
        let mine_index: u64 = self.log.last_index();
        let log_ok = req.last_log_term > mine_term || (req.last_log_term == mine_term
            && req.last_log_index >= mine_index);
        let can_vote = match self.voted_for {
            None => true,
            Some(other) => other == req.candidate_id,
        };
        let grant = req.term == self.current_term && log_ok && can_vote;
        if grant {
            self.voted_for = Some(req.candidate_id);
            // Granting defers this node's own candidacy.
            self.ticks_since_reset = 0;
            emit(&mut effects, Effect::Persist);
        }
        emit(
            &mut effects,
            Effect::Send(
                from,
                Message::RequestVoteResp(
                    RequestVoteResp { term: self.current_term, vote_granted: grant },
                ),
            ),
        );
        effects
    }

    fn on_tick(&mut self) -> (effects: Vec<Effect>)
        requires
            transition::step_fits(old(self)@, EventView::Tick),
        ensures
            (final(self)@, effects.deep_view()) == transition::on_tick(old(self)@),
    {
        self.ticks_since_reset = self.ticks_since_reset + 1;
        let leading = matches!(self.role, Role::Leader { .. });
        if leading {
            if self.ticks_since_reset >= HEARTBEAT_TICKS {
                self.ticks_since_reset = 0;
                return self.broadcast_heartbeats();
            }
            no_effects()
        } else if self.ticks_since_reset >= self.election_timeout_ticks {
            self.start_election()
        } else {
            no_effects()
        }
    }

    /// Becomes candidate: next term, a vote for itself, a request to everyone.
    /// Term and vote have to be on disk before any request leaves, else a
    /// crash could let this node vote differently in the same term.
    fn start_election(&mut self) -> (effects: Vec<Effect>)
        requires
            old(self)@.current_term < u64::MAX,
            old(self)@.log.len() < u64::MAX,
        ensures
            (final(self)@, effects.deep_view()) == transition::start_election(old(self)@),
    {
        self.current_term = self.current_term + 1;
        self.voted_for = Some(self.id);
        let mut votes: HashSet<NodeId> = HashSet::new();
        votes.insert(self.id);
        self.role = Role::Candidate { votes };
        self.ticks_since_reset = 0;
        self.leader_hint = None;
        let ghost candidate = self@;
        assert(candidate =~= transition::candidacy(old(self)@));

        let mut effects = no_effects();
        emit(&mut effects, Effect::Persist);
        let req = RequestVoteReq {
            term: self.current_term,
            candidate_id: self.id,
            last_log_index: self.log.last_index(),
            last_log_term: self.log.last_term(),
        };
        for i in 0..self.peers.len()
            invariant
                self@ == candidate,
                req == transition::vote_request(candidate),
                effects.deep_view() == seq![EffectView::Persist]
                    + transition::vote_requests(candidate).take(i as int),
        {
            emit(&mut effects, Effect::Send(self.peers[i], Message::RequestVote(req)));
            assert(transition::vote_requests(candidate).take(i + 1) =~= transition::vote_requests(
                candidate,
            ).take(i as int).push(transition::vote_requests(candidate)[i as int]));
        }
        assert(transition::vote_requests(candidate).take(self.peers@.len() as int)
            =~= transition::vote_requests(candidate));
        let announced = self.try_win();
        extend(&mut effects, announced);
        effects
    }

    fn on_request_vote_resp(&mut self, from: NodeId, resp: RequestVoteResp) -> (effects: Vec<
        Effect,
    >)
        requires
            old(self)@.log.len() < u64::MAX,
        ensures
            (final(self)@, effects.deep_view()) == transition::on_request_vote_resp(
                old(self)@,
                from,
                resp,
            ),
    {
        let mut effects = self.maybe_step_down(resp.term);
        if resp.term == self.current_term && resp.vote_granted {
            if let Role::Candidate { votes } = &mut self.role {
                votes.insert(from);
                let announced = self.try_win();
                extend(&mut effects, announced);
            }
        }
        effects
    }

    /// A candidate with a majority becomes leader and announces itself at
    /// once, which also suppresses further elections.
    fn try_win(&mut self) -> (effects: Vec<Effect>)
        requires
            old(self)@.log.len() < u64::MAX,
        ensures
            (final(self)@, effects.deep_view()) == transition::try_win(old(self)@),
    {
        let enough: bool = match &self.role {
            Role::Candidate { votes } => votes.len() >= self.majority(),
            _ => false,
        };
        if !enough {
            return no_effects();
        }
        let next: u64 = self.log.last_index() + 1;
        let mut next_index: HashMap<NodeId, LogIndex> = HashMap::new();
        let mut match_index: HashMap<NodeId, LogIndex> = HashMap::new();
        for i in 0..self.peers.len()
            invariant
                forall|p: NodeId| #[trigger]
                    next_index@.contains_key(p) <==> self.peers@.take(i as int).contains(p),
                forall|p: NodeId| #[trigger]
                    match_index@.contains_key(p) <==> self.peers@.take(i as int).contains(p),
                forall|p: NodeId| next_index@.contains_key(p) ==> #[trigger] next_index@[p] == next,
                forall|p: NodeId| match_index@.contains_key(p) ==> #[trigger] match_index@[p] == 0,
        {
            let ghost seen = self.peers@.take(i as int);
            let peer: u64 = self.peers[i];
            next_index.insert(peer, next);
            match_index.insert(peer, 0);
            proof {
                assert(self.peers@.take(i + 1) =~= seen.push(peer));
                assert forall|p: NodeId| #[trigger]
                    self.peers@.take(i + 1).contains(p) == (seen.contains(p) || p == peer) by {
                    broadcast use vstd::seq_lib::group_seq_properties;

                }
            }
        }
        assert(self.peers@.take(self.peers@.len() as int) =~= self.peers@);
        self.role = Role::Leader { next_index, match_index };
        self.leader_hint = Some(self.id);
        self.ticks_since_reset = 0;
        assert(self@ =~= transition::elected(old(self)@)) by {
            let want = transition::elected(old(self)@).role;
            assert(next_index@ =~= want->next_index);
            assert(match_index@ =~= want->match_index);
        }
        self.broadcast_heartbeats()
    }

    /// The AppendEntries for one peer: the rest of the log from its next
    /// index.
    fn append_for(&self, peer: NodeId) -> (req: AppendEntriesReq)
        requires
            self@.log.len() < u64::MAX,
        ensures
            req.deep_view() == transition::append_for(self@, peer),
    {
        let fallback: u64 = self.log.last_index() + 1;
        let next: u64 = match &self.role {
            Role::Leader { next_index, .. } => match next_index.get(&peer) {
                Some(next) => *next,
                None => fallback,
            },
            _ => fallback,
        };
        let prev: u64 = if next == 0 {
            0
        } else {
            next - 1
        };
        AppendEntriesReq {
            term: self.current_term,
            leader_id: self.id,
            prev_log_index: prev,
            prev_log_term: match self.log.term_at(prev) {
                Some(term) => term,
                None => 0,
            },
            entries: self.log.entries_from(next),
            leader_commit: self.commit_index,
        }
    }

    /// An AppendEntries to every peer: heartbeat and retransmission in one.
    fn broadcast_heartbeats(&self) -> (effects: Vec<Effect>)
        requires
            self@.log.len() < u64::MAX,
        ensures
            effects.deep_view() == transition::replication(self@),
    {
        let mut effects = no_effects();
        for i in 0..self.peers.len()
            invariant
                self@.log.len() < u64::MAX,
                effects.deep_view() == transition::replication(self@).take(i as int),
        {
            let peer: u64 = self.peers[i];
            emit(&mut effects, Effect::Send(peer, Message::AppendEntries(self.append_for(peer))));
            assert(transition::replication(self@).take(i + 1) =~= transition::replication(
                self@,
            ).take(i as int).push(transition::replication(self@)[i as int]));
        }
        assert(transition::replication(self@).take(self.peers@.len() as int)
            =~= transition::replication(self@));
        effects
    }

    fn reply_append(
        &self,
        effects: &mut Vec<Effect>,
        to: NodeId,
        success: bool,
        match_index: LogIndex,
    )
        ensures
            final(effects).deep_view() == old(effects).deep_view().push(
                transition::append_reply(self@, to, success, match_index),
            ),
    {
        emit(
            effects,
            Effect::Send(
                to,
                Message::AppendEntriesResp(
                    AppendEntriesResp { term: self.current_term, success, match_index },
                ),
            ),
        );
    }

    /// Takes a leader's entries into the log: what the log already holds is
    /// skipped, a conflicting suffix is dropped, the rest is appended. The
    /// changes to persist come in that order.
    fn merge(&mut self, entries: Vec<LogEntry>) -> (effects: Vec<Effect>)
        ensures
            final(self)@ == (NodeView {
                log: transition::merged(old(self)@.log, entries.deep_view()).0
                    + transition::merged(old(self)@.log, entries.deep_view()).1,
                ..old(self)@
            }),
            effects.deep_view() == transition::merge_effects(
                old(self)@.log,
                entries.deep_view(),
            ),
    {
        let ghost start = self@;
        let ghost all = entries.deep_view();
        let mut effects = no_effects();
        let mut to_append: Vec<LogEntry> = Vec::new();
        assert(to_append.deep_view() =~= Seq::<LogEntryView>::empty());
        assert(all.take(0) =~= Seq::<LogEntryView>::empty());
        assert(self@ =~= NodeView { log: start.log, ..start });
        for i in 0..entries.len()
            invariant
                all == entries.deep_view(),
                self@ == (NodeView { log: transition::merged(start.log, all.take(i as int)).0, ..start }),
                to_append.deep_view() == transition::merged(start.log, all.take(i as int)).1,
                effects.deep_view() == transition::merged(start.log, all.take(i as int)).2,
        {
            let ghost before = self@;
            let entry = &entries[i];
            let ghost pending = to_append.deep_view();
            proof {
                assert(all.take(i + 1).drop_last() =~= all.take(i as int));
                assert(all.take(i + 1).last() == entry.deep_view());
            }
            match self.log.term_at(entry.index) {
                Some(term) => {
                    if term != entry.term {
                        self.log.truncate_from(entry.index);
                        emit(&mut effects, Effect::PersistTruncate(entry.index));
                        to_append.push(entry.duplicate());
                        assert(to_append.deep_view() =~= pending.push(entry.deep_view()));
                    }
                },
                None => {
                    to_append.push(entry.duplicate());
                    assert(to_append.deep_view() =~= pending.push(entry.deep_view()));
                },
            }
            assert(self@ =~= NodeView {
                log: transition::merged(start.log, all.take(i + 1)).0,
                ..start
            });
        }
        assert(all.take(entries@.len() as int) =~= all);
        let ghost kept = self@.log;
        if to_append.len() > 0 {
            let persisted = to_append.duplicate();
            emit(&mut effects, Effect::PersistEntries(persisted));
            self.log.append_entries(to_append);
        } else {
            assert(kept + to_append.deep_view() =~= kept);
        }
        effects
    }

    fn on_append_entries(&mut self, from: NodeId, req: AppendEntriesReq) -> (effects: Vec<Effect>)
        requires
            old(self)@.log.len() + req.entries@.len() < u64::MAX,
        ensures
            (final(self)@, effects.deep_view()) == transition::on_append_entries(
                old(self)@,
                from,
                req.deep_view(),
            ),
    {
        let mut effects = self.maybe_step_down(req.term);
        if req.term < self.current_term {
            self.reply_append(&mut effects, from, false, 0);
            return effects;
        }
        if matches!(self.role, Role::Candidate { .. }) {
            self.role = Role::Follower;
        }
        self.ticks_since_reset = 0;
        self.leader_hint = Some(req.leader_id);
        let ghost follower = self@;
        assert(follower =~= transition::following(
            transition::stepped_down(old(self)@, req.term),
            req.leader_id,
        ));

        let held: Option<u64> = self.log.term_at(req.prev_log_index);
        let consistent = match held {
            Some(term) => term == req.prev_log_term,
            None => false,
        };
        if !consistent {
            self.reply_append(&mut effects, from, false, 0);
            return effects;
        }
        let new_match: u64 = req.prev_log_index + req.entries.len() as u64;
        let leader_commit: u64 = req.leader_commit;
        let ghost asked = req.deep_view();
        let changes = self.merge(req.entries);
        extend(&mut effects, changes);

        // Commit news rides on every AppendEntries, capped at what this node
        // holds.
        if leader_commit > self.commit_index {
            let last: u64 = self.log.last_index();
            self.commit_index = if leader_commit <= last {
                leader_commit
            } else {
                last
            };
            assert(self@ =~= transition::accepted(follower, asked));
            let applied = self.advance_applied();
            extend(&mut effects, applied);
        } else {
            assert(self@ =~= transition::accepted(follower, asked));
            assert(effects.deep_view() + Seq::<EffectView>::empty() =~= effects.deep_view());
        }
        self.reply_append(&mut effects, from, true, new_match);
        effects
    }

    /// Emits `Apply` for everything committed but not yet applied, in order.
    fn advance_applied(&mut self) -> (effects: Vec<Effect>)
        requires
            old(self)@.commit_index <= old(self)@.log.len(),
        ensures
            final(self)@ == transition::caught_up(old(self)@),
            effects.deep_view() == transition::applications(
                old(self)@.log,
                old(self)@.last_applied as int,
                old(self)@.commit_index as int,
            ),
    {
        let ghost start = self@;
        let mut effects = no_effects();
        assert(effects.deep_view() =~= transition::applications(
            start.log,
            start.last_applied as int,
            start.last_applied as int,
        ));
        while self.last_applied < self.commit_index
            invariant
                start.commit_index <= start.log.len(),
                self@ == (NodeView { last_applied: self@.last_applied, ..start }),
                start.last_applied <= self@.last_applied,
                start.last_applied <= start.commit_index ==> self@.last_applied
                    <= start.commit_index,
                start.last_applied > start.commit_index ==> self@.last_applied
                    == start.last_applied,
                effects.deep_view() == transition::applications(
                    start.log,
                    start.last_applied as int,
                    self@.last_applied as int,
                ),
            decreases self@.commit_index - self@.last_applied,
        {
            let ghost before = self@.last_applied;
            self.last_applied = self.last_applied + 1;
            if let Some(entry) = self.log.get(self.last_applied) {
                emit(&mut effects, Effect::Apply(entry.duplicate()));
            }
            assert(transition::applications(start.log, start.last_applied as int, before + 1)
                =~= transition::applications(
                start.log,
                start.last_applied as int,
                before as int,
            ).push(EffectView::Apply(start.log[before as int])));
        }
        effects
    }

    /// How many peers are known to hold the log up to an index.
    fn holders(&self, index: LogIndex) -> (count: usize)
        requires
            self@.role is Leader,
        ensures
            count == transition::holders(self@.peers, self@.role->match_index, index as int),
            count <= self@.peers.len(),
    {
        let mut count: usize = 0;
        if let Role::Leader { match_index, .. } = &self.role {
            for i in 0..self.peers.len()
                invariant
                    match_index@ == self@.role->match_index,
                    count <= i,
                    count == transition::holders(
                        self.peers@.take(i as int),
                        match_index@,
                        index as int,
                    ),
            {
                let peer: u64 = self.peers[i];
                proof {
                    assert(self.peers@.take(i + 1).drop_last() =~= self.peers@.take(i as int));
                    assert(self.peers@.take(i + 1).last() == peer);
                }
                if let Some(held) = match_index.get(&peer) {
                    if *held >= index {
                        count = count + 1;
                    }
                }
            }
            assert(self.peers@.take(self.peers@.len() as int) =~= self.peers@);
        }
        count
    }

    /// A leader commits the highest entry of its own term that a majority
    /// holds, and with it everything before.
    fn advance_commit(&mut self) -> (effects: Vec<Effect>)
        requires
            old(self)@.role is Leader,
        ensures
            (final(self)@, effects.deep_view()) == transition::advance_commit(old(self)@),
    {
        let mut index: u64 = self.log.last_index();
        let ghost start = self@;
        while index > self.commit_index
            invariant
                self@ == start,
                start == old(self)@,
                start.role is Leader,
                index <= start.log.len(),
                transition::highest_committable(start, start.log.len() as int)
                    == transition::highest_committable(start, index as int),
            decreases index,
        {
            let own = match self.log.term_at(index) {
                Some(term) => term == self.current_term,
                None => false,
            };
            if own && self.holders(index) >= self.majority() - 1 {
                self.commit_index = index;
                assert(self@ =~= NodeView { commit_index: index, ..start });
                return self.advance_applied();
            }
            index = index - 1;
        }
        no_effects()
    }

    fn on_append_entries_resp(&mut self, from: NodeId, resp: AppendEntriesResp) -> (effects: Vec<
        Effect,
    >)
        requires
            old(self)@.log.len() < u64::MAX,
        ensures
            (final(self)@, effects.deep_view()) == transition::on_append_entries_resp(
                old(self)@,
                from,
                resp,
            ),
    {
        let mut effects = self.maybe_step_down(resp.term);
        if resp.term != self.current_term {
            return effects;
        }
        let ghost before = self@;
        let fallback: u64 = self.log.last_index() + 1;
        let mut known_peer = false;
        if let Role::Leader { next_index, match_index } = &mut self.role {
            let known: Option<u64> = match match_index.get(&from) {
                Some(held) => Some(*held),
                None => None,
            };
            if let Some(known) = known {
                known_peer = true;
                if resp.success {
                    let best: u64 = if resp.match_index > known {
                        resp.match_index
                    } else {
                        known
                    };
                    match_index.insert(from, best);
                    next_index.insert(from, best.saturating_add(1));
                } else {
                    let back: u64 = match next_index.get(&from) {
                        Some(next) => *next,
                        None => fallback,
                    };
                    let lower: u64 = if back > 0 {
                        back - 1
                    } else {
                        0
                    };
                    let floor: u64 = known.saturating_add(1);
                    next_index.insert(
                        from,
                        if lower > floor {
                            lower
                        } else {
                            floor
                        },
                    );
                }
            }
        }
        if known_peer {
            assert(self@ =~= transition::noted(before, from, resp.success, resp.match_index));
            if resp.success {
                let applied = self.advance_commit();
                extend(&mut effects, applied);
            } else {
                let again = self.append_for(from);
                emit(&mut effects, Effect::Send(from, Message::AppendEntries(again)));
            }
        }
        effects
    }

    fn on_propose(&mut self, command: Vec<u8>) -> (effects: Vec<Effect>)
        requires
            old(self)@.log.len() < u64::MAX - 1,
        ensures
            (final(self)@, effects.deep_view()) == transition::on_propose(
                old(self)@,
                command@,
            ),
    {
        let mut effects = no_effects();
        if !matches!(self.role, Role::Leader { .. }) {
            emit(&mut effects, Effect::ProposeRejected { leader_hint: self.leader_hint });
            assert(effects.deep_view() =~= seq![
                EffectView::ProposeRejected { leader_hint: self@.leader_hint },
            ]);
            return effects;
        }
        let term: u64 = self.current_term;
        let index: u64 = self.log.append(term, command);
        let mut fresh = self.log.entries_from(index);
        let ghost entry = LogEntryView { term, index, command: command@ };
        assert(fresh.deep_view() =~= seq![entry]);
        emit(&mut effects, Effect::PersistEntries(fresh));
        assert(effects.deep_view() =~= seq![EffectView::PersistEntries(seq![entry])]);
        let sends = self.broadcast_heartbeats();
        extend(&mut effects, sends);
        let applied = self.advance_commit();
        extend(&mut effects, applied);
        effects
    }

    /// One event in, the effects out, in the order in which they have to be
    /// carried out.
    pub fn step(&mut self, event: Event) -> (effects: Vec<Effect>)
        requires
            transition::step_fits(old(self)@, event.deep_view()),
        ensures
            (final(self)@, effects.deep_view()) == transition::step(
                old(self)@,
                event.deep_view(),
            ),
    {
        match event {
            Event::Tick => self.on_tick(),
            Event::Message(from, message) => match message {
                Message::RequestVote(req) => self.on_request_vote(from, req),
                Message::RequestVoteResp(resp) => self.on_request_vote_resp(from, resp),
                Message::AppendEntries(req) => self.on_append_entries(from, req),
                Message::AppendEntriesResp(resp) => self.on_append_entries_resp(from, resp),
            },
            Event::Propose(command) => self.on_propose(command),
        }
    }

    /// What has to survive a crash besides the log.
    pub fn hard_state(&self) -> (state: HardState)
        ensures
            state == (HardState {
                current_term: self@.current_term,
                voted_for: self@.voted_for,
            }),
    {
        HardState { current_term: self.current_term, voted_for: self.voted_for }
    }

    /// Whether the next step is within the machine's limits.
    pub fn fits(&self, event: &Event) -> (fits: bool)
        ensures
            fits == transition::step_fits(self@, event.deep_view()),
    {
        let len: u64 = self.log.last_index();
        if self.ticks_since_reset >= u32::MAX || len >= u64::MAX - 1 {
            return false;
        }
        match event {
            Event::Tick => self.current_term < u64::MAX,
            Event::Message(_, Message::AppendEntries(req)) => {
                (req.entries.len() as u64) < u64::MAX - len
            },
            _ => true,
        }
    }
}

} // verus!
