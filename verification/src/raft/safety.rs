//! Why a cluster keeps its promises: the history that a run leaves behind,
//! and what holds of it after every move.

use vstd::prelude::*;

use crate::raft::cluster;
use crate::raft::cluster::{Cluster, Move, Packet};
use crate::raft::log;
use crate::raft::log::{LogEntryView, LogIndex, NodeId, Term};
use crate::raft::message::{
    AppendEntriesResp, AppendEntriesView, MessageView, RequestVoteReq, RequestVoteResp,
};
use crate::raft::replay;
use crate::raft::transition;
use crate::raft::transition::{EffectView, EventView, NodeView, RoleView};

verus! {

/// A vote, and the log its voter had when it was cast.
#[verifier::ext_equal]
pub struct Ballot {
    pub candidate: NodeId,
    pub log: Seq<LogEntryView>,
}

/// The leadership of a term: who leads, the log as the leader has written it
/// so far, and the voters that made it leader.
#[verifier::ext_equal]
pub struct Reign {
    pub leader: NodeId,
    pub log: Seq<LogEntryView>,
    pub electors: Set<NodeId>,
}

/// What has happened in a run so far.
#[verifier::ext_equal]
pub struct History {
    pub reigns: Map<Term, Reign>,
    /// Who voted for whom, by term and voter.
    pub ballots: Map<(Term, NodeId), Ballot>,
    /// With which log a node stood for election, by term and candidate.
    pub bids: Map<(Term, NodeId), Seq<LogEntryView>>,
    /// Which node has confirmed how much of which leader's log.
    pub acks: Set<(NodeId, Term, int)>,
}

pub open spec fn starts(whole: Seq<LogEntryView>, part: Seq<LogEntryView>) -> bool {
    part.len() <= whole.len() && whole.take(part.len() as int) == part
}

/// The entry at a place, and all before it, stand in the log of the leader of
/// the entry's term.
pub open spec fn grounded(h: History, entries: Seq<LogEntryView>, k: int) -> bool {
    let t = entries[k].term;
    &&& h.reigns.contains_key(t)
    &&& k < h.reigns[t].log.len()
    &&& entries.take(k + 1) == h.reigns[t].log.take(k + 1)
}

/// Every entry of a log stands where its leader has put it.
pub open spec fn sound(h: History, entries: Seq<LogEntryView>) -> bool {
    &&& log::numbered(entries)
    &&& forall|k: int| 0 <= k < entries.len() ==> #[trigger] grounded(h, entries, k)
}

/// No entry is of a term above a bound.
pub open spec fn terms_up_to(entries: Seq<LogEntryView>, bound: int) -> bool {
    forall|k: int| 0 <= k < entries.len() ==> (#[trigger] entries[k]).term <= bound
}

pub open spec fn quorum(members: Set<NodeId>) -> nat {
    members.len() / 2 + 1
}

pub open spec fn is_quorum(members: Set<NodeId>, group: Set<NodeId>) -> bool {
    group.subset_of(members) && group.len() >= quorum(members)
}

/// The part of a leader's log that an acknowledgement covers.
pub open spec fn part(h: History, t: Term, k: int) -> Seq<LogEntryView> {
    h.reigns[t].log.take(k)
}

/// A log still has what was acknowledged in term `t`, unless a leader of a
/// term in between did not have it either.
pub open spec fn kept(h: History, t: Term, k: int, entries: Seq<LogEntryView>, bound: int) -> bool {
    starts(entries, part(h, t, k)) || exists|u: Term| #[trigger] lost_by(h, t, k, u, bound)
}

pub open spec fn lost_by(h: History, t: Term, k: int, u: Term, bound: int) -> bool {
    t < u < bound && h.reigns.contains_key(u) && !starts(h.reigns[u].log, part(h, t, k))
}

pub open spec fn reign_ok(h: History, members: Set<NodeId>, t: Term) -> bool {
    let r = h.reigns[t];
    &&& members.contains(r.leader)
    &&& sound(h, r.log)
    &&& terms_up_to(r.log, t as int)
    &&& h.bids.contains_key((t, r.leader))
    &&& starts(r.log, h.bids[(t, r.leader)])
    &&& is_quorum(members, r.electors)
    &&& forall|v: NodeId| #[trigger]
        r.electors.contains(v) ==> h.ballots.contains_key((t, v)) && h.ballots[(t, v)].candidate
            == r.leader
}

pub open spec fn ballot_ok(h: History, members: Set<NodeId>, t: Term, v: NodeId) -> bool {
    let b = h.ballots[(t, v)];
    let bid = h.bids[(t, b.candidate)];
    &&& members.contains(v)
    &&& h.bids.contains_key((t, b.candidate))
    &&& transition::up_to_date(log::last_term(bid), bid.len() as int, b.log)
    &&& sound(h, b.log)
}

pub open spec fn bid_ok(h: History, t: Term, c: NodeId) -> bool {
    &&& sound(h, h.bids[(t, c)])
    &&& terms_up_to(h.bids[(t, c)], t - 1)
}

pub open spec fn ack_ok(h: History, members: Set<NodeId>, v: NodeId, t: Term, k: int) -> bool {
    &&& members.contains(v)
    &&& h.reigns.contains_key(t)
    &&& 0 <= k <= h.reigns[t].log.len()
    &&& forall|j: int| 0 <= j <= k ==> #[trigger] h.acks.contains((v, t, j))
}

/// A ballot that counts was cast with everything that its voter had
/// acknowledged before.
pub open spec fn vote_kept(h: History, v: NodeId, t: Term, k: int, u: Term) -> bool {
    t < u && (!h.reigns.contains_key(u) || h.reigns[u].electors.contains(v)) ==> kept(
        h,
        t,
        k,
        h.ballots[(u, v)].log,
        u as int,
    )
}

pub open spec fn history_ok(h: History, members: Set<NodeId>) -> bool {
    &&& members.finite()
    &&& forall|t: Term| #[trigger] h.reigns.contains_key(t) ==> reign_ok(h, members, t)
    &&& forall|t: Term, v: NodeId| #[trigger]
        h.ballots.contains_key((t, v)) ==> ballot_ok(h, members, t, v)
    &&& forall|t: Term, c: NodeId| #[trigger] h.bids.contains_key((t, c)) ==> bid_ok(h, t, c)
    &&& forall|v: NodeId, t: Term, k: int| #[trigger]
        h.acks.contains((v, t, k)) ==> ack_ok(h, members, v, t, k)
    &&& forall|v: NodeId, t: Term, k: int, u: Term|
        #![trigger h.acks.contains((v, t, k)), h.ballots.contains_key((u, v))]
        h.acks.contains((v, t, k)) && h.ballots.contains_key((u, v)) ==> vote_kept(h, v, t, k, u)
}

/// A leader's own entry that a majority has acknowledged.
pub open spec fn chosen(h: History, members: Set<NodeId>, t: Term, k: int) -> bool {
    &&& h.reigns.contains_key(t)
    &&& 1 <= k <= h.reigns[t].log.len()
    &&& h.reigns[t].log[k - 1].term == t
    &&& exists|group: Set<NodeId>| #[trigger] acked_by(h, members, group, t, k)
}

pub open spec fn acked_by(
    h: History,
    members: Set<NodeId>,
    group: Set<NodeId>,
    t: Term,
    k: int,
) -> bool {
    &&& is_quorum(members, group)
    &&& forall|v: NodeId| #[trigger] group.contains(v) ==> h.acks.contains((v, t, k))
}

/// The first `count` entries of a log were chosen, by a leader of a term up
/// to `bound`.
pub open spec fn backed(
    h: History,
    members: Set<NodeId>,
    entries: Seq<LogEntryView>,
    count: int,
    bound: int,
) -> bool {
    count == 0 || exists|t: Term, k: int| #[trigger]
        backed_by(h, members, entries, count, bound, t, k)
}

pub open spec fn backed_by(
    h: History,
    members: Set<NodeId>,
    entries: Seq<LogEntryView>,
    count: int,
    bound: int,
    t: Term,
    k: int,
) -> bool {
    &&& chosen(h, members, t, k)
    &&& 0 <= count <= k
    &&& t <= bound
    &&& count <= entries.len()
    &&& entries.take(count) == h.reigns[t].log.take(count)
}

pub open spec fn votes_ok(h: History, members: Set<NodeId>, n: NodeView) -> bool {
    &&& forall|t: Term| #[trigger]
        h.ballots.contains_key((t, n.id)) ==> t <= n.current_term && (t == n.current_term
            ==> n.voted_for == Some(h.ballots[(t, n.id)].candidate))
    &&& n.voted_for matches Some(c) ==> h.ballots.contains_key((n.current_term, n.id))
        && h.ballots[(n.current_term, n.id)].candidate == c
    &&& forall|t: Term| #[trigger] h.bids.contains_key((t, n.id)) ==> t <= n.current_term
    &&& forall|t: Term| #[trigger]
        h.reigns.contains_key(t) && h.reigns[t].leader == n.id ==> t <= n.current_term
    &&& forall|t: Term, k: int| #[trigger]
        h.acks.contains((n.id, t, k)) ==> t <= n.current_term && kept(
            h,
            t,
            k,
            n.log,
            n.current_term + 1,
        )
}

pub open spec fn candidate_ok(
    h: History,
    members: Set<NodeId>,
    n: NodeView,
    votes: Set<NodeId>,
) -> bool {
    &&& h.bids.contains_key((n.current_term, n.id))
    &&& h.bids[(n.current_term, n.id)] == n.log
    &&& votes.subset_of(members)
    &&& forall|v: NodeId| #[trigger]
        votes.contains(v) ==> h.ballots.contains_key((n.current_term, v)) && h.ballots[(
            n.current_term,
            v,
        )].candidate == n.id
    &&& h.reigns.contains_key(n.current_term) ==> h.reigns[n.current_term].leader != n.id
}

pub open spec fn leader_ok(
    h: History,
    members: Set<NodeId>,
    n: NodeView,
    next_index: Map<NodeId, LogIndex>,
    match_index: Map<NodeId, LogIndex>,
) -> bool {
    &&& h.reigns.contains_key(n.current_term)
    &&& h.reigns[n.current_term].leader == n.id
    &&& h.reigns[n.current_term].log == n.log
    &&& h.acks.contains((n.id, n.current_term, n.log.len() as int))
    &&& forall|p: NodeId| #[trigger]
        next_index.contains_key(p) ==> 1 <= next_index[p] <= n.log.len() + 1
    &&& forall|p: NodeId| #[trigger]
        match_index.contains_key(p) ==> n.peers.contains(p) && (match_index[p] > 0
            ==> h.acks.contains((p, n.current_term, match_index[p] as int)))
}

pub open spec fn node_ok(h: History, members: Set<NodeId>, n: NodeView) -> bool {
    &&& members.contains(n.id)
    &&& cluster::peers_of(members, n.id, n.peers)
    &&& sound(h, n.log)
    &&& terms_up_to(n.log, n.current_term as int)
    &&& votes_ok(h, members, n)
    &&& match n.role {
        RoleView::Follower => true,
        RoleView::Candidate { votes } => candidate_ok(h, members, n, votes),
        RoleView::Leader { next_index, match_index } => leader_ok(
            h,
            members,
            n,
            next_index,
            match_index,
        ),
    }
    &&& n.last_applied <= n.commit_index <= n.log.len()
    &&& backed(h, members, n.log, n.commit_index as int, n.current_term as int)
}

pub open spec fn append_ok(
    h: History,
    members: Set<NodeId>,
    from: NodeId,
    req: AppendEntriesView,
) -> bool {
    let whole = h.reigns[req.term].log;
    let end = req.prev_log_index + req.entries.len();
    &&& h.reigns.contains_key(req.term)
    &&& h.reigns[req.term].leader == from
    &&& req.leader_id == from
    &&& end <= whole.len()
    &&& req.entries == whole.subrange(req.prev_log_index as int, end as int)
    &&& log::term_at(whole, req.prev_log_index as int) == Some(req.prev_log_term)
    &&& req.leader_commit <= end
    &&& backed(h, members, whole, req.leader_commit as int, req.term as int)
}

pub open spec fn packet_ok(h: History, members: Set<NodeId>, p: Packet) -> bool {
    &&& members.contains(p.from)
    &&& members.contains(p.to)
    &&& p.from != p.to
    &&& match p.message {
        MessageView::RequestVote(req) => {
            let bid = h.bids[(req.term, p.from)];
            &&& req.candidate_id == p.from
            &&& h.bids.contains_key((req.term, p.from))
            &&& req.last_log_index == bid.len()
            &&& req.last_log_term == log::last_term(bid)
        },
        MessageView::RequestVoteResp(resp) => resp.vote_granted ==> h.ballots.contains_key(
            (resp.term, p.from),
        ) && h.ballots[(resp.term, p.from)].candidate == p.to,
        MessageView::AppendEntries(req) => append_ok(h, members, p.from, req),
        MessageView::AppendEntriesResp(resp) => resp.success ==> {
            &&& h.reigns.contains_key(resp.term)
            &&& h.reigns[resp.term].leader == p.to
            &&& h.acks.contains((p.from, resp.term, resp.match_index as int))
        },
    }
}

/// A history that goes on by what one node does.
pub open spec fn grown(h: History, g: History, actor: NodeId) -> bool {
    &&& forall|t: Term| #[trigger]
        h.reigns.contains_key(t) ==> {
            &&& g.reigns.contains_key(t)
            &&& g.reigns[t].leader == h.reigns[t].leader
            &&& g.reigns[t].electors == h.reigns[t].electors
            &&& starts(g.reigns[t].log, h.reigns[t].log)
            &&& h.reigns[t].leader != actor ==> g.reigns[t].log == h.reigns[t].log
            &&& forall|k: int|
                h.reigns[t].log.len() <= k < g.reigns[t].log.len() ==> (
                #[trigger] g.reigns[t].log[k]).term == t
        }
    &&& forall|t: Term| #[trigger]
        g.reigns.contains_key(t) && !h.reigns.contains_key(t) ==> g.reigns[t].leader == actor
    &&& forall|x: (Term, NodeId)| #[trigger]
        h.ballots.contains_key(x) ==> g.ballots.contains_key(x) && g.ballots[x] == h.ballots[x]
    &&& forall|x: (Term, NodeId)| #[trigger]
        g.ballots.contains_key(x) && !h.ballots.contains_key(x) ==> x.1 == actor
    &&& forall|x: (Term, NodeId)| #[trigger]
        h.bids.contains_key(x) ==> g.bids.contains_key(x) && g.bids[x] == h.bids[x]
    &&& forall|x: (Term, NodeId)| #[trigger]
        g.bids.contains_key(x) && !h.bids.contains_key(x) ==> x.1 == actor
    &&& forall|a: (NodeId, Term, int)| #[trigger] h.acks.contains(a) ==> g.acks.contains(a)
    &&& forall|a: (NodeId, Term, int)| #[trigger]
        g.acks.contains(a) && !h.acks.contains(a) ==> a.0 == actor
}

proof fn starts_take(whole: Seq<LogEntryView>, small: Seq<LogEntryView>, k: int)
    requires
        starts(whole, small),
        0 <= k <= small.len(),
    ensures
        whole.take(k) == small.take(k),
        starts(whole, small.take(k)),
{
    assert(whole.take(k) =~= whole.take(small.len() as int).take(k));
}

proof fn sound_grows(h: History, g: History, actor: NodeId, entries: Seq<LogEntryView>)
    requires
        grown(h, g, actor),
        sound(h, entries),
    ensures
        sound(g, entries),
{
    assert forall|k: int| 0 <= k < entries.len() implies #[trigger] grounded(g, entries, k) by {
        assert(grounded(h, entries, k));
        let t = entries[k].term;
        starts_take(g.reigns[t].log, h.reigns[t].log, k + 1);
    }
}

proof fn kept_grows(
    h: History,
    g: History,
    actor: NodeId,
    t: Term,
    k: int,
    entries: Seq<LogEntryView>,
    bound: int,
)
    requires
        grown(h, g, actor),
        kept(h, t, k, entries, bound),
        h.reigns.contains_key(t),
        0 <= k <= h.reigns[t].log.len(),
        terms_up_to(h.reigns[t].log, t as int),
    ensures
        kept(g, t, k, entries, bound),
        part(g, t, k) == part(h, t, k),
{
    starts_take(g.reigns[t].log, h.reigns[t].log, k);
    if !starts(entries, part(h, t, k)) {
        let u = choose|u: Term| #[trigger] lost_by(h, t, k, u, bound);
        if starts(g.reigns[u].log, part(g, t, k)) {
            let old_log = h.reigns[u].log;
            let new_log = g.reigns[u].log;
            if k <= old_log.len() {
                assert(new_log.take(k) =~= new_log.take(old_log.len() as int).take(k));
                assert(old_log.take(k) == part(h, t, k));
                assert(starts(old_log, part(h, t, k)));
            } else {
                assert(new_log[k - 1].term == u);
                assert(new_log.take(k)[k - 1] == part(h, t, k)[k - 1]);
                assert(part(h, t, k)[k - 1] == h.reigns[t].log[k - 1]);
            }
            assert(false);
        }
        assert(lost_by(g, t, k, u, bound));
    }
}

proof fn chosen_grows(h: History, g: History, actor: NodeId, members: Set<NodeId>, t: Term, k: int)
    requires
        grown(h, g, actor),
        chosen(h, members, t, k),
    ensures
        chosen(g, members, t, k),
{
    let group = choose|group: Set<NodeId>| #[trigger] acked_by(h, members, group, t, k);
    assert(acked_by(g, members, group, t, k));
    let old_log = h.reigns[t].log;
    assert(g.reigns[t].log.take(old_log.len() as int)[k - 1] == old_log[k - 1]);
}

proof fn backed_grows(
    h: History,
    g: History,
    actor: NodeId,
    members: Set<NodeId>,
    entries: Seq<LogEntryView>,
    longer: Seq<LogEntryView>,
    count: int,
    bound: int,
    later: int,
)
    requires
        grown(h, g, actor),
        backed(h, members, entries, count, bound),
        bound <= later,
        0 <= count <= entries.len(),
        count <= longer.len(),
        longer.take(count) == entries.take(count),
    ensures
        backed(g, members, longer, count, later),
{
    if count != 0 {
        let (t, k) = choose|t: Term, k: int| #[trigger]
            backed_by(h, members, entries, count, bound, t, k);
        chosen_grows(h, g, actor, members, t, k);
        starts_take(g.reigns[t].log, h.reigns[t].log, count);
        assert(backed_by(g, members, longer, count, later, t, k));
    }
}

proof fn packet_grows(h: History, g: History, actor: NodeId, members: Set<NodeId>, p: Packet)
    requires
        grown(h, g, actor),
        packet_ok(h, members, p),
    ensures
        packet_ok(g, members, p),
{
    if let MessageView::AppendEntries(req) = p.message {
        let old_log = h.reigns[req.term].log;
        let new_log = g.reigns[req.term].log;
        let prev = req.prev_log_index as int;
        let end = prev + req.entries.len();
        assert(new_log.subrange(prev, end) =~= new_log.take(old_log.len() as int).subrange(
            prev,
            end,
        ));
        if prev > 0 {
            assert(new_log.take(old_log.len() as int)[prev - 1] == old_log[prev - 1]);
        }
        starts_take(new_log, old_log, req.leader_commit as int);
        backed_grows(
            h,
            g,
            actor,
            members,
            old_log,
            new_log,
            req.leader_commit as int,
            req.term as int,
            req.term as int,
        );
    }
}

proof fn node_grows(h: History, g: History, actor: NodeId, members: Set<NodeId>, n: NodeView)
    requires
        history_ok(h, members),
        grown(h, g, actor),
        node_ok(h, members, n),
        n.id != actor,
    ensures
        node_ok(g, members, n),
{
    sound_grows(h, g, actor, n.log);
    backed_grows(
        h,
        g,
        actor,
        members,
        n.log,
        n.log,
        n.commit_index as int,
        n.current_term as int,
        n.current_term as int,
    );
    assert forall|t: Term| #[trigger] g.ballots.contains_key((t, n.id)) implies t
        <= n.current_term && (t == n.current_term ==> n.voted_for == Some(
        g.ballots[(t, n.id)].candidate,
    )) by {
        assert(h.ballots.contains_key((t, n.id)));
    }
    assert forall|t: Term| #[trigger] g.bids.contains_key((t, n.id)) implies t
        <= n.current_term by {
        assert(h.bids.contains_key((t, n.id)));
    }
    assert forall|t: Term| #[trigger]
        g.reigns.contains_key(t) && g.reigns[t].leader == n.id implies t <= n.current_term by {
        assert(h.reigns.contains_key(t));
    }
    assert forall|t: Term, k: int| #[trigger] g.acks.contains((n.id, t, k)) implies t
        <= n.current_term && kept(g, t, k, n.log, n.current_term + 1) by {
        assert(h.acks.contains((n.id, t, k)));
        assert(ack_ok(h, members, n.id, t, k));
        assert(reign_ok(h, members, t));
        kept_grows(h, g, actor, t, k, n.log, n.current_term + 1);
    }
    match n.role {
        RoleView::Candidate { votes } => {
            if g.reigns.contains_key(n.current_term) {
                assert(g.reigns[n.current_term].leader != n.id);
            }
        },
        RoleView::Leader { next_index, match_index } => {},
        _ => {},
    }
}

/// Two majorities have a member in common.
pub proof fn quorums_meet(members: Set<NodeId>, a: Set<NodeId>, b: Set<NodeId>) -> (v: NodeId)
    requires
        members.finite(),
        is_quorum(members, a),
        is_quorum(members, b),
    ensures
        a.contains(v),
        b.contains(v),
        members.contains(v),
{
    vstd::set_lib::lemma_len_subset(a, members);
    vstd::set_lib::lemma_len_subset(b, members);
    if a.disjoint(b) {
        vstd::set_lib::lemma_set_disjoint_lens(a, b);
        assert((a + b).subset_of(members));
        vstd::set_lib::lemma_len_subset(a + b, members);
        assert(false);
    }
    choose|v: NodeId| a.contains(v) && b.contains(v)
}

/// The last entry of a sound log has the highest term in it, and the log is
/// the beginning of what the leader of that term wrote.
proof fn last_term_is_highest(h: History, members: Set<NodeId>, entries: Seq<LogEntryView>)
    requires
        history_ok(h, members),
        sound(h, entries),
        entries.len() > 0,
    ensures
        h.reigns.contains_key(log::last_term(entries)),
        starts(h.reigns[log::last_term(entries)].log, entries),
        terms_up_to(entries, log::last_term(entries) as int),
{
    let t = log::last_term(entries);
    let n = entries.len() as int;
    assert(grounded(h, entries, n - 1));
    assert(entries.take(n) =~= entries);
    assert(reign_ok(h, members, t));
    assert forall|k: int| 0 <= k < n implies (#[trigger] entries[k]).term <= t by {
        assert(h.reigns[t].log.take(n)[k] == entries[k]);
        assert(h.reigns[t].log[k].term <= t);
    }
}

/// What a majority has acknowledged of a leader's own entries is in the log
/// of every later leader.
proof fn chosen_stays(h: History, members: Set<NodeId>, t: Term, k: int, u: Term)
    requires
        history_ok(h, members),
        chosen(h, members, t, k),
        h.reigns.contains_key(u),
        t < u,
    ensures
        starts(h.reigns[u].log, part(h, t, k)),
    decreases u,
{
    let group = choose|group: Set<NodeId>| #[trigger] acked_by(h, members, group, t, k);
    let r = h.reigns[u];
    assert(reign_ok(h, members, u));
    assert(reign_ok(h, members, t));
    let v = quorums_meet(members, group, r.electors);
    assert(h.acks.contains((v, t, k)));
    assert(h.ballots.contains_key((u, v)));
    assert(vote_kept(h, v, t, k, u));
    assert(ballot_ok(h, members, u, v));
    let b = h.ballots[(u, v)].log;
    let bid = h.bids[(u, r.leader)];
    let want = part(h, t, k);
    if !starts(b, want) {
        let w = choose|w: Term| #[trigger] lost_by(h, t, k, w, u as int);
        chosen_stays(h, members, t, k, w);
        assert(false);
    }
    assert(bid_ok(h, u, r.leader));
    assert(b.take(k)[k - 1] == want[k - 1]);
    assert(b[k - 1].term == t);
    last_term_is_highest(h, members, b);
    let tb = log::last_term(b);
    assert(t <= tb);
    assert(bid.len() > 0);
    last_term_is_highest(h, members, bid);
    let tc = log::last_term(bid);
    assert(bid[bid.len() - 1].term == tc);
    if tc == tb {
        starts_take(h.reigns[tc].log, bid, k);
        starts_take(h.reigns[tc].log, b, k);
        assert(bid.take(k) == want);
    } else {
        assert(tc > tb);
        chosen_stays(h, members, t, k, tc);
        let w = h.reigns[tc].log;
        if bid.len() <= k {
            let j = bid.len() - 1;
            assert(w.take(bid.len() as int)[j] == bid[j]);
            assert(w.take(k)[j] == want[j]);
            assert(want[j] == h.reigns[t].log[j]);
            assert(h.reigns[t].log[j].term <= t);
            assert(false);
        }
        starts_take(w, bid, k);
        assert(bid.take(k) == want);
    }
    starts_take(r.log, bid, k);
}

/// The history in which a node stands for election and votes for itself.
spec fn with_bid(h: History, t: Term, id: NodeId, entries: Seq<LogEntryView>) -> History {
    History {
        bids: h.bids.insert((t, id), entries),
        ballots: h.ballots.insert((t, id), Ballot { candidate: id, log: entries }),
        ..h
    }
}

proof fn bid_extends(h: History, members: Set<NodeId>, n: NodeView, t: Term)
    requires
        history_ok(h, members),
        node_ok(h, members, n),
        n.current_term < t,
    ensures
        history_ok(with_bid(h, t, n.id, n.log), members),
        grown(h, with_bid(h, t, n.id, n.log), n.id),
{
    let g = with_bid(h, t, n.id, n.log);
    assert(!h.ballots.contains_key((t, n.id)));
    assert(!h.bids.contains_key((t, n.id)));
    assert forall|s: Term| #[trigger] h.reigns.contains_key(s) implies starts(
        g.reigns[s].log,
        h.reigns[s].log,
    ) by {
        assert(h.reigns[s].log.take(h.reigns[s].log.len() as int) =~= h.reigns[s].log);
    }
    assert(grown(h, g, n.id));
    assert forall|s: Term| #[trigger] g.reigns.contains_key(s) implies reign_ok(g, members, s) by {
        assert(reign_ok(h, members, s));
        sound_grows(h, g, n.id, h.reigns[s].log);
    }
    assert forall|s: Term, v: NodeId| #[trigger] g.ballots.contains_key((s, v)) implies ballot_ok(
        g,
        members,
        s,
        v,
    ) by {
        if s == t && v == n.id {
            sound_grows(h, g, n.id, n.log);
        } else {
            assert(h.ballots.contains_key((s, v)));
            assert(ballot_ok(h, members, s, v));
            sound_grows(h, g, n.id, h.ballots[(s, v)].log);
        }
    }
    assert forall|s: Term, c: NodeId| #[trigger] g.bids.contains_key((s, c)) implies bid_ok(
        g,
        s,
        c,
    ) by {
        if s == t && c == n.id {
            sound_grows(h, g, n.id, n.log);
        } else {
            assert(h.bids.contains_key((s, c)));
            assert(bid_ok(h, s, c));
            sound_grows(h, g, n.id, h.bids[(s, c)]);
        }
    }
    assert forall|v: NodeId, s: Term, k: int| #[trigger] g.acks.contains((v, s, k)) implies ack_ok(
        g,
        members,
        v,
        s,
        k,
    ) by {
        assert(h.acks.contains((v, s, k)));
        assert(ack_ok(h, members, v, s, k));
    }
    assert forall|v: NodeId, s: Term, k: int, u: Term|
        #![trigger g.acks.contains((v, s, k)), g.ballots.contains_key((u, v))]
        g.acks.contains((v, s, k)) && g.ballots.contains_key((u, v)) implies vote_kept(
        g,
        v,
        s,
        k,
        u,
    ) by {
        assert(h.acks.contains((v, s, k)));
        assert(ack_ok(h, members, v, s, k));
        assert(reign_ok(h, members, s));
        if s < u && (!g.reigns.contains_key(u) || g.reigns[u].electors.contains(v)) {
            if u == t && v == n.id {
                kept_grows(h, g, n.id, s, k, n.log, n.current_term + 1);
                if !starts(n.log, part(g, s, k)) {
                    let w = choose|w: Term| #[trigger] lost_by(g, s, k, w, n.current_term + 1);
                    assert(lost_by(g, s, k, w, u as int));
                }
            } else {
                assert(h.ballots.contains_key((u, v)));
                assert(vote_kept(h, v, s, k, u));
                kept_grows(h, g, n.id, s, k, h.ballots[(u, v)].log, u as int);
            }
        }
    }
}

/// The history in which a node votes for a candidate.
spec fn with_vote(
    h: History,
    t: Term,
    voter: NodeId,
    candidate: NodeId,
    entries: Seq<LogEntryView>,
) -> History {
    History { ballots: h.ballots.insert((t, voter), Ballot { candidate, log: entries }), ..h }
}

proof fn vote_extends(h: History, members: Set<NodeId>, n: NodeView, c: NodeId)
    requires
        history_ok(h, members),
        node_ok(h, members, n),
        n.voted_for is None,
        h.bids.contains_key((n.current_term, c)),
        transition::up_to_date(
            log::last_term(h.bids[(n.current_term, c)]),
            h.bids[(n.current_term, c)].len() as int,
            n.log,
        ),
    ensures
        history_ok(with_vote(h, n.current_term, n.id, c, n.log), members),
        grown(h, with_vote(h, n.current_term, n.id, c, n.log), n.id),
{
    let t = n.current_term;
    let g = with_vote(h, t, n.id, c, n.log);
    assert(!h.ballots.contains_key((t, n.id)));
    assert forall|s: Term| #[trigger] h.reigns.contains_key(s) implies starts(
        g.reigns[s].log,
        h.reigns[s].log,
    ) by {
        assert(h.reigns[s].log.take(h.reigns[s].log.len() as int) =~= h.reigns[s].log);
    }
    assert(grown(h, g, n.id));
    assert forall|s: Term| #[trigger] g.reigns.contains_key(s) implies reign_ok(g, members, s) by {
        assert(reign_ok(h, members, s));
        sound_grows(h, g, n.id, h.reigns[s].log);
    }
    assert forall|s: Term, v: NodeId| #[trigger] g.ballots.contains_key((s, v)) implies ballot_ok(
        g,
        members,
        s,
        v,
    ) by {
        if s == t && v == n.id {
            sound_grows(h, g, n.id, n.log);
        } else {
            assert(h.ballots.contains_key((s, v)));
            assert(ballot_ok(h, members, s, v));
            sound_grows(h, g, n.id, h.ballots[(s, v)].log);
        }
    }
    assert forall|s: Term, x: NodeId| #[trigger] g.bids.contains_key((s, x)) implies bid_ok(
        g,
        s,
        x,
    ) by {
        assert(bid_ok(h, s, x));
        sound_grows(h, g, n.id, h.bids[(s, x)]);
    }
    assert forall|v: NodeId, s: Term, k: int| #[trigger] g.acks.contains((v, s, k)) implies ack_ok(
        g,
        members,
        v,
        s,
        k,
    ) by {
        assert(h.acks.contains((v, s, k)));
        assert(ack_ok(h, members, v, s, k));
    }
    assert forall|v: NodeId, s: Term, k: int, u: Term|
        #![trigger g.acks.contains((v, s, k)), g.ballots.contains_key((u, v))]
        g.acks.contains((v, s, k)) && g.ballots.contains_key((u, v)) implies vote_kept(
        g,
        v,
        s,
        k,
        u,
    ) by {
        assert(h.acks.contains((v, s, k)));
        assert(ack_ok(h, members, v, s, k));
        assert(reign_ok(h, members, s));
        if s < u && (!g.reigns.contains_key(u) || g.reigns[u].electors.contains(v)) {
            if u == t && v == n.id {
                if h.reigns.contains_key(t) {
                    assert(reign_ok(h, members, t));
                    assert(h.reigns[t].electors.contains(v));
                    assert(false);
                }
                kept_grows(h, g, n.id, s, k, n.log, t + 1);
                if !starts(n.log, part(g, s, k)) {
                    let w = choose|w: Term| #[trigger] lost_by(g, s, k, w, t + 1);
                    assert(lost_by(g, s, k, w, u as int));
                }
            } else {
                assert(h.ballots.contains_key((u, v)));
                assert(vote_kept(h, v, s, k, u));
                kept_grows(h, g, n.id, s, k, h.ballots[(u, v)].log, u as int);
            }
        }
    }
}

/// The history in which a node acknowledges a leader's log up to a place.
spec fn with_ack(h: History, v: NodeId, t: Term, k: int) -> History {
    History {
        acks: Set::new(
            |a: (NodeId, Term, int)|
                h.acks.contains(a) || (a.0 == v && a.1 == t && 0 <= a.2 <= k),
        ),
        ..h
    }
}

proof fn ack_extends(h: History, members: Set<NodeId>, n: NodeView, k: int)
    requires
        history_ok(h, members),
        members.contains(n.id),
        forall|t: Term| #[trigger] h.ballots.contains_key((t, n.id)) ==> t <= n.current_term,
        h.reigns.contains_key(n.current_term),
        0 <= k <= h.reigns[n.current_term].log.len(),
    ensures
        history_ok(with_ack(h, n.id, n.current_term, k), members),
        grown(h, with_ack(h, n.id, n.current_term, k), n.id),
{
    let t = n.current_term;
    let g = with_ack(h, n.id, t, k);
    assert forall|s: Term| #[trigger] h.reigns.contains_key(s) implies starts(
        g.reigns[s].log,
        h.reigns[s].log,
    ) by {
        assert(h.reigns[s].log.take(h.reigns[s].log.len() as int) =~= h.reigns[s].log);
    }
    assert(grown(h, g, n.id));
    assert forall|s: Term| #[trigger] g.reigns.contains_key(s) implies reign_ok(g, members, s) by {
        assert(reign_ok(h, members, s));
        sound_grows(h, g, n.id, h.reigns[s].log);
    }
    assert forall|s: Term, v: NodeId| #[trigger] g.ballots.contains_key((s, v)) implies ballot_ok(
        g,
        members,
        s,
        v,
    ) by {
        assert(ballot_ok(h, members, s, v));
        sound_grows(h, g, n.id, h.ballots[(s, v)].log);
    }
    assert forall|s: Term, x: NodeId| #[trigger] g.bids.contains_key((s, x)) implies bid_ok(
        g,
        s,
        x,
    ) by {
        assert(bid_ok(h, s, x));
        sound_grows(h, g, n.id, h.bids[(s, x)]);
    }
    assert forall|v: NodeId, s: Term, j: int| #[trigger] g.acks.contains((v, s, j)) implies ack_ok(
        g,
        members,
        v,
        s,
        j,
    ) by {
        if h.acks.contains((v, s, j)) {
            assert(ack_ok(h, members, v, s, j));
            assert forall|i: int| 0 <= i <= j implies #[trigger] g.acks.contains((v, s, i)) by {
                assert(h.acks.contains((v, s, i)));
            }
        }
    }
    assert forall|v: NodeId, s: Term, j: int, u: Term|
        #![trigger g.acks.contains((v, s, j)), g.ballots.contains_key((u, v))]
        g.acks.contains((v, s, j)) && g.ballots.contains_key((u, v)) implies vote_kept(
        g,
        v,
        s,
        j,
        u,
    ) by {
        if s < u && (!g.reigns.contains_key(u) || g.reigns[u].electors.contains(v)) {
            if !h.acks.contains((v, s, j)) {
                assert(h.ballots.contains_key((u, n.id)));
                assert(false);
            }
            assert(ack_ok(h, members, v, s, j));
            assert(reign_ok(h, members, s));
            assert(h.ballots.contains_key((u, v)));
            assert(vote_kept(h, v, s, j, u));
            kept_grows(h, g, n.id, s, j, h.ballots[(u, v)].log, u as int);
        }
    }
}

/// The history in which a candidate becomes leader.
spec fn with_reign(h: History, t: Term, id: NodeId, entries: Seq<LogEntryView>, votes: Set<NodeId>) -> History {
    History {
        reigns: h.reigns.insert(t, Reign { leader: id, log: entries, electors: votes }),
        ..h
    }
}

/// A term has one leader: a candidate with a majority of the votes is alone.
proof fn majority_is_alone(h: History, members: Set<NodeId>, n: NodeView, votes: Set<NodeId>)
    requires
        history_ok(h, members),
        candidate_ok(h, members, n, votes),
        is_quorum(members, votes),
    ensures
        !h.reigns.contains_key(n.current_term),
{
    let t = n.current_term;
    if h.reigns.contains_key(t) {
        assert(reign_ok(h, members, t));
        let v = quorums_meet(members, votes, h.reigns[t].electors);
        assert(h.ballots[(t, v)].candidate == n.id);
        assert(false);
    }
}

proof fn reign_extends(h: History, members: Set<NodeId>, n: NodeView, votes: Set<NodeId>)
    requires
        history_ok(h, members),
        members.contains(n.id),
        candidate_ok(h, members, n, votes),
        is_quorum(members, votes),
    ensures
        history_ok(with_reign(h, n.current_term, n.id, n.log, votes), members),
        grown(h, with_reign(h, n.current_term, n.id, n.log, votes), n.id),
{
    let t = n.current_term;
    let g = with_reign(h, t, n.id, n.log, votes);
    majority_is_alone(h, members, n, votes);
    assert forall|s: Term| #[trigger] h.reigns.contains_key(s) implies starts(
        g.reigns[s].log,
        h.reigns[s].log,
    ) by {
        assert(h.reigns[s].log.take(h.reigns[s].log.len() as int) =~= h.reigns[s].log);
    }
    assert(grown(h, g, n.id));
    assert forall|s: Term| #[trigger] g.reigns.contains_key(s) implies reign_ok(g, members, s) by {
        if s == t {
            assert(bid_ok(h, t, n.id));
            sound_grows(h, g, n.id, n.log);
            assert(n.log.take(n.log.len() as int) =~= n.log);
            assert forall|k: int| 0 <= k < n.log.len() implies (#[trigger] n.log[k]).term <= t by {}
        } else {
            assert(reign_ok(h, members, s));
            sound_grows(h, g, n.id, h.reigns[s].log);
        }
    }
    assert forall|s: Term, v: NodeId| #[trigger] g.ballots.contains_key((s, v)) implies ballot_ok(
        g,
        members,
        s,
        v,
    ) by {
        assert(ballot_ok(h, members, s, v));
        sound_grows(h, g, n.id, h.ballots[(s, v)].log);
    }
    assert forall|s: Term, x: NodeId| #[trigger] g.bids.contains_key((s, x)) implies bid_ok(
        g,
        s,
        x,
    ) by {
        assert(bid_ok(h, s, x));
        sound_grows(h, g, n.id, h.bids[(s, x)]);
    }
    assert forall|v: NodeId, s: Term, j: int| #[trigger] g.acks.contains((v, s, j)) implies ack_ok(
        g,
        members,
        v,
        s,
        j,
    ) by {
        assert(h.acks.contains((v, s, j)));
        assert(ack_ok(h, members, v, s, j));
    }
    assert forall|v: NodeId, s: Term, j: int, u: Term|
        #![trigger g.acks.contains((v, s, j)), g.ballots.contains_key((u, v))]
        g.acks.contains((v, s, j)) && g.ballots.contains_key((u, v)) implies vote_kept(
        g,
        v,
        s,
        j,
        u,
    ) by {
        if s < u && (!g.reigns.contains_key(u) || g.reigns[u].electors.contains(v)) {
            assert(h.acks.contains((v, s, j)));
            assert(ack_ok(h, members, v, s, j));
            assert(reign_ok(h, members, s));
            assert(h.ballots.contains_key((u, v)));
            assert(vote_kept(h, v, s, j, u));
            kept_grows(h, g, n.id, s, j, h.ballots[(u, v)].log, u as int);
        }
    }
}

/// The history in which a leader appends an entry to its log.
spec fn with_entry(h: History, t: Term, entry: LogEntryView) -> History {
    History {
        reigns: h.reigns.insert(
            t,
            Reign { log: h.reigns[t].log.push(entry), ..h.reigns[t] },
        ),
        ..h
    }
}

proof fn entry_extends(h: History, members: Set<NodeId>, t: Term, entry: LogEntryView)
    requires
        history_ok(h, members),
        h.reigns.contains_key(t),
        entry.term == t,
        entry.index == h.reigns[t].log.len() + 1,
    ensures
        history_ok(with_entry(h, t, entry), members),
        grown(h, with_entry(h, t, entry), h.reigns[t].leader),
{
    let g = with_entry(h, t, entry);
    let actor = h.reigns[t].leader;
    let before = h.reigns[t].log;
    let now = g.reigns[t].log;
    assert forall|s: Term| #[trigger] h.reigns.contains_key(s) implies starts(
        g.reigns[s].log,
        h.reigns[s].log,
    ) by {
        assert(g.reigns[s].log.take(h.reigns[s].log.len() as int) =~= h.reigns[s].log);
    }
    assert(grown(h, g, actor));
    assert forall|s: Term| #[trigger] g.reigns.contains_key(s) implies reign_ok(g, members, s) by {
        assert(reign_ok(h, members, s));
        sound_grows(h, g, actor, h.reigns[s].log);
        if s == t {
            assert(log::numbered(now));
            assert forall|k: int| 0 <= k < now.len() implies #[trigger] grounded(g, now, k) by {
                if k < before.len() {
                    assert(grounded(g, before, k));
                    assert(now.take(k + 1) =~= before.take(k + 1));
                    assert(now[k] == before[k]);
                }
            }
            let bid = h.bids[(t, actor)];
            assert(now.take(bid.len() as int) =~= before.take(bid.len() as int));
        }
    }
    assert forall|s: Term, v: NodeId| #[trigger] g.ballots.contains_key((s, v)) implies ballot_ok(
        g,
        members,
        s,
        v,
    ) by {
        assert(ballot_ok(h, members, s, v));
        sound_grows(h, g, actor, h.ballots[(s, v)].log);
    }
    assert forall|s: Term, x: NodeId| #[trigger] g.bids.contains_key((s, x)) implies bid_ok(
        g,
        s,
        x,
    ) by {
        assert(bid_ok(h, s, x));
        sound_grows(h, g, actor, h.bids[(s, x)]);
    }
    assert forall|v: NodeId, s: Term, j: int| #[trigger] g.acks.contains((v, s, j)) implies ack_ok(
        g,
        members,
        v,
        s,
        j,
    ) by {
        assert(h.acks.contains((v, s, j)));
        assert(ack_ok(h, members, v, s, j));
    }
    assert forall|v: NodeId, s: Term, j: int, u: Term|
        #![trigger g.acks.contains((v, s, j)), g.ballots.contains_key((u, v))]
        g.acks.contains((v, s, j)) && g.ballots.contains_key((u, v)) implies vote_kept(
        g,
        v,
        s,
        j,
        u,
    ) by {
        if s < u && (!g.reigns.contains_key(u) || g.reigns[u].electors.contains(v)) {
            assert(h.acks.contains((v, s, j)));
            assert(ack_ok(h, members, v, s, j));
            assert(reign_ok(h, members, s));
            assert(h.ballots.contains_key((u, v)));
            assert(vote_kept(h, v, s, j, u));
            kept_grows(h, g, actor, s, j, h.ballots[(u, v)].log, u as int);
        }
    }
}

proof fn grown_itself(h: History, actor: NodeId)
    ensures
        grown(h, h, actor),
{
    assert forall|s: Term| #[trigger] h.reigns.contains_key(s) implies starts(
        h.reigns[s].log,
        h.reigns[s].log,
    ) by {
        assert(h.reigns[s].log.take(h.reigns[s].log.len() as int) =~= h.reigns[s].log);
    }
}

proof fn grown_twice(h: History, g: History, f: History, actor: NodeId)
    requires
        grown(h, g, actor),
        grown(g, f, actor),
    ensures
        grown(h, f, actor),
{
    assert forall|t: Term| #[trigger] h.reigns.contains_key(t) implies {
        &&& f.reigns.contains_key(t)
        &&& f.reigns[t].leader == h.reigns[t].leader
        &&& f.reigns[t].electors == h.reigns[t].electors
        &&& starts(f.reigns[t].log, h.reigns[t].log)
        &&& h.reigns[t].leader != actor ==> f.reigns[t].log == h.reigns[t].log
        &&& forall|k: int|
            h.reigns[t].log.len() <= k < f.reigns[t].log.len() ==> (
            #[trigger] f.reigns[t].log[k]).term == t
    } by {
        let a = h.reigns[t].log;
        let b = g.reigns[t].log;
        let c = f.reigns[t].log;
        assert(g.reigns.contains_key(t));
        starts_take(c, b, a.len() as int);
        assert forall|k: int| a.len() <= k < c.len() implies (#[trigger] c[k]).term == t by {
            if k < b.len() {
                assert(c.take(b.len() as int)[k] == b[k]);
                assert(b[k].term == t);
            }
        }
    }
    assert forall|x: (Term, NodeId)| #[trigger] f.ballots.contains_key(x) && !h.ballots.contains_key(
        x,
    ) implies x.1 == actor by {
        if g.ballots.contains_key(x) {
        }
    }
    assert forall|x: (Term, NodeId)| #[trigger] f.bids.contains_key(x) && !h.bids.contains_key(
        x,
    ) implies x.1 == actor by {
        if g.bids.contains_key(x) {
        }
    }
    assert forall|a: (NodeId, Term, int)| #[trigger] f.acks.contains(a) && !h.acks.contains(
        a,
    ) implies a.0 == actor by {
        if g.acks.contains(a) {
        }
    }
    assert forall|t: Term| #[trigger] f.reigns.contains_key(t) && !h.reigns.contains_key(
        t,
    ) implies f.reigns[t].leader == actor by {
        if g.reigns.contains_key(t) {
        }
    }
}

proof fn kept_wider(h: History, t: Term, k: int, entries: Seq<LogEntryView>, a: int, b: int)
    requires
        kept(h, t, k, entries, a),
        a <= b,
    ensures
        kept(h, t, k, entries, b),
{
    if !starts(entries, part(h, t, k)) {
        let u = choose|u: Term| #[trigger] lost_by(h, t, k, u, a);
        assert(lost_by(h, t, k, u, b));
    }
}

pub proof fn backed_wider(
    h: History,
    members: Set<NodeId>,
    entries: Seq<LogEntryView>,
    count: int,
    a: int,
    b: int,
)
    requires
        backed(h, members, entries, count, a),
        a <= b,
    ensures
        backed(h, members, entries, count, b),
{
    if count != 0 {
        let (t, k) = choose|t: Term, k: int| #[trigger]
            backed_by(h, members, entries, count, a, t, k);
        assert(backed_by(h, members, entries, count, b, t, k));
    }
}

pub proof fn step_down_ok(h: History, members: Set<NodeId>, n: NodeView, term: Term)
    requires
        node_ok(h, members, n),
    ensures
        node_ok(h, members, transition::stepped_down(n, term)),
{
    if term > n.current_term {
        let m = transition::stepped_down(n, term);
        backed_wider(
            h,
            members,
            n.log,
            n.commit_index as int,
            n.current_term as int,
            term as int,
        );
        assert forall|t: Term| #[trigger] h.ballots.contains_key((t, m.id)) implies t
            <= m.current_term && (t == m.current_term ==> m.voted_for == Some(
            h.ballots[(t, m.id)].candidate,
        )) by {
            assert(t <= n.current_term);
        }
        assert forall|t: Term| #[trigger] h.bids.contains_key((t, m.id)) implies t
            <= m.current_term by {
            assert(t <= n.current_term);
        }
        assert forall|t: Term| #[trigger]
            h.reigns.contains_key(t) && h.reigns[t].leader == m.id implies t <= m.current_term by {
            assert(t <= n.current_term);
        }
        assert forall|t: Term, k: int| #[trigger] h.acks.contains((m.id, t, k)) implies t
            <= m.current_term && kept(h, t, k, m.log, m.current_term + 1) by {
            assert(h.acks.contains((n.id, t, k)));
            kept_wider(h, t, k, n.log, n.current_term + 1, m.current_term + 1);
        }
        assert forall|k: int| 0 <= k < m.log.len() implies (#[trigger] m.log[k]).term
            <= m.current_term by {}
    }
}

/// Every packet among some effects of a node is true to the history.
pub open spec fn sends_ok(
    h: History,
    members: Set<NodeId>,
    from: NodeId,
    effects: Seq<EffectView>,
) -> bool {
    forall|i: int|
        0 <= i < effects.len() ==> send_ok(h, members, from, #[trigger] effects[i])
}

pub open spec fn send_ok(
    h: History,
    members: Set<NodeId>,
    from: NodeId,
    effect: EffectView,
) -> bool {
    match effect {
        EffectView::Send(to, message) => packet_ok(h, members, Packet { from, to, message }),
        _ => true,
    }
}

proof fn sends_grow(
    h: History,
    g: History,
    actor: NodeId,
    members: Set<NodeId>,
    effects: Seq<EffectView>,
)
    requires
        grown(h, g, actor),
        sends_ok(h, members, actor, effects),
    ensures
        sends_ok(g, members, actor, effects),
{
    assert forall|i: int| 0 <= i < effects.len() implies send_ok(
        g,
        members,
        actor,
        #[trigger] effects[i],
    ) by {
        if let EffectView::Send(to, message) = effects[i] {
            assert(send_ok(h, members, actor, effects[i]));
            packet_grows(h, g, actor, members, Packet { from: actor, to, message });
        }
    }
}

/// What a leader sends to a peer is a piece of its own log.
proof fn append_for_ok(h: History, members: Set<NodeId>, n: NodeView, peer: NodeId)
    requires
        node_ok(h, members, n),
        n.role is Leader,
        n.peers.contains(peer),
        n.log.len() < u64::MAX,
    ensures
        packet_ok(
            h,
            members,
            Packet {
                from: n.id,
                to: peer,
                message: MessageView::AppendEntries(transition::append_for(n, peer)),
            },
        ),
{
    let req = transition::append_for(n, peer);
    let next = transition::next_for(n, peer) as int;
    let prev = req.prev_log_index as int;
    assert(1 <= next <= n.log.len() + 1);
    assert(prev == next - 1);
    assert(prev + req.entries.len() == n.log.len());
    assert(req.entries =~= n.log.subrange(prev, n.log.len() as int));
}

proof fn replication_ok(h: History, members: Set<NodeId>, n: NodeView)
    requires
        node_ok(h, members, n),
        n.role is Leader,
        n.log.len() < u64::MAX,
    ensures
        sends_ok(h, members, n.id, transition::replication(n)),
{
    let effects = transition::replication(n);
    assert forall|i: int| 0 <= i < effects.len() implies send_ok(
        h,
        members,
        n.id,
        #[trigger] effects[i],
    ) by {
        assert(n.peers.contains(n.peers[i]));
        append_for_ok(h, members, n, n.peers[i]);
    }
}

proof fn member_count(members: Set<NodeId>, id: NodeId, peers: Seq<NodeId>)
    requires
        members.finite(),
        members.contains(id),
        cluster::peers_of(members, id, peers),
    ensures
        members.len() == peers.len() + 1,
        quorum(members) == transition::majority(peers.len()),
{
    peers.unique_seq_to_set();
    assert(peers.to_set() =~= members.remove(id));
}

/// A node after it has won an election, if it has.
proof fn try_win_ok(h: History, members: Set<NodeId>, n: NodeView) -> (g: History)
    requires
        history_ok(h, members),
        node_ok(h, members, n),
        n.role is Candidate,
        n.log.len() < u64::MAX,
    ensures
        history_ok(g, members),
        grown(h, g, n.id),
        node_ok(g, members, transition::try_win(n).0),
        sends_ok(g, members, n.id, transition::try_win(n).1),
{
    let votes = n.role->votes;
    if votes.len() >= transition::majority(n.peers.len()) {
        let m = transition::elected(n);
        let t = n.current_term;
        let len = n.log.len() as int;
        member_count(members, n.id, n.peers);
        let f = with_reign(h, t, n.id, n.log, votes);
        reign_extends(h, members, n, votes);
        let g = with_ack(f, n.id, t, len);
        ack_extends(f, members, n, len);
        grown_twice(h, f, g, n.id);
        sound_grows(h, g, n.id, n.log);
        backed_grows(
            h,
            g,
            n.id,
            members,
            n.log,
            n.log,
            n.commit_index as int,
            t as int,
            t as int,
        );
        assert forall|s: Term, k: int| #[trigger] g.acks.contains((m.id, s, k)) implies s
            <= m.current_term && kept(g, s, k, m.log, m.current_term + 1) by {
            if h.acks.contains((n.id, s, k)) {
                assert(ack_ok(h, members, n.id, s, k));
                assert(reign_ok(h, members, s));
                kept_grows(h, g, n.id, s, k, n.log, t + 1);
            } else {
                assert(part(g, s, k) =~= n.log.take(k));
                assert(starts(m.log, part(g, s, k)));
            }
        }
        assert forall|s: Term| #[trigger] g.reigns.contains_key(s) && g.reigns[s].leader
            == m.id implies s <= m.current_term by {
            if s != t {
                assert(h.reigns.contains_key(s));
            }
        }
        assert(g.acks.contains((m.id, t, len)));
        assert(leader_ok(g, members, m, m.role->next_index, m.role->match_index));
        assert(node_ok(g, members, m));
        replication_ok(g, members, m);
        g
    } else {
        grown_itself(h, n.id);
        h
    }
}

/// What one step of a node leaves behind.
pub open spec fn stepped_ok(
    h: History,
    g: History,
    members: Set<NodeId>,
    n: NodeView,
    after: (NodeView, Seq<EffectView>),
) -> bool {
    &&& history_ok(g, members)
    &&& grown(h, g, n.id)
    &&& node_ok(g, members, after.0)
    &&& after.0.id == n.id
    &&& sends_ok(g, members, n.id, after.1)
}

proof fn election_ok(h: History, members: Set<NodeId>, n: NodeView) -> (g: History)
    requires
        history_ok(h, members),
        node_ok(h, members, n),
        n.current_term < u64::MAX,
        n.log.len() < u64::MAX,
    ensures
        stepped_ok(h, g, members, n, transition::start_election(n)),
{
    let m = transition::candidacy(n);
    let t = m.current_term;
    let f = with_bid(h, t, n.id, n.log);
    bid_extends(h, members, n, t);
    sound_grows(h, f, n.id, n.log);
    backed_grows(
        h,
        f,
        n.id,
        members,
        n.log,
        n.log,
        n.commit_index as int,
        n.current_term as int,
        t as int,
    );
    assert forall|s: Term, k: int| #[trigger] f.acks.contains((m.id, s, k)) implies s
        <= m.current_term && kept(f, s, k, m.log, m.current_term + 1) by {
        assert(h.acks.contains((n.id, s, k)));
        assert(ack_ok(h, members, n.id, s, k));
        assert(reign_ok(h, members, s));
        kept_grows(h, f, n.id, s, k, n.log, n.current_term + 1);
        kept_wider(f, s, k, n.log, n.current_term + 1, t + 1);
    }
    assert forall|k: int| 0 <= k < m.log.len() implies (#[trigger] m.log[k]).term
        <= m.current_term by {}
    assert forall|s: Term| #[trigger] f.ballots.contains_key((s, m.id)) implies s
        <= m.current_term && (s == m.current_term ==> m.voted_for == Some(
        f.ballots[(s, m.id)].candidate,
    )) by {
        if s != t {
            assert(h.ballots.contains_key((s, n.id)));
        }
    }
    assert forall|s: Term| #[trigger] f.bids.contains_key((s, m.id)) implies s
        <= m.current_term by {
        if s != t {
            assert(h.bids.contains_key((s, n.id)));
        }
    }
    assert(candidate_ok(f, members, m, m.role->votes));
    assert(node_ok(f, members, m));
    let requests = transition::vote_requests(m);
    assert forall|i: int| 0 <= i < requests.len() implies send_ok(
        f,
        members,
        n.id,
        #[trigger] requests[i],
    ) by {
        assert(m.peers.contains(m.peers[i]));
    }
    let g = try_win_ok(f, members, m);
    grown_twice(h, f, g, n.id);
    sends_grow(f, g, n.id, members, requests);
    let (won, announced) = transition::try_win(m);
    let all = seq![EffectView::Persist] + requests + announced;
    assert forall|i: int| 0 <= i < all.len() implies send_ok(
        g,
        members,
        n.id,
        #[trigger] all[i],
    ) by {
        if 1 <= i < 1 + requests.len() {
            assert(all[i] == requests[i - 1]);
        } else if i >= 1 + requests.len() {
            assert(all[i] == announced[i - 1 - requests.len()]);
        }
    }
    g
}

proof fn tick_ok(h: History, members: Set<NodeId>, n: NodeView) -> (g: History)
    requires
        history_ok(h, members),
        node_ok(h, members, n),
        transition::step_fits(n, EventView::Tick),
    ensures
        stepped_ok(h, g, members, n, transition::on_tick(n)),
{
    let later = NodeView { ticks_since_reset: (n.ticks_since_reset + 1) as u32, ..n };
    assert(node_ok(h, members, later));
    grown_itself(h, n.id);
    if n.role is Leader {
        replication_ok(h, members, later);
        h
    } else if later.ticks_since_reset >= n.election_timeout_ticks {
        election_ok(h, members, later)
    } else {
        h
    }
}

proof fn request_vote_ok(
    h: History,
    members: Set<NodeId>,
    n: NodeView,
    from: NodeId,
    req: RequestVoteReq,
) -> (g: History)
    requires
        history_ok(h, members),
        node_ok(h, members, n),
        packet_ok(
            h,
            members,
            Packet { from, to: n.id, message: MessageView::RequestVote(req) },
        ),
    ensures
        stepped_ok(h, g, members, n, transition::on_request_vote(n, from, req)),
{
    let m = transition::stepped_down(n, req.term);
    step_down_ok(h, members, n, req.term);
    grown_itself(h, n.id);
    let (done, effects) = transition::on_request_vote(n, from, req);
    if transition::grants(m, req) && m.voted_for is None {
        let g = with_vote(h, m.current_term, n.id, from, m.log);
        vote_extends(h, members, m, from);
        sound_grows(h, g, n.id, m.log);
        backed_grows(
            h,
            g,
            n.id,
            members,
            m.log,
            m.log,
            m.commit_index as int,
            m.current_term as int,
            m.current_term as int,
        );
        assert forall|s: Term, k: int| #[trigger] g.acks.contains((done.id, s, k)) implies s
            <= done.current_term && kept(g, s, k, done.log, done.current_term + 1) by {
            assert(h.acks.contains((m.id, s, k)));
            assert(ack_ok(h, members, m.id, s, k));
            assert(reign_ok(h, members, s));
            kept_grows(h, g, n.id, s, k, m.log, m.current_term + 1);
        }
        assert forall|s: Term| #[trigger] g.ballots.contains_key((s, done.id)) implies s
            <= done.current_term && (s == done.current_term ==> done.voted_for == Some(
            g.ballots[(s, done.id)].candidate,
        )) by {
            if s != m.current_term {
                assert(h.ballots.contains_key((s, m.id)));
            }
        }
        assert(node_ok(g, members, done));
        g
    } else {
        assert(node_ok(h, members, done));
        h
    }
}

proof fn vote_reply_ok(
    h: History,
    members: Set<NodeId>,
    n: NodeView,
    from: NodeId,
    resp: RequestVoteResp,
) -> (g: History)
    requires
        history_ok(h, members),
        node_ok(h, members, n),
        n.log.len() < u64::MAX,
        packet_ok(
            h,
            members,
            Packet { from, to: n.id, message: MessageView::RequestVoteResp(resp) },
        ),
    ensures
        stepped_ok(h, g, members, n, transition::on_request_vote_resp(n, from, resp)),
{
    let m = transition::stepped_down(n, resp.term);
    step_down_ok(h, members, n, resp.term);
    grown_itself(h, n.id);
    if m.role is Candidate && resp.term == m.current_term && resp.vote_granted {
        let votes = m.role->votes;
        let counted = NodeView {
            role: RoleView::Candidate { votes: votes.insert(from) },
            ..m
        };
        assert(candidate_ok(h, members, counted, votes.insert(from)));
        assert(node_ok(h, members, counted));
        let g = try_win_ok(h, members, counted);
        let announced = transition::try_win(counted).1;
        let all = transition::step_down_effects(n, resp.term) + announced;
        assert forall|i: int| 0 <= i < all.len() implies send_ok(
            g,
            members,
            n.id,
            #[trigger] all[i],
        ) by {
            let first = transition::step_down_effects(n, resp.term).len();
            if i >= first {
                assert(all[i] == announced[i - first]);
            }
        }
        g
    } else {
        h
    }
}

/// Peers that hold a log up to an index, as a set.
proof fn holders_as_set(
    peers: Seq<NodeId>,
    match_index: Map<NodeId, LogIndex>,
    index: int,
) -> (group: Set<NodeId>)
    requires
        peers.no_duplicates(),
    ensures
        group.finite(),
        group.len() == transition::holders(peers, match_index, index),
        forall|p: NodeId| #[trigger]
            group.contains(p) ==> peers.contains(p) && match_index.contains_key(p)
                && match_index[p] >= index,
    decreases peers.len(),
{
    if peers.len() == 0 {
        Set::empty()
    } else {
        let front = peers.drop_last();
        let peer = peers.last();
        let rest = holders_as_set(front, match_index, index);
        assert forall|p: NodeId| #[trigger] rest.contains(p) implies peers.contains(p) && p
            != peer by {
            let i = choose|i: int| 0 <= i < front.len() && front[i] == p;
            assert(peers[i] == p);
        }
        if match_index.contains_key(peer) && match_index[peer] >= index {
            assert(peers.contains(peer)) by {
                assert(peers[peers.len() - 1] == peer);
            }
            rest.insert(peer)
        } else {
            rest
        }
    }
}

/// What a leader may commit has been chosen.
proof fn committable_is_chosen(h: History, members: Set<NodeId>, n: NodeView, index: int)
    requires
        history_ok(h, members),
        node_ok(h, members, n),
        transition::committable(n, index),
    ensures
        chosen(h, members, n.current_term, index),
{
    let held = n.role->match_index;
    let t = n.current_term;
    member_count(members, n.id, n.peers);
    let rest = holders_as_set(n.peers, held, index);
    let group = rest.insert(n.id);
    assert(!rest.contains(n.id));
    assert forall|v: NodeId| #[trigger] group.contains(v) implies h.acks.contains(
        (v, t, index),
    ) by {
        if v == n.id {
            assert(ack_ok(h, members, n.id, t, n.log.len() as int));
        } else {
            assert(rest.contains(v));
            assert(ack_ok(h, members, v, t, held[v] as int));
        }
    }
    assert(acked_by(h, members, group, t, index));
}

pub proof fn highest_is_committable(n: NodeView, upto: int)
    ensures
        transition::highest_committable(n, upto) >= n.commit_index,
        transition::highest_committable(n, upto) > n.commit_index ==> transition::committable(
            n,
            transition::highest_committable(n, upto),
        ),
    decreases upto,
{
    if upto > n.commit_index && !transition::committable(n, upto) {
        highest_is_committable(n, upto - 1);
    }
}

proof fn advance_ok(h: History, members: Set<NodeId>, n: NodeView)
    requires
        history_ok(h, members),
        node_ok(h, members, n),
        n.role is Leader,
    ensures
        node_ok(h, members, transition::advance_commit(n).0),
        transition::advance_commit(n).0.log == n.log,
        sends_ok(h, members, n.id, transition::advance_commit(n).1),
{
    let commit = transition::highest_committable(n, n.log.len() as int);
    highest_is_committable(n, n.log.len() as int);
    if commit > n.commit_index {
        committable_is_chosen(h, members, n, commit);
        let done = transition::advance_commit(n).0;
        assert(backed_by(
            h,
            members,
            n.log,
            commit,
            n.current_term as int,
            n.current_term,
            commit,
        ));
        assert(node_ok(h, members, done));
    }
}

proof fn append_reply_ok(
    h: History,
    members: Set<NodeId>,
    n: NodeView,
    from: NodeId,
    resp: AppendEntriesResp,
) -> (g: History)
    requires
        history_ok(h, members),
        node_ok(h, members, n),
        n.log.len() < u64::MAX - 1,
        packet_ok(
            h,
            members,
            Packet { from, to: n.id, message: MessageView::AppendEntriesResp(resp) },
        ),
    ensures
        stepped_ok(h, g, members, n, transition::on_append_entries_resp(n, from, resp)),
        g == h,
{
    let m = transition::stepped_down(n, resp.term);
    step_down_ok(h, members, n, resp.term);
    grown_itself(h, n.id);
    if m.role is Leader && resp.term == m.current_term && m.role->match_index.contains_key(from) {
        let updated = transition::noted(m, from, resp.success, resp.match_index);
        let t = m.current_term;
        let known = m.role->match_index[from];
        if known > 0 {
            assert(ack_ok(h, members, from, t, known as int));
        }
        if resp.success {
            assert(ack_ok(h, members, from, t, resp.match_index as int));
        }
        assert(leader_ok(
            h,
            members,
            updated,
            updated.role->next_index,
            updated.role->match_index,
        ));
        assert(node_ok(h, members, updated));
        if resp.success {
            advance_ok(h, members, updated);
            let applied = transition::advance_commit(updated).1;
            let before = transition::step_down_effects(n, resp.term);
            assert forall|i: int| 0 <= i < (before + applied).len() implies send_ok(
                h,
                members,
                n.id,
                #[trigger] (before + applied)[i],
            ) by {
                if i >= before.len() {
                    assert((before + applied)[i] == applied[i - before.len()]);
                }
            }
        } else {
            append_for_ok(h, members, updated, from);
        }
    }
    h
}

proof fn propose_ok(h: History, members: Set<NodeId>, n: NodeView, command: Seq<u8>) -> (g: History)
    requires
        history_ok(h, members),
        node_ok(h, members, n),
        n.log.len() < u64::MAX - 1,
    ensures
        stepped_ok(h, g, members, n, transition::on_propose(n, command)),
{
    grown_itself(h, n.id);
    if n.role is Leader {
        let t = n.current_term;
        let entry = LogEntryView { term: t, index: (n.log.len() + 1) as u64, command };
        let m = NodeView { log: n.log.push(entry), ..n };
        let f = with_entry(h, t, entry);
        entry_extends(h, members, t, entry);
        let len = m.log.len() as int;
        let g = with_ack(f, n.id, t, len);
        assert forall|s: Term| #[trigger] f.ballots.contains_key((s, n.id)) implies s
            <= m.current_term by {
            assert(h.ballots.contains_key((s, n.id)));
        }
        ack_extends(f, members, m, len);
        grown_twice(h, f, g, n.id);
        assert(reign_ok(g, members, t));
        assert(g.reigns[t].log == m.log);
        assert(m.log.take(n.commit_index as int) =~= n.log.take(n.commit_index as int));
        backed_grows(
            h,
            g,
            n.id,
            members,
            n.log,
            m.log,
            n.commit_index as int,
            t as int,
            t as int,
        );
        assert forall|s: Term, k: int| #[trigger] g.acks.contains((m.id, s, k)) implies s
            <= m.current_term && kept(g, s, k, m.log, m.current_term + 1) by {
            if s == t {
                assert(ack_ok(g, members, m.id, s, k));
                assert(part(g, s, k) =~= m.log.take(k));
                assert(starts(m.log, part(g, s, k)));
            } else {
                assert(h.acks.contains((n.id, s, k)));
                assert(ack_ok(h, members, n.id, s, k));
                assert(reign_ok(h, members, s));
                kept_grows(h, g, n.id, s, k, n.log, t + 1);
                if starts(n.log, part(g, s, k)) {
                    assert(m.log.take(k) =~= n.log.take(k));
                    assert(starts(m.log, part(g, s, k)));
                }
            }
        }
        assert forall|s: Term| #[trigger] g.ballots.contains_key((s, m.id)) implies s
            <= m.current_term && (s == m.current_term ==> m.voted_for == Some(
            g.ballots[(s, m.id)].candidate,
        )) by {
            assert(h.ballots.contains_key((s, n.id)));
        }
        assert forall|s: Term| #[trigger] g.bids.contains_key((s, m.id)) implies s
            <= m.current_term by {
            assert(h.bids.contains_key((s, n.id)));
        }
        assert forall|s: Term| #[trigger] g.reigns.contains_key(s) && g.reigns[s].leader
            == m.id implies s <= m.current_term by {
            assert(h.reigns.contains_key(s));
        }
        assert(g.acks.contains((m.id, t, len)));
        assert(leader_ok(g, members, m, m.role->next_index, m.role->match_index));
        assert(node_ok(g, members, m));
        replication_ok(g, members, m);
        advance_ok(g, members, m);
        let sends = transition::replication(m);
        let applied = transition::advance_commit(m).1;
        let all = seq![EffectView::PersistEntries(seq![entry])] + sends + applied;
        assert forall|i: int| 0 <= i < all.len() implies send_ok(
            g,
            members,
            n.id,
            #[trigger] all[i],
        ) by {
            if 1 <= i < 1 + sends.len() {
                assert(all[i] == sends[i - 1]);
            } else if i >= 1 + sends.len() {
                assert(all[i] == applied[i - 1 - sends.len()]);
            }
        }
        g
    } else {
        h
    }
}

proof fn sound_prefix(h: History, entries: Seq<LogEntryView>, m: int)
    requires
        sound(h, entries),
        0 <= m <= entries.len(),
    ensures
        sound(h, entries.take(m)),
{
    let front = entries.take(m);
    assert forall|k: int| 0 <= k < front.len() implies #[trigger] grounded(h, front, k) by {
        assert(grounded(h, entries, k));
        assert(front.take(k + 1) =~= entries.take(k + 1));
    }
    assert forall|i: int| 0 <= i < front.len() implies (#[trigger] front[i]).index == i + 1 by {
        assert(entries[i].index == i + 1);
    }
}

/// How a log that agrees with a leader's log up to a place takes in what
/// follows there: it stays as it is where it already holds all of it, else it
/// is cut at the first difference and becomes the beginning of the leader's.
proof fn merge_follows_leader(
    h: History,
    mine: Seq<LogEntryView>,
    whole: Seq<LogEntryView>,
    p: int,
    entries: Seq<LogEntryView>,
) -> (q: int)
    requires
        sound(h, mine),
        sound(h, whole),
        0 <= p <= mine.len(),
        p + entries.len() <= whole.len(),
        mine.take(p) == whole.take(p),
        entries == whole.subrange(p, p + entries.len()),
    ensures
        ({
            let m = p + entries.len();
            let (left, added, cuts) = transition::merged(mine, entries);
            if starts(mine, whole.take(m)) {
                left == mine && added.len() == 0 && cuts.len() == 0
            } else {
                &&& p <= q < m
                &&& q <= mine.len()
                &&& left == mine.take(q)
                &&& mine.take(q) == whole.take(q)
                &&& added == whole.subrange(q, m)
                &&& cuts == (if q < mine.len() {
                    seq![EffectView::PersistTruncate((q + 1) as u64)]
                } else {
                    Seq::<EffectView>::empty()
                })
            }
        }),
    decreases entries.len(),
{
    let m = p + entries.len();
    if entries.len() == 0 {
        assert(whole.take(m) == mine.take(p));
        assert(starts(mine, whole.take(m)));
        p
    } else {
        let front = entries.drop_last();
        let e = entries.last();
        assert(front =~= whole.subrange(p, m - 1));
        let r = merge_follows_leader(h, mine, whole, p, front);
        assert(e == whole[m - 1]);
        assert(e.index == m);
        assert(whole.take(m).take(m - 1) =~= whole.take(m - 1));
        if starts(mine, whole.take(m - 1)) {
            if m <= mine.len() {
                if mine[m - 1].term == e.term {
                    assert(grounded(h, mine, m - 1));
                    assert(grounded(h, whole, m - 1));
                    assert(starts(mine, whole.take(m)));
                } else {
                    if starts(mine, whole.take(m)) {
                        assert(mine.take(m)[m - 1] == whole.take(m)[m - 1]);
                        assert(false);
                    }
                    assert(log::truncated(mine, m) =~= mine.take(m - 1));
                    assert(whole.subrange(m - 1, m) =~= seq![e]);
                    assert(Seq::<LogEntryView>::empty().push(e) =~= seq![e]);
                    assert(transition::merged(mine, front).1 =~= Seq::<LogEntryView>::empty());
                    assert(transition::merged(mine, front).2 =~= Seq::<EffectView>::empty());
                    assert(Seq::<EffectView>::empty().push(EffectView::PersistTruncate(m as u64))
                        =~= seq![EffectView::PersistTruncate(m as u64)]);
                }
            } else {
                assert(mine.len() == m - 1);
                assert(mine.take(m - 1) =~= mine);
                assert(whole.subrange(m - 1, m) =~= seq![e]);
                assert(transition::merged(mine, front).1 =~= Seq::<LogEntryView>::empty());
                assert(transition::merged(mine, front).2 =~= Seq::<EffectView>::empty());
                assert(Seq::<LogEntryView>::empty().push(e) =~= seq![e]);
            }
            m - 1
        } else {
            if starts(mine, whole.take(m)) {
                starts_take(mine, whole.take(m), m - 1);
                assert(false);
            }
            assert(whole.subrange(r, m) =~= whole.subrange(r, m - 1).push(e));
            r
        }
    }
}

/// The log of a follower after a leader's entries, in both cases.
pub open spec fn taken_in(
    mine: Seq<LogEntryView>,
    whole: Seq<LogEntryView>,
    m: int,
    now: Seq<LogEntryView>,
) -> bool {
    &&& starts(now, whole.take(m))
    &&& starts(mine, whole.take(m)) ==> now == mine
    &&& !starts(mine, whole.take(m)) ==> now == whole.take(m)
}

/// A follower whose log matches at the place before a leader's entries.
pub proof fn accepted_log(
    h: History,
    members: Set<NodeId>,
    f: NodeView,
    from: NodeId,
    req: AppendEntriesView,
) -> (q: int)
    requires
        sound(h, f.log),
        append_ok(h, members, from, req),
        history_ok(h, members),
        log::term_at(f.log, req.prev_log_index as int) == Some(req.prev_log_term),
    ensures
        ({
            let whole = h.reigns[req.term].log;
            let p = req.prev_log_index as int;
            let m = p + req.entries.len();
            let (left, added, cuts) = transition::merged(f.log, req.entries);
            &&& taken_in(f.log, whole, m, transition::accepted(f, req).log)
            &&& transition::accepted(f, req).log == left + added
            &&& if starts(f.log, whole.take(m)) {
                left == f.log && added.len() == 0 && cuts.len() == 0
            } else {
                &&& 0 <= q < m
                &&& q <= f.log.len()
                &&& left == f.log.take(q)
                &&& f.log.take(q) == whole.take(q)
                &&& added == whole.subrange(q, m)
                &&& cuts == (if q < f.log.len() {
                    seq![EffectView::PersistTruncate((q + 1) as u64)]
                } else {
                    Seq::<EffectView>::empty()
                })
            }
        }),
{
    let whole = h.reigns[req.term].log;
    let p = req.prev_log_index as int;
    let m = p + req.entries.len();
    assert(reign_ok(h, members, req.term));
    if p > 0 {
        assert(grounded(h, f.log, p - 1));
        assert(grounded(h, whole, p - 1));
    }
    assert(f.log.take(p) =~= whole.take(p));
    let q = merge_follows_leader(h, f.log, whole, p, req.entries);
    let (left, added, cuts) = transition::merged(f.log, req.entries);
    if starts(f.log, whole.take(m)) {
        assert(left + added =~= f.log);
    } else {
        assert(left + added =~= whole.take(m));
        assert(whole.take(m).take(m) =~= whole.take(m));
    }
    q
}

/// What a log has acknowledged survives a later leader's entries, or that
/// leader had lost it.
proof fn taken_in_keeps(
    h: History,
    members: Set<NodeId>,
    t: Term,
    mine: Seq<LogEntryView>,
    now: Seq<LogEntryView>,
    m: int,
    s: Term,
    k: int,
)
    requires
        history_ok(h, members),
        h.reigns.contains_key(t),
        0 <= m <= h.reigns[t].log.len(),
        taken_in(mine, h.reigns[t].log, m, now),
        h.reigns.contains_key(s),
        0 <= k <= h.reigns[s].log.len(),
        s <= t,
        kept(h, s, k, mine, t + 1),
    ensures
        kept(h, s, k, now, t + 1),
{
    let whole = h.reigns[t].log;
    let want = part(h, s, k);
    if starts(mine, want) {
        if !starts(whole, want) {
            if s == t {
                assert(whole.take(k) == want);
                assert(false);
            }
            assert(lost_by(h, s, k, t, t + 1));
        } else if !starts(mine, whole.take(m)) {
            assert(whole.take(k) == want);
            if m <= k {
                assert(whole.take(k).take(m) =~= whole.take(m));
                starts_take(mine, want, m);
                assert(false);
            }
            assert(whole.take(m).take(k) =~= whole.take(k));
            assert(starts(now, want));
        }
    } else {
        let u = choose|u: Term| #[trigger] lost_by(h, s, k, u, t + 1);
        assert(lost_by(h, s, k, u, t + 1));
    }
}

/// What a node has committed is in the log of every leader of its term or a
/// later one.
pub proof fn backed_in_reign(
    h: History,
    members: Set<NodeId>,
    entries: Seq<LogEntryView>,
    count: int,
    t: Term,
)
    requires
        history_ok(h, members),
        h.reigns.contains_key(t),
        0 <= count <= entries.len(),
        backed(h, members, entries, count, t as int),
    ensures
        count <= h.reigns[t].log.len(),
        entries.take(count) == h.reigns[t].log.take(count),
{
    if count == 0 {
        assert(entries.take(0) =~= h.reigns[t].log.take(0));
    } else {
        let (s, k) = choose|s: Term, k: int| #[trigger]
            backed_by(h, members, entries, count, t as int, s, k);
        if s < t {
            chosen_stays(h, members, s, k, t);
            starts_take(h.reigns[t].log, part(h, s, k), count);
            assert(part(h, s, k).take(count) =~= h.reigns[s].log.take(count));
        }
    }
}

/// A follower that takes in a leader's entries.
pub proof fn accept_ok(
    h: History,
    members: Set<NodeId>,
    f: NodeView,
    from: NodeId,
    req: AppendEntriesView,
) -> (g: History)
    requires
        history_ok(h, members),
        node_ok(h, members, f),
        f.role is Follower,
        f.current_term == req.term,
        append_ok(h, members, from, req),
        log::term_at(f.log, req.prev_log_index as int) == Some(req.prev_log_term),
        f.log.len() + req.entries.len() < u64::MAX,
    ensures
        history_ok(g, members),
        grown(h, g, f.id),
        node_ok(g, members, transition::accepted(f, req)),
        node_ok(g, members, transition::caught_up(transition::accepted(f, req))),
        g.acks.contains(
            (f.id, req.term, (req.prev_log_index + req.entries.len()) as int),
        ),
        g.reigns == h.reigns,
        transition::accepted(f, req).log.take(f.commit_index as int) == f.log.take(
            f.commit_index as int,
        ),
        transition::accepted(f, req).commit_index >= f.commit_index,
{
    let t = req.term;
    let whole = h.reigns[t].log;
    let m = req.prev_log_index + req.entries.len();
    let done = transition::accepted(f, req);
    let now = done.log;
    let q = accepted_log(h, members, f, from, req);
    assert(reign_ok(h, members, t));
    let g = with_ack(h, f.id, t, m as int);
    ack_extends(h, members, f, m as int);
    // The log.
    sound_prefix(h, whole, m as int);
    sound_grows(h, g, f.id, now);
    assert(terms_up_to(now, t as int));
    // The commit point.
    let c = f.commit_index as int;
    backed_in_reign(h, members, f.log, c, t);
    assert(now.take(c) =~= f.log.take(c) && c <= now.len()) by {
        if !starts(f.log, whole.take(m as int)) {
            if m < c {
                assert(whole.take(c).take(m as int) =~= whole.take(m as int));
                assert(f.log.take(c).take(m as int) =~= f.log.take(m as int));
                assert(starts(f.log, whole.take(m as int)));
                assert(false);
            }
            assert(whole.take(m as int).take(c) =~= whole.take(c));
        }
    }
    if req.leader_commit > f.commit_index {
        let d = req.leader_commit as int;
        assert(done.commit_index == d);
        starts_take(now, whole.take(m as int), d);
        assert(whole.take(m as int).take(d) =~= whole.take(d));
        backed_grows(h, g, f.id, members, whole, now, d, t as int, t as int);
    } else {
        backed_grows(h, g, f.id, members, f.log, now, c, t as int, t as int);
    }
    // The acknowledgements.
    assert forall|s: Term, k: int| #[trigger] g.acks.contains((f.id, s, k)) implies s
        <= f.current_term && kept(g, s, k, now, f.current_term + 1) by {
        if h.acks.contains((f.id, s, k)) {
            assert(ack_ok(h, members, f.id, s, k));
            assert(reign_ok(h, members, s));
            taken_in_keeps(h, members, t, f.log, now, m as int, s, k);
            kept_grows(h, g, f.id, s, k, now, t + 1);
        } else {
            starts_take(now, whole.take(m as int), k);
            assert(whole.take(m as int).take(k) =~= part(g, s, k));
            assert(starts(now, part(g, s, k)));
        }
    }
    assert(votes_ok(g, members, done));
    assert(node_ok(g, members, done));
    let last = transition::caught_up(done);
    assert(votes_ok(g, members, last));
    assert(node_ok(g, members, last));
    g
}

proof fn append_entries_ok(
    h: History,
    members: Set<NodeId>,
    n: NodeView,
    from: NodeId,
    req: AppendEntriesView,
) -> (g: History)
    requires
        history_ok(h, members),
        node_ok(h, members, n),
        n.log.len() + req.entries.len() < u64::MAX,
        packet_ok(
            h,
            members,
            Packet { from, to: n.id, message: MessageView::AppendEntries(req) },
        ),
    ensures
        stepped_ok(h, g, members, n, transition::on_append_entries(n, from, req)),
{
    let at_term = transition::stepped_down(n, req.term);
    step_down_ok(h, members, n, req.term);
    grown_itself(h, n.id);
    let before = transition::step_down_effects(n, req.term);
    let (last, effects) = transition::on_append_entries(n, from, req);
    if req.term < at_term.current_term {
        h
    } else {
        let f = transition::following(at_term, req.leader_id);
        assert(!(at_term.role is Leader));
        assert(votes_ok(h, members, f));
        assert(node_ok(h, members, f));
        if log::term_at(f.log, req.prev_log_index as int) != Some(req.prev_log_term) {
            h
        } else {
            let g = accept_ok(h, members, f, from, req);
            let q = accepted_log(h, members, f, from, req);
            let (left, added, cuts) = transition::merged(f.log, req.entries);
            assert forall|i: int| 0 <= i < effects.len() implies send_ok(
                g,
                members,
                n.id,
                #[trigger] effects[i],
            ) by {
                let changes = transition::merge_effects(f.log, req.entries);
                let merged_in = transition::accepted(f, req);
                let applied = if req.leader_commit > f.commit_index {
                    transition::applications(
                        merged_in.log,
                        merged_in.last_applied as int,
                        merged_in.commit_index as int,
                    )
                } else {
                    Seq::empty()
                };
                let body = before + changes + applied;
                assert(effects == body.push(effects.last()));
                if i < before.len() {
                    assert(effects[i] == before[i]);
                } else if i < before.len() + changes.len() {
                    assert(effects[i] == changes[i - before.len()]);
                } else if i < body.len() {
                    assert(effects[i] == applied[i - before.len() - changes.len()]);
                }
            }
            g
        }
    }
}

/// One step of a node that is true to a history goes on with it.
pub proof fn step_ok(h: History, members: Set<NodeId>, n: NodeView, event: EventView) -> (g: History)
    requires
        history_ok(h, members),
        node_ok(h, members, n),
        event matches EventView::Message(from, message) ==> packet_ok(
            h,
            members,
            Packet { from, to: n.id, message },
        ),
        transition::step_fits(n, event),
    ensures
        stepped_ok(h, g, members, n, transition::step(n, event)),
{
    match event {
        EventView::Tick => tick_ok(h, members, n),
        EventView::Message(from, message) => match message {
            MessageView::RequestVote(req) => request_vote_ok(h, members, n, from, req),
            MessageView::RequestVoteResp(resp) => vote_reply_ok(h, members, n, from, resp),
            MessageView::AppendEntries(req) => append_entries_ok(h, members, n, from, req),
            MessageView::AppendEntriesResp(resp) => append_reply_ok(h, members, n, from, resp),
        },
        EventView::Propose(command) => propose_ok(h, members, n, command),
    }
}

/// A node that restarts from its own term, vote and log stays true to the
/// history.
proof fn restart_ok(h: History, members: Set<NodeId>, n: NodeView, m: NodeView)
    requires
        node_ok(h, members, n),
        m.id == n.id,
        m.peers == n.peers,
        m.current_term == n.current_term,
        m.voted_for == n.voted_for,
        m.log == n.log,
        m.role is Follower,
        m.commit_index == 0,
        m.last_applied == 0,
    ensures
        node_ok(h, members, m),
{
    assert(votes_ok(h, members, m));
}

/// A cluster that is true to a history.
pub open spec fn cluster_ok(h: History, members: Set<NodeId>, c: Cluster) -> bool {
    &&& history_ok(h, members)
    &&& c.nodes.dom() == members
    &&& c.disks.dom() == members
    &&& c.applied.dom() == members
    &&& forall|id: NodeId| #[trigger]
        members.contains(id) ==> member_ok(h, members, c, id)
    &&& forall|p: Packet| #[trigger] c.packets.contains(p) ==> packet_ok(h, members, p)
    &&& forall|t: Term, id: NodeId| #[trigger]
        c.leaders.contains((t, id)) ==> h.reigns.contains_key(t) && h.reigns[t].leader == id
}

pub open spec fn member_ok(h: History, members: Set<NodeId>, c: Cluster, id: NodeId) -> bool {
    &&& c.nodes[id].id == id
    &&& node_ok(h, members, c.nodes[id])
    &&& replay::synced(c.disks[id], c.nodes[id])
    &&& replay::fed(c.applied[id], c.nodes[id])
}

proof fn initial_ok(c: Cluster, members: Set<NodeId>) -> (h: History)
    requires
        cluster::initial(c, members),
    ensures
        cluster_ok(h, members, c),
{
    let h = History {
        reigns: Map::empty(),
        ballots: Map::empty(),
        bids: Map::empty(),
        acks: Set::empty(),
    };
    assert forall|id: NodeId| #[trigger] members.contains(id) implies member_ok(
        h,
        members,
        c,
        id,
    ) by {
        let (peers, timeout) = choose|peers: Seq<NodeId>, timeout: u32|
            {
                &&& #[trigger] cluster::peers_of(members, id, peers)
                &&& c.nodes[id] == #[trigger] transition::fresh(id, peers, timeout)
            };
        assert(votes_ok(h, members, c.nodes[id]));
        assert(c.nodes[id].log.take(0) =~= Seq::<LogEntryView>::empty());
    }
    h
}

proof fn move_ok(h: History, members: Set<NodeId>, c: Cluster, m: Move, d: Cluster) -> (g: History)
    requires
        cluster_ok(h, members, c),
        cluster::moves(c, m, d),
    ensures
        cluster_ok(g, members, d),
{
    match m {
        Move::Step(id, event) => {
            assert(members.contains(id));
            assert(member_ok(h, members, c, id));
            let n = c.nodes[id];
            let g = step_ok(h, members, n, event);
            replay::step_replays(h, members, c.disks[id], c.applied[id], n, event);
            let (node, effects) = transition::step(n, event);
            assert(d.nodes.dom() =~= members);
            assert(d.disks.dom() =~= members);
            assert(d.applied.dom() =~= members);
            assert forall|x: NodeId| #[trigger] members.contains(x) implies member_ok(
                g,
                members,
                d,
                x,
            ) by {
                assert(member_ok(h, members, c, x));
                if x != id {
                    node_grows(h, g, id, members, c.nodes[x]);
                }
            }
            assert forall|p: Packet| #[trigger] d.packets.contains(p) implies packet_ok(
                g,
                members,
                p,
            ) by {
                if c.packets.contains(p) {
                    packet_grows(h, g, id, members, p);
                } else {
                    let i = choose|i: int|
                        0 <= i < effects.len() && effects[i] == EffectView::Send(p.to, p.message);
                    assert(send_ok(g, members, id, effects[i]));
                }
            }
            assert forall|t: Term, x: NodeId| #[trigger]
                d.leaders.contains((t, x)) implies g.reigns.contains_key(t) && g.reigns[t].leader
                == x by {
                if c.leaders.contains((t, x)) {
                    assert(h.reigns.contains_key(t));
                } else {
                    assert(leader_ok(
                        g,
                        members,
                        node,
                        node.role->next_index,
                        node.role->match_index,
                    ));
                }
            }
            g
        },
        Move::Restart(id, timeout) => {
            assert(members.contains(id));
            assert(member_ok(h, members, c, id));
            let node = cluster::restarted(c.nodes[id], c.disks[id], timeout);
            restart_ok(h, members, c.nodes[id], node);
            assert(node.log.take(0) =~= Seq::<LogEntryView>::empty());
            assert(d.nodes.dom() =~= members);
            assert(d.applied.dom() =~= members);
            assert forall|x: NodeId| #[trigger] members.contains(x) implies member_ok(
                h,
                members,
                d,
                x,
            ) by {
                assert(member_ok(h, members, c, x));
            }
            h
        },
        Move::Rearm(id, timeout) => {
            assert(members.contains(id));
            assert(member_ok(h, members, c, id));
            let node = NodeView { election_timeout_ticks: timeout, ..c.nodes[id] };
            assert(votes_ok(h, members, node));
            assert(node_ok(h, members, node));
            assert(d.nodes.dom() =~= members);
            assert forall|x: NodeId| #[trigger] members.contains(x) implies member_ok(
                h,
                members,
                d,
                x,
            ) by {
                assert(member_ok(h, members, c, x));
            }
            h
        },
    }
}

/// Every state of a run is true to some history.
pub proof fn run_ok(members: Set<NodeId>, states: Seq<Cluster>, steps: Seq<Move>, at: int) -> (h:
    History)
    requires
        cluster::run(members, states, steps),
        0 <= at < states.len(),
    ensures
        cluster_ok(h, members, states[at]),
    decreases at,
{
    if at == 0 {
        initial_ok(states[0], members)
    } else {
        let before = run_ok(members, states, steps, at - 1);
        assert(cluster::moves(states[at - 1], steps[at - 1], states[at - 1 + 1]));
        move_ok(before, members, states[at - 1], steps[at - 1], states[at])
    }
}

/// What two nodes have committed agrees as far as both have it.
pub proof fn committed_agree(h: History, members: Set<NodeId>, a: NodeView, b: NodeView, count: int)
    requires
        history_ok(h, members),
        node_ok(h, members, a),
        node_ok(h, members, b),
        0 <= count <= a.commit_index,
        count <= b.commit_index,
    ensures
        a.log.take(count) == b.log.take(count),
{
    if count > 0 {
        let (s, j) = choose|s: Term, j: int| #[trigger]
            backed_by(
                h,
                members,
                a.log,
                a.commit_index as int,
                a.current_term as int,
                s,
                j,
            );
        let (t, k) = choose|t: Term, k: int| #[trigger]
            backed_by(
                h,
                members,
                b.log,
                b.commit_index as int,
                b.current_term as int,
                t,
                k,
            );
        let x = h.reigns[s].log;
        let y = h.reigns[t].log;
        assert(a.log.take(a.commit_index as int).take(count) =~= a.log.take(count));
        assert(b.log.take(b.commit_index as int).take(count) =~= b.log.take(count));
        assert(x.take(a.commit_index as int).take(count) =~= x.take(count));
        assert(y.take(b.commit_index as int).take(count) =~= y.take(count));
        if s < t {
            chosen_stays(h, members, s, j, t);
            starts_take(y, part(h, s, j), count);
            assert(part(h, s, j).take(count) =~= x.take(count));
        } else if t < s {
            chosen_stays(h, members, t, k, s);
            starts_take(x, part(h, t, k), count);
            assert(part(h, t, k).take(count) =~= y.take(count));
        }
    } else {
        assert(a.log.take(count) =~= b.log.take(count));
    }
}

} // verus!
