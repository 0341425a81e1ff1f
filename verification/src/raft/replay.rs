//! Carrying out a step's effects in order keeps the disk and the state
//! machine in step with the node.

use vstd::prelude::*;

use crate::raft::cluster;
use crate::raft::cluster::Packet;
use crate::raft::log;
use crate::raft::log::{LogEntryView, NodeId};
use crate::raft::message::{AppendEntriesView, MessageView};
use crate::raft::safety;
use crate::raft::safety::History;
use crate::raft::storage;
use crate::raft::storage::{HardState, StorageView};
use crate::raft::transition;
use crate::raft::transition::{EffectView, EventView, NodeView, RoleView};

verus! {

/// The disk holds the node's term, vote and log.
pub open spec fn synced(disk: StorageView, n: NodeView) -> bool {
    &&& disk.hard_state.current_term == n.current_term
    &&& disk.hard_state.voted_for == n.voted_for
    &&& disk.entries == n.log
}

/// The state machine has consumed exactly what the node has applied.
pub open spec fn fed(stream: Seq<LogEntryView>, n: NodeView) -> bool {
    &&& n.last_applied <= n.log.len()
    &&& stream == n.log.take(n.last_applied as int)
}

spec fn inert(effects: Seq<EffectView>) -> bool {
    forall|i: int|
        0 <= i < effects.len() ==> !((#[trigger] effects[i]) is Persist)
            && !(effects[i] is PersistTruncate) && !(effects[i] is PersistEntries)
}

/// Effects that feed the state machine nothing.
pub open spec fn mute(effects: Seq<EffectView>) -> bool {
    forall|i: int| 0 <= i < effects.len() ==> !((#[trigger] effects[i]) is Apply)
}

proof fn written_joins(disk: StorageView, n: NodeView, a: Seq<EffectView>, b: Seq<EffectView>)
    ensures
        cluster::written(disk, n, a + b) == cluster::written(cluster::written(disk, n, a), n, b),
    decreases b.len(),
{
    if b.len() == 0 {
        assert(a + b =~= a);
    } else {
        assert((a + b).drop_last() =~= a + b.drop_last());
        written_joins(disk, n, a, b.drop_last());
    }
}

pub proof fn consumed_joins(stream: Seq<LogEntryView>, a: Seq<EffectView>, b: Seq<EffectView>)
    ensures
        cluster::consumed(stream, a + b) == cluster::consumed(cluster::consumed(stream, a), b),
    decreases b.len(),
{
    if b.len() == 0 {
        assert(a + b =~= a);
    } else {
        assert((a + b).drop_last() =~= a + b.drop_last());
        consumed_joins(stream, a, b.drop_last());
    }
}

proof fn inert_writes_nothing(disk: StorageView, n: NodeView, effects: Seq<EffectView>)
    requires
        inert(effects),
    ensures
        cluster::written(disk, n, effects) == disk,
    decreases effects.len(),
{
    if effects.len() > 0 {
        assert(inert(effects.drop_last()));
        inert_writes_nothing(disk, n, effects.drop_last());
        assert(effects[effects.len() - 1] == effects.last());
    }
}

pub proof fn mute_feeds_nothing(stream: Seq<LogEntryView>, effects: Seq<EffectView>)
    requires
        mute(effects),
    ensures
        cluster::consumed(stream, effects) == stream,
    decreases effects.len(),
{
    if effects.len() > 0 {
        assert(mute(effects.drop_last()));
        mute_feeds_nothing(stream, effects.drop_last());
        assert(effects[effects.len() - 1] == effects.last());
    }
}

/// Applying the entries between two points of a log feeds them in order.
proof fn applications_feed(entries: Seq<LogEntryView>, from: int, to: int)
    requires
        0 <= from <= to <= entries.len(),
    ensures
        cluster::consumed(entries.take(from), transition::applications(entries, from, to))
            == entries.take(to),
        inert(transition::applications(entries, from, to)),
    decreases to - from,
{
    let all = transition::applications(entries, from, to);
    if from < to {
        applications_feed(entries, from, to - 1);
        assert(all.drop_last() =~= transition::applications(entries, from, to - 1));
        assert(entries.take(to) =~= entries.take(to - 1).push(entries[to - 1]));
    }
}

proof fn one_effect(disk: StorageView, n: NodeView, effect: EffectView)
    ensures
        effect is Persist ==> cluster::written(disk, n, seq![effect]) == (StorageView {
            hard_state: HardState { current_term: n.current_term, voted_for: n.voted_for },
            ..disk
        }),
        effect matches EffectView::PersistTruncate(from) ==> cluster::written(
            disk,
            n,
            seq![effect],
        ) == (StorageView { entries: storage::cut(disk.entries, from), ..disk }),
        effect matches EffectView::PersistEntries(entries) ==> cluster::written(
            disk,
            n,
            seq![effect],
        ) == (StorageView { entries: storage::stored_all(disk.entries, entries), ..disk }),
{
    assert(seq![effect].drop_last() =~= Seq::<EffectView>::empty());
    assert(cluster::written(disk, n, Seq::<EffectView>::empty()) == disk);
}

/// The effects of an election in two parts: one write, then messages.
proof fn win_is_quiet(n: NodeView)
    ensures
        inert(transition::try_win(n).1),
        mute(transition::try_win(n).1),
        transition::try_win(n).0.log == n.log,
        transition::try_win(n).0.current_term == n.current_term,
        transition::try_win(n).0.voted_for == n.voted_for,
        transition::try_win(n).0.last_applied == n.last_applied,
{
}

proof fn advance_feeds(stream: Seq<LogEntryView>, n: NodeView)
    requires
        fed(stream, n),
        n.last_applied <= n.commit_index <= n.log.len() <= u64::MAX,
    ensures
        fed(
            cluster::consumed(stream, transition::advance_commit(n).1),
            transition::advance_commit(n).0,
        ),
        inert(transition::advance_commit(n).1),
        transition::advance_commit(n).0.log == n.log,
        transition::advance_commit(n).0.current_term == n.current_term,
        transition::advance_commit(n).0.voted_for == n.voted_for,
{
    let commit = transition::highest_committable(n, n.log.len() as int);
    safety::highest_is_committable(n, n.log.len() as int);
    if commit > n.commit_index {
        applications_feed(n.log, n.last_applied as int, commit);
    }
}

proof fn step_down_written(
    disk: StorageView,
    stream: Seq<LogEntryView>,
    n: NodeView,
    term: u64,
    last: NodeView,
)
    requires
        synced(disk, n),
        last.current_term == transition::stepped_down(n, term).current_term,
        term > n.current_term || last.voted_for == n.voted_for,
    ensures
        ({
            let after = cluster::written(disk, last, transition::step_down_effects(n, term));
            &&& after.hard_state == HardState {
                current_term: last.current_term,
                voted_for: last.voted_for,
            }
            &&& after.entries == n.log
        }),
        cluster::consumed(stream, transition::step_down_effects(n, term)) == stream,
        mute(transition::step_down_effects(n, term)),
{
    let effects = transition::step_down_effects(n, term);
    if term > n.current_term {
        one_effect(disk, last, EffectView::Persist);
    }
    mute_feeds_nothing(stream, effects);
}

proof fn tick_replays(disk: StorageView, stream: Seq<LogEntryView>, n: NodeView)
    requires
        synced(disk, n),
        fed(stream, n),
        transition::step_fits(n, EventView::Tick),
    ensures
        synced(
            cluster::written(disk, transition::on_tick(n).0, transition::on_tick(n).1),
            transition::on_tick(n).0,
        ),
        fed(cluster::consumed(stream, transition::on_tick(n).1), transition::on_tick(n).0),
{
    let (last, effects) = transition::on_tick(n);
    let later = NodeView { ticks_since_reset: (n.ticks_since_reset + 1) as u32, ..n };
    if n.role is Leader || later.ticks_since_reset < n.election_timeout_ticks {
        assert(inert(effects) && mute(effects));
        inert_writes_nothing(disk, last, effects);
        mute_feeds_nothing(stream, effects);
    } else {
        let m = transition::candidacy(later);
        win_is_quiet(m);
        let requests = transition::vote_requests(m);
        let announced = transition::try_win(m).1;
        let first = seq![EffectView::Persist];
        assert(inert(requests + announced));
        assert(mute(first + (requests + announced)));
        assert(effects =~= first + (requests + announced));
        written_joins(disk, last, first, requests + announced);
        one_effect(disk, last, EffectView::Persist);
        inert_writes_nothing(
            cluster::written(disk, last, first),
            last,
            requests + announced,
        );
        mute_feeds_nothing(stream, effects);
    }
}

proof fn request_vote_replays(
    disk: StorageView,
    stream: Seq<LogEntryView>,
    n: NodeView,
    from: NodeId,
    req: crate::raft::message::RequestVoteReq,
)
    requires
        synced(disk, n),
        fed(stream, n),
    ensures
        synced(
            cluster::written(
                disk,
                transition::on_request_vote(n, from, req).0,
                transition::on_request_vote(n, from, req).1,
            ),
            transition::on_request_vote(n, from, req).0,
        ),
        fed(
            cluster::consumed(stream, transition::on_request_vote(n, from, req).1),
            transition::on_request_vote(n, from, req).0,
        ),
{
    let (last, effects) = transition::on_request_vote(n, from, req);
    let at_term = transition::stepped_down(n, req.term);
    let before = transition::step_down_effects(n, req.term);
    assert(mute(effects));
    mute_feeds_nothing(stream, effects);
    let reply = effects.last();
    let body = effects.drop_last();
    assert(effects =~= body + seq![reply]);
    written_joins(disk, last, body, seq![reply]);
    inert_writes_nothing(cluster::written(disk, last, body), last, seq![reply]);
    if transition::grants(at_term, req) {
        assert(body =~= before + seq![EffectView::Persist]);
        written_joins(disk, last, before, seq![EffectView::Persist]);
        one_effect(cluster::written(disk, last, before), last, EffectView::Persist);
        if req.term > n.current_term {
            one_effect(disk, last, EffectView::Persist);
        } else {
            inert_writes_nothing(disk, last, before);
        }
    } else {
        assert(body =~= before);
        step_down_written(disk, stream, n, req.term, last);
    }
}

proof fn vote_reply_replays(
    disk: StorageView,
    stream: Seq<LogEntryView>,
    n: NodeView,
    from: NodeId,
    resp: crate::raft::message::RequestVoteResp,
)
    requires
        synced(disk, n),
        fed(stream, n),
    ensures
        synced(
            cluster::written(
                disk,
                transition::on_request_vote_resp(n, from, resp).0,
                transition::on_request_vote_resp(n, from, resp).1,
            ),
            transition::on_request_vote_resp(n, from, resp).0,
        ),
        fed(
            cluster::consumed(stream, transition::on_request_vote_resp(n, from, resp).1),
            transition::on_request_vote_resp(n, from, resp).0,
        ),
{
    let (last, effects) = transition::on_request_vote_resp(n, from, resp);
    let at_term = transition::stepped_down(n, resp.term);
    let before = transition::step_down_effects(n, resp.term);
    step_down_written(disk, stream, n, resp.term, last);
    if at_term.role is Candidate && resp.term == at_term.current_term && resp.vote_granted {
        let counted = NodeView {
            role: RoleView::Candidate { votes: at_term.role->votes.insert(from) },
            ..at_term
        };
        win_is_quiet(counted);
        let announced = transition::try_win(counted).1;
        written_joins(disk, last, before, announced);
        inert_writes_nothing(cluster::written(disk, last, before), last, announced);
        consumed_joins(stream, before, announced);
        mute_feeds_nothing(stream, announced);
    }
}

proof fn append_reply_replays(
    disk: StorageView,
    stream: Seq<LogEntryView>,
    n: NodeView,
    from: NodeId,
    resp: crate::raft::message::AppendEntriesResp,
)
    requires
        synced(disk, n),
        fed(stream, n),
        n.last_applied <= n.commit_index <= n.log.len() <= u64::MAX,
    ensures
        synced(
            cluster::written(
                disk,
                transition::on_append_entries_resp(n, from, resp).0,
                transition::on_append_entries_resp(n, from, resp).1,
            ),
            transition::on_append_entries_resp(n, from, resp).0,
        ),
        fed(
            cluster::consumed(stream, transition::on_append_entries_resp(n, from, resp).1),
            transition::on_append_entries_resp(n, from, resp).0,
        ),
{
    let (last, effects) = transition::on_append_entries_resp(n, from, resp);
    let at_term = transition::stepped_down(n, resp.term);
    let before = transition::step_down_effects(n, resp.term);
    if at_term.role is Leader && resp.term == at_term.current_term
        && at_term.role->match_index.contains_key(from) {
        let updated = transition::noted(at_term, from, resp.success, resp.match_index);
        if resp.success {
            advance_feeds(stream, updated);
            step_down_written(disk, stream, n, resp.term, last);
            let applied = transition::advance_commit(updated).1;
            written_joins(disk, last, before, applied);
            inert_writes_nothing(cluster::written(disk, last, before), last, applied);
            consumed_joins(stream, before, applied);
        } else {
            step_down_written(disk, stream, n, resp.term, last);
            let again = effects.last();
            assert(effects =~= before + seq![again]);
            written_joins(disk, last, before, seq![again]);
            inert_writes_nothing(cluster::written(disk, last, before), last, seq![again]);
            consumed_joins(stream, before, seq![again]);
            mute_feeds_nothing(stream, seq![again]);
        }
    } else {
        step_down_written(disk, stream, n, resp.term, last);
    }
}

proof fn propose_replays(
    disk: StorageView,
    stream: Seq<LogEntryView>,
    n: NodeView,
    command: Seq<u8>,
)
    requires
        synced(disk, n),
        fed(stream, n),
        n.last_applied <= n.commit_index <= n.log.len() <= u64::MAX,
        log::numbered(n.log),
        n.log.len() < u64::MAX - 1,
    ensures
        synced(
            cluster::written(
                disk,
                transition::on_propose(n, command).0,
                transition::on_propose(n, command).1,
            ),
            transition::on_propose(n, command).0,
        ),
        fed(
            cluster::consumed(stream, transition::on_propose(n, command).1),
            transition::on_propose(n, command).0,
        ),
{
    let (last, effects) = transition::on_propose(n, command);
    if n.role is Leader {
        let entry = LogEntryView {
            term: n.current_term,
            index: (n.log.len() + 1) as u64,
            command,
        };
        let m = NodeView { log: n.log.push(entry), ..n };
        assert(m.log.take(n.last_applied as int) =~= n.log.take(n.last_applied as int));
        let first = seq![EffectView::PersistEntries(seq![entry])];
        let sends = transition::replication(m);
        let applied = transition::advance_commit(m).1;
        advance_feeds(stream, m);
        assert(inert(sends + applied));
        assert(effects =~= first + (sends + applied));
        written_joins(disk, last, first, sends + applied);
        one_effect(disk, last, EffectView::PersistEntries(seq![entry]));
        inert_writes_nothing(cluster::written(disk, last, first), last, sends + applied);
        assert(n.log + seq![entry] =~= m.log);
        storage::stored_all_appends(n.log, seq![entry]);
        assert(mute(first + sends));
        assert(effects =~= (first + sends) + applied);
        consumed_joins(stream, first + sends, applied);
        mute_feeds_nothing(stream, first + sends);
    } else {
        assert(inert(effects) && mute(effects));
        inert_writes_nothing(disk, last, effects);
        mute_feeds_nothing(stream, effects);
    }
}

/// The log changes of an acceptance bring the disk to the new log.
proof fn merge_written(
    h: History,
    members: Set<NodeId>,
    disk: StorageView,
    f: NodeView,
    from: NodeId,
    req: AppendEntriesView,
    last: NodeView,
)
    requires
        safety::history_ok(h, members),
        safety::sound(h, f.log),
        safety::append_ok(h, members, from, req),
        log::term_at(f.log, req.prev_log_index as int) == Some(req.prev_log_term),
        disk.entries == f.log,
        f.log.len() + req.entries.len() < u64::MAX,
    ensures
        cluster::written(disk, last, transition::merge_effects(f.log, req.entries)) == (
        StorageView { entries: transition::accepted(f, req).log, ..disk }),
        mute(transition::merge_effects(f.log, req.entries)),
{
    let q = safety::accepted_log(h, members, f, from, req);
    let whole = h.reigns[req.term].log;
    let m = req.prev_log_index + req.entries.len();
    let (left, added, cuts) = transition::merged(f.log, req.entries);
    let effects = transition::merge_effects(f.log, req.entries);
    assert(safety::reign_ok(h, members, req.term));
    if safety::starts(f.log, whole.take(m as int)) {
        assert(effects =~= Seq::<EffectView>::empty());
        assert(left + added =~= f.log);
        assert(cluster::written(disk, last, effects) == disk);
    } else {
        assert(effects =~= cuts + seq![EffectView::PersistEntries(added)]);
        written_joins(disk, last, cuts, seq![EffectView::PersistEntries(added)]);
        let middle = cluster::written(disk, last, cuts);
        one_effect(middle, last, EffectView::PersistEntries(added));
        if q < f.log.len() {
            one_effect(disk, last, EffectView::PersistTruncate((q + 1) as u64));
            storage::below_truncates(f.log, q + 1);
            assert(middle.entries == f.log.take(q));
        } else {
            assert(cuts =~= Seq::<EffectView>::empty());
            assert(middle == disk);
            assert(f.log.take(q) =~= f.log);
        }
        assert(left + added =~= whole.take(m as int));
        assert(log::numbered(left + added)) by {
            assert forall|i: int| 0 <= i < (left + added).len() implies (#[trigger] (left
                + added)[i]).index == i + 1 by {
                assert(whole[i].index == i + 1);
            }
        }
        assert(log::numbered(left)) by {
            assert forall|i: int| 0 <= i < left.len() implies (#[trigger] left[i]).index == i
                + 1 by {
                assert(f.log[i].index == i + 1);
            }
        }
        storage::stored_all_appends(left, added);
    }
}

proof fn append_entries_replays(
    h: History,
    members: Set<NodeId>,
    disk: StorageView,
    stream: Seq<LogEntryView>,
    n: NodeView,
    from: NodeId,
    req: AppendEntriesView,
)
    requires
        safety::history_ok(h, members),
        safety::node_ok(h, members, n),
        safety::packet_ok(
            h,
            members,
            Packet { from, to: n.id, message: MessageView::AppendEntries(req) },
        ),
        synced(disk, n),
        fed(stream, n),
        n.log.len() + req.entries.len() < u64::MAX,
    ensures
        synced(
            cluster::written(
                disk,
                transition::on_append_entries(n, from, req).0,
                transition::on_append_entries(n, from, req).1,
            ),
            transition::on_append_entries(n, from, req).0,
        ),
        fed(
            cluster::consumed(stream, transition::on_append_entries(n, from, req).1),
            transition::on_append_entries(n, from, req).0,
        ),
{
    let (last, effects) = transition::on_append_entries(n, from, req);
    let at_term = transition::stepped_down(n, req.term);
    let before = transition::step_down_effects(n, req.term);
    step_down_written(disk, stream, n, req.term, last);
    let reply = effects.last();
    let body = effects.drop_last();
    assert(effects =~= body + seq![reply]);
    written_joins(disk, last, body, seq![reply]);
    inert_writes_nothing(cluster::written(disk, last, body), last, seq![reply]);
    consumed_joins(stream, body, seq![reply]);
    mute_feeds_nothing(cluster::consumed(stream, body), seq![reply]);
    let f = transition::following(at_term, req.leader_id);
    if req.term < at_term.current_term || log::term_at(f.log, req.prev_log_index as int) != Some(
        req.prev_log_term,
    ) {
        assert(body =~= before);
    } else {
        safety::step_down_ok(h, members, n, req.term);
        assert(!(at_term.role is Leader));
        assert(safety::votes_ok(h, members, f));
        assert(safety::node_ok(h, members, f));
        let g = safety::accept_ok(h, members, f, from, req);
        let changes = transition::merge_effects(f.log, req.entries);
        let merged_in = transition::accepted(f, req);
        let applied = if req.leader_commit > f.commit_index {
            transition::applications(
                merged_in.log,
                merged_in.last_applied as int,
                merged_in.commit_index as int,
            )
        } else {
            Seq::empty()
        };
        assert(body =~= before + (changes + applied));
        let middle = cluster::written(disk, last, before);
        written_joins(disk, last, before, changes + applied);
        written_joins(middle, last, changes, applied);
        merge_written(h, members, middle, f, from, req, last);
        let a = merged_in.last_applied as int;
        let c = f.commit_index as int;
        assert(merged_in.log.take(c).take(a) =~= merged_in.log.take(a));
        assert(f.log.take(c).take(a) =~= f.log.take(a));
        assert(fed(stream, merged_in));
        if req.leader_commit > f.commit_index {
            applications_feed(merged_in.log, a, merged_in.commit_index as int);
        }
        assert(inert(applied));
        inert_writes_nothing(cluster::written(middle, last, changes), last, applied);
        consumed_joins(stream, before, changes + applied);
        consumed_joins(stream, changes, applied);
        mute_feeds_nothing(stream, changes);
    }
}

/// Carrying out the effects of a step in order brings the disk to the term,
/// vote and log of the node after the step, and feeds the state machine
/// exactly what the node has applied.
pub proof fn step_replays(
    h: History,
    members: Set<NodeId>,
    disk: StorageView,
    stream: Seq<LogEntryView>,
    n: NodeView,
    event: EventView,
)
    requires
        safety::history_ok(h, members),
        safety::node_ok(h, members, n),
        event matches EventView::Message(from, message) ==> safety::packet_ok(
            h,
            members,
            Packet { from, to: n.id, message },
        ),
        synced(disk, n),
        fed(stream, n),
        transition::step_fits(n, event),
    ensures
        synced(
            cluster::written(disk, transition::step(n, event).0, transition::step(n, event).1),
            transition::step(n, event).0,
        ),
        fed(
            cluster::consumed(stream, transition::step(n, event).1),
            transition::step(n, event).0,
        ),
{
    match event {
        EventView::Tick => tick_replays(disk, stream, n),
        EventView::Message(from, message) => match message {
            MessageView::RequestVote(req) => request_vote_replays(disk, stream, n, from, req),
            MessageView::RequestVoteResp(resp) => vote_reply_replays(disk, stream, n, from, resp),
            MessageView::AppendEntries(req) => append_entries_replays(
                h,
                members,
                disk,
                stream,
                n,
                from,
                req,
            ),
            MessageView::AppendEntriesResp(resp) => append_reply_replays(
                disk,
                stream,
                n,
                from,
                resp,
            ),
        },
        EventView::Propose(command) => propose_replays(disk, stream, n, command),
    }
}

} // verus!
