//! What one node hands to its state machine, whatever it is sent: the entries of
//! its log in their order, none twice and none left out.

use vstd::prelude::*;

use crate::raft::cluster;
use crate::raft::laws;
use crate::raft::log;
use crate::raft::log::{LogEntryView, NodeId};
use crate::raft::message::{AppendEntriesView, MessageView};
use crate::raft::replay;
use crate::raft::safety;
use crate::raft::transition;
use crate::raft::transition::{EffectView, EventView, NodeView};

verus! {

/// The entries of a log bear their places as their indices.
pub open spec fn numbered(entries: Seq<LogEntryView>) -> bool {
    forall|i: int| 0 <= i < entries.len() ==> (#[trigger] entries[i]).index == i + 1
}

/// The entries that an event brings, if any, are numbered from the place they
/// belong to.
pub open spec fn well_numbered(event: EventView) -> bool {
    event matches EventView::Message(_, MessageView::AppendEntries(req)) ==> laws::in_place(
        req,
    )
}

/// The entries of a log after the first `from`, up to number `to`.
pub open spec fn stretch(entries: Seq<LogEntryView>, from: int, to: int) -> Seq<LogEntryView> {
    if from < to {
        entries.subrange(from, to)
    } else {
        Seq::empty()
    }
}

proof fn applications_are_a_stretch(
    stream: Seq<LogEntryView>,
    entries: Seq<LogEntryView>,
    from: int,
    to: int,
)
    requires
        0 <= from,
        to <= entries.len(),
    ensures
        cluster::consumed(stream, transition::applications(entries, from, to)) == stream + stretch(
            entries,
            from,
            to,
        ),
    decreases to - from,
{
    let all = transition::applications(entries, from, to);
    if from < to {
        applications_are_a_stretch(stream, entries, from, to - 1);
        assert(all.drop_last() =~= transition::applications(entries, from, to - 1));
        assert(stream + stretch(entries, from, to) =~= (stream + stretch(
            entries,
            from,
            to - 1,
        )).push(entries[to - 1]));
    } else {
        assert(stream + stretch(entries, from, to) =~= stream);
    }
}

/// What a step hands to the state machine, told from the node before and after
/// it.
pub open spec fn hands_over(n: NodeView, later: NodeView, entries: Seq<LogEntryView>) -> bool {
    &&& n.last_applied <= later.last_applied
    &&& n.last_applied < later.last_applied ==> later.last_applied <= later.log.len()
    &&& entries == stretch(later.log, n.last_applied as int, later.last_applied as int)
}

proof fn quiet_step(
    stream: Seq<LogEntryView>,
    n: NodeView,
    later: NodeView,
    effects: Seq<EffectView>,
)
    requires
        replay::mute(effects),
        later.last_applied == n.last_applied,
    ensures
        hands_over(n, later, cluster::consumed(Seq::empty(), effects)),
        cluster::consumed(stream, effects) == stream + cluster::consumed(Seq::empty(), effects),
{
    replay::mute_feeds_nothing(stream, effects);
    replay::mute_feeds_nothing(Seq::empty(), effects);
    assert(stream + Seq::<LogEntryView>::empty() =~= stream);
}

proof fn applying_step(
    stream: Seq<LogEntryView>,
    n: NodeView,
    later: NodeView,
    before: Seq<EffectView>,
    to: int,
    after: Seq<EffectView>,
)
    requires
        replay::mute(before),
        replay::mute(after),
        to <= later.log.len(),
        later.last_applied == if n.last_applied < to {
            to
        } else {
            n.last_applied as int
        },
    ensures
        ({
            let effects = before + transition::applications(
                later.log,
                n.last_applied as int,
                to,
            ) + after;
            &&& hands_over(n, later, cluster::consumed(Seq::empty(), effects))
            &&& cluster::consumed(stream, effects) == stream + cluster::consumed(
                Seq::empty(),
                effects,
            )
        }),
{
    let fed = transition::applications(later.log, n.last_applied as int, to);
    let none = Seq::<LogEntryView>::empty();
    let given = stretch(later.log, n.last_applied as int, to);
    replay::consumed_joins(stream, before + fed, after);
    replay::consumed_joins(stream, before, fed);
    replay::consumed_joins(none, before + fed, after);
    replay::consumed_joins(none, before, fed);
    replay::mute_feeds_nothing(stream, before);
    replay::mute_feeds_nothing(none, before);
    applications_are_a_stretch(stream, later.log, n.last_applied as int, to);
    applications_are_a_stretch(none, later.log, n.last_applied as int, to);
    replay::mute_feeds_nothing(stream + given, after);
    replay::mute_feeds_nothing(none + given, after);
    assert(none + given =~= given);
}

proof fn append_step(stream: Seq<LogEntryView>, n: NodeView, from: NodeId, req: AppendEntriesView)
    requires
        numbered(n.log),
        laws::in_place(req),
        n.log.len() + req.entries.len() < u64::MAX,
    ensures
        ({
            let (later, effects) = transition::on_append_entries(n, from, req);
            &&& numbered(later.log)
            &&& hands_over(n, later, cluster::consumed(Seq::empty(), effects))
            &&& cluster::consumed(stream, effects) == stream + cluster::consumed(
                Seq::empty(),
                effects,
            )
        }),
{
    let (later, effects) = transition::on_append_entries(n, from, req);
    let at_term = transition::stepped_down(n, req.term);
    let f = transition::following(at_term, req.leader_id);
    let p = req.prev_log_index as int;
    if req.term < at_term.current_term || log::term_at(f.log, p) != Some(req.prev_log_term) {
        quiet_step(stream, n, later, effects);
    } else {
        laws::cuts_are_writes(f.log, req.entries);
        let q = laws::merge_holds_all(f.log, p, req.entries);
        let (kept, added, cuts) = transition::merged(f.log, req.entries);
        let merged_in = transition::accepted(f, req);
        assert forall|i: int| 0 <= i < merged_in.log.len() implies (
        #[trigger] merged_in.log[i]).index == i + 1 by {
            if i < kept.len() {
                assert(merged_in.log[i] == f.log[i]);
            } else {
                assert(merged_in.log[i] == req.entries[i - p]);
            }
        }
        let before = transition::step_down_effects(n, req.term) + transition::merge_effects(
            f.log,
            req.entries,
        );
        let reply = seq![effects.last()];
        assert(replay::mute(before)) by {
            let front = transition::step_down_effects(n, req.term);
            let changes = transition::merge_effects(f.log, req.entries);
            assert forall|i: int| 0 <= i < before.len() implies !((
            #[trigger] before[i]) is Apply) by {
                if i < front.len() {
                    assert(before[i] == front[i]);
                } else {
                    assert(before[i] == changes[i - front.len()]);
                }
            }
        }
        if req.leader_commit > f.commit_index {
            let to = merged_in.commit_index as int;
            assert(effects =~= before + transition::applications(
                later.log,
                n.last_applied as int,
                to,
            ) + reply);
            applying_step(stream, n, later, before, to, reply);
        } else {
            assert(effects =~= before + reply);
            assert(replay::mute(effects));
            quiet_step(stream, n, later, effects);
        }
    }
}

proof fn commit_step(
    stream: Seq<LogEntryView>,
    n: NodeView,
    leader: NodeView,
    before: Seq<EffectView>,
)
    requires
        replay::mute(before),
        n.last_applied == leader.last_applied,
        leader.log.len() < u64::MAX,
    ensures
        ({
            let (later, applied) = transition::advance_commit(leader);
            &&& later.log == leader.log
            &&& hands_over(n, later, cluster::consumed(Seq::empty(), before + applied))
            &&& cluster::consumed(stream, before + applied) == stream + cluster::consumed(
                Seq::empty(),
                before + applied,
            )
        }),
{
    let (later, applied) = transition::advance_commit(leader);
    let commit = transition::highest_committable(leader, leader.log.len() as int);
    safety::highest_is_committable(leader, leader.log.len() as int);
    if commit > leader.commit_index {
        assert(before + applied =~= before + applied + Seq::<EffectView>::empty());
        applying_step(stream, n, later, before, commit, Seq::empty());
    } else {
        assert(before + applied =~= before);
        quiet_step(stream, n, later, before);
    }
}

/// Law: what a step hands to the state machine are the entries of the log, as it
/// is after the step, that follow the one applied last, in their order; and they
/// bear their places as their indices.
pub proof fn steps_apply_in_order(stream: Seq<LogEntryView>, n: NodeView, event: EventView)
    requires
        numbered(n.log),
        well_numbered(event),
        transition::step_fits(n, event),
    ensures
        ({
            let (later, effects) = transition::step(n, event);
            &&& numbered(later.log)
            &&& hands_over(n, later, cluster::consumed(Seq::empty(), effects))
            &&& cluster::consumed(stream, effects) == stream + cluster::consumed(
                Seq::empty(),
                effects,
            )
        }),
{
    let (later, effects) = transition::step(n, event);
    match event {
        EventView::Message(from, MessageView::AppendEntries(req)) => append_step(
            stream,
            n,
            from,
            req,
        ),
        EventView::Message(from, MessageView::AppendEntriesResp(resp)) => {
            let at_term = transition::stepped_down(n, resp.term);
            let before = transition::step_down_effects(n, resp.term);
            if at_term.role is Leader && resp.term == at_term.current_term
                && at_term.role->match_index.contains_key(from) && resp.success {
                let updated = transition::noted(at_term, from, resp.success, resp.match_index);
                commit_step(stream, n, updated, before);
            } else {
                assert(replay::mute(effects));
                quiet_step(stream, n, later, effects);
            }
        },
        EventView::Propose(command) => {
            if n.role is Leader {
                let entry = LogEntryView {
                    term: n.current_term,
                    index: (n.log.len() + 1) as u64,
                    command,
                };
                let appended = NodeView { log: n.log.push(entry), ..n };
                let before = seq![EffectView::PersistEntries(seq![entry])]
                    + transition::replication(appended);
                assert(replay::mute(before));
                commit_step(stream, n, appended, before);
            } else {
                assert(replay::mute(effects));
                quiet_step(stream, n, later, effects);
            }
        },
        _ => {
            assert(replay::mute(effects));
            quiet_step(stream, n, later, effects);
        },
    }
}

/// One node from its start on, event by event.
pub open spec fn node_run(states: Seq<NodeView>, events: Seq<EventView>) -> bool {
    &&& states.len() == events.len() + 1
    &&& states[0] == transition::fresh(
        states[0].id,
        states[0].peers,
        states[0].election_timeout_ticks,
    )
    &&& forall|i: int|
        0 <= i < events.len() ==> {
            &&& well_numbered(#[trigger] events[i])
            &&& transition::step_fits(states[i], events[i])
            &&& states[i + 1] == transition::step(states[i], events[i]).0
        }
}

/// All effects of the first steps of a run, in their order.
pub open spec fn effects_until(states: Seq<NodeView>, events: Seq<EventView>, at: int) -> Seq<
    EffectView,
>
    decreases at,
{
    if at <= 0 {
        Seq::empty()
    } else {
        effects_until(states, events, at - 1) + transition::step(states[at - 1], events[at - 1]).1
    }
}

/// Law: whatever a node is sent, the entries that it applies bear the indices 1,
/// 2, 3 and so on up to the one applied last, none twice and none left out; and
/// each one is, when it is applied, the entry of the log at its index.
pub proof fn entries_apply_in_order(states: Seq<NodeView>, events: Seq<EventView>, at: int)
    requires
        node_run(states, events),
        0 <= at < states.len(),
    ensures
        ({
            let all = cluster::consumed(Seq::empty(), effects_until(states, events, at));
            &&& numbered(all)
            &&& all.len() == states[at].last_applied
        }),
        numbered(states[at].log),
        at > 0 ==> hands_over(
            states[at - 1],
            states[at],
            cluster::consumed(
                Seq::empty(),
                transition::step(states[at - 1], events[at - 1]).1,
            ),
        ),
    decreases at,
{
    if at > 0 {
        let n = states[at - 1];
        let event = events[at - 1];
        entries_apply_in_order(states, events, at - 1);
        assert(well_numbered(event));
        assert(states[at - 1 + 1] == transition::step(n, event).0);
        let before = effects_until(states, events, at - 1);
        let effects = transition::step(n, event).1;
        let given = cluster::consumed(Seq::empty(), before);
        replay::consumed_joins(Seq::empty(), before, effects);
        steps_apply_in_order(given, n, event);
        let more = cluster::consumed(Seq::empty(), effects);
        let all = given + more;
        assert forall|i: int| 0 <= i < all.len() implies (#[trigger] all[i]).index == i + 1 by {
            if i < given.len() {
                assert(all[i] == given[i]);
            } else {
                assert(all[i] == states[at].log[i]);
            }
        }
    }
}

} // verus!
