//! What holds of every single step of a node, whatever it is sent.

use vstd::prelude::*;

use crate::raft::log;
use crate::raft::log::{LogEntryView, NodeId};
use crate::raft::message::{AppendEntriesView, MessageView};
use crate::raft::transition;
use crate::raft::transition::{EffectView, EventView, NodeView};

verus! {

pub open spec fn writes(effect: EffectView) -> bool {
    effect is Persist || effect is PersistTruncate || effect is PersistEntries
}

/// No write comes after a message.
pub open spec fn writes_come_first(effects: Seq<EffectView>) -> bool {
    forall|i: int, j: int|
        0 <= i < j < effects.len() && (#[trigger] effects[i]) is Send ==> !writes(
            #[trigger] effects[j],
        )
}

/// Law: a node's term never goes back.
pub proof fn term_never_goes_back(n: NodeView, event: EventView)
    requires
        transition::step_fits(n, event),
    ensures
        transition::step(n, event).0.current_term >= n.current_term,
{
}

/// Law: a vote once given stands for the rest of the term.
pub proof fn vote_stands_for_its_term(n: NodeView, event: EventView)
    requires
        transition::step_fits(n, event),
        n.voted_for is Some,
        transition::step(n, event).0.current_term == n.current_term,
    ensures
        transition::step(n, event).0.voted_for == n.voted_for,
{
}

/// Law: whenever the term or the vote changes, the hard state is written.
pub proof fn hard_state_changes_are_written(n: NodeView, event: EventView)
    requires
        transition::step_fits(n, event),
        transition::step(n, event).0.current_term != n.current_term || transition::step(
            n,
            event,
        ).0.voted_for != n.voted_for,
    ensures
        transition::step(n, event).1.contains(EffectView::Persist),
{
    let (last, effects) = transition::step(n, event);
    assert(effects[0] == EffectView::Persist || effects.len() > 1 && effects[1]
        == EffectView::Persist);
}

pub proof fn cuts_are_writes(entries: Seq<LogEntryView>, more: Seq<LogEntryView>)
    ensures
        forall|i: int|
            0 <= i < transition::merged(entries, more).2.len() ==> (
            #[trigger] transition::merged(entries, more).2[i]) is PersistTruncate,
    decreases more.len(),
{
    if more.len() > 0 {
        cuts_are_writes(entries, more.drop_last());
    }
}

/// Law: everything that has to be on disk before a message leaves comes before
/// it in the effects.
pub proof fn writes_precede_messages(n: NodeView, event: EventView)
    requires
        transition::step_fits(n, event),
    ensures
        writes_come_first(transition::step(n, event).1),
{
    let (last, effects) = transition::step(n, event);
    match event {
        EventView::Message(from, MessageView::AppendEntries(req)) => {
            let at_term = transition::stepped_down(n, req.term);
            let f = transition::following(at_term, req.leader_id);
            if req.term >= at_term.current_term && log::term_at(
                f.log,
                req.prev_log_index as int,
            ) == Some(req.prev_log_term) {
                cuts_are_writes(f.log, req.entries);
                let changes = transition::merge_effects(f.log, req.entries);
                let before = transition::step_down_effects(n, req.term);
                let merged_in = transition::accepted(f, req);
                let applied = if req.leader_commit > f.commit_index {
                    transition::applications(
                        merged_in.log,
                        merged_in.last_applied as int,
                        merged_in.commit_index as int,
                    )
                } else {
                    Seq::empty()
                };
                let body = before + changes + applied;
                assert(effects == body.push(effects.last()));
                assert forall|i: int| 0 <= i < body.len() implies !((#[trigger] body[i]) is Send) by {
                    if i < before.len() {
                        assert(body[i] == before[i]);
                    } else if i < before.len() + changes.len() {
                        assert(body[i] == changes[i - before.len()]);
                    } else {
                        assert(body[i] == applied[i - before.len() - changes.len()]);
                    }
                }
                assert forall|i: int, j: int|
                    0 <= i < j < effects.len() && (#[trigger] effects[i]) is Send implies !writes(
                    #[trigger] effects[j],
                ) by {
                    assert(effects[i] == body[i]);
                }
            }
        },
        _ => {},
    }
}

/// The entries of a message are numbered from the place they belong to.
pub open spec fn in_place(req: AppendEntriesView) -> bool {
    forall|i: int|
        0 <= i < req.entries.len() ==> (#[trigger] req.entries[i]).index == req.prev_log_index + 1
            + i
}

/// The log has an entry of the same term wherever the message has one.
pub open spec fn holds_all(entries: Seq<LogEntryView>, p: int, more: Seq<LogEntryView>) -> bool {
    &&& p + more.len() <= entries.len()
    &&& forall|i: int| 0 <= i < more.len() ==> entries[p + i].term == (#[trigger] more[i]).term
}

pub proof fn merge_holds_all(entries: Seq<LogEntryView>, p: int, more: Seq<LogEntryView>) -> (q: int)
    requires
        0 <= p <= entries.len(),
        forall|i: int| 0 <= i < more.len() ==> (#[trigger] more[i]).index == p + 1 + i,
    ensures
        ({
            let (left, added, cuts) = transition::merged(entries, more);
            if holds_all(entries, p, more) {
                left == entries && added.len() == 0 && cuts.len() == 0
            } else {
                &&& p <= q < p + more.len()
                &&& q <= entries.len()
                &&& left == entries.take(q)
                &&& added == more.skip(q - p)
                &&& forall|i: int| 0 <= i < q - p ==> entries[p + i].term == (#[trigger] more[i]).term
            }
        }),
        holds_all(
            transition::merged(entries, more).0 + transition::merged(entries, more).1,
            p,
            more,
        ),
    decreases more.len(),
{
    if more.len() == 0 {
        let (left, added, cuts) = transition::merged(entries, more);
        assert(left + added =~= entries);
        p
    } else {
        let front = more.drop_last();
        let e = more.last();
        let m = p + more.len();
        assert forall|i: int| 0 <= i < front.len() implies (#[trigger] front[i]).index == p + 1
            + i by {
            assert(more[i] == front[i]);
        }
        let r = merge_holds_all(entries, p, front);
        assert(more[more.len() - 1].index == m);
        let (left, added, cuts) = transition::merged(entries, more);
        let (before, pending, earlier) = transition::merged(entries, front);
        let q = if holds_all(entries, p, front) {
            if m <= entries.len() && entries[m - 1].term == e.term {
                assert forall|i: int| 0 <= i < more.len() implies entries[p + i].term == (
                #[trigger] more[i]).term by {
                    if i < front.len() {
                        assert(front[i] == more[i]);
                    }
                }
            } else {
                if holds_all(entries, p, more) {
                    assert(entries[p + (more.len() - 1)].term == more[more.len() - 1].term);
                    assert(false);
                }
                if m <= entries.len() {
                    assert(log::truncated(entries, m) =~= entries.take(m - 1));
                } else {
                    assert(entries.take(m - 1) =~= entries);
                }
                assert(pending =~= Seq::<LogEntryView>::empty());
                assert(more.skip(m - 1 - p) =~= seq![e]);
                assert(Seq::<LogEntryView>::empty().push(e) =~= seq![e]);
                assert forall|i: int| 0 <= i < m - 1 - p implies entries[p + i].term == (
                #[trigger] more[i]).term by {
                    assert(front[i] == more[i]);
                }
            }
            m - 1
        } else {
            if holds_all(entries, p, more) {
                assert forall|i: int| 0 <= i < front.len() implies entries[p + i].term == (
                #[trigger] front[i]).term by {
                    assert(front[i] == more[i]);
                }
                assert(false);
            }
            assert(more.skip(r - p) =~= front.skip(r - p).push(e));
            assert forall|i: int| 0 <= i < r - p implies entries[p + i].term == (
            #[trigger] more[i]).term by {
                assert(front[i] == more[i]);
            }
            r
        };
        let all = left + added;
        if holds_all(entries, p, more) {
            assert(all =~= entries);
        } else {
            assert forall|i: int| 0 <= i < more.len() implies all[p + i].term == (
            #[trigger] more[i]).term by {
                if p + i >= q {
                    assert(all[p + i] == added[p + i - q]);
                }
            }
        }
        q
    }
}

/// Law: delivering an accepted AppendEntries a second time changes nothing and
/// writes nothing: the same acknowledgement is all that comes of it.
pub proof fn repeated_append_is_harmless(n: NodeView, from: NodeId, req: AppendEntriesView)
    requires
        in_place(req),
        req.term >= n.current_term,
        log::term_at(n.log, req.prev_log_index as int) == Some(req.prev_log_term),
        n.log.len() + req.entries.len() < u64::MAX,
    ensures
        ({
            let (once, first) = transition::on_append_entries(n, from, req);
            let (twice, second) = transition::on_append_entries(once, from, req);
            &&& twice == once
            &&& second == seq![first.last()]
        }),
{
    let p = req.prev_log_index as int;
    let (once, first) = transition::on_append_entries(n, from, req);
    let f = transition::following(transition::stepped_down(n, req.term), req.leader_id);
    let q = merge_holds_all(f.log, p, req.entries);
    let (left, added, cuts) = transition::merged(f.log, req.entries);
    assert(once.log == left + added);
    if p > 0 {
        if holds_all(f.log, p, req.entries) {
            assert(left + added =~= f.log);
        } else {
            assert((left + added)[p - 1] == f.log[p - 1]);
        }
    }
    let r = merge_holds_all(once.log, p, req.entries);
    let (left2, added2, cuts2) = transition::merged(once.log, req.entries);
    assert(left2 + added2 =~= once.log);
    let (twice, second) = transition::on_append_entries(once, from, req);
    assert(cuts2 =~= Seq::<EffectView>::empty());
    assert(twice =~= once);
    assert(second =~= seq![first.last()]);
}

} // verus!
