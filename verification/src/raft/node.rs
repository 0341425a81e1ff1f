//! The shell around the pure core: it starts a node from its durable state,
//! turns each event into work for the outside, in the order in which it has
//! to be done, and draws the election timeouts.

use vstd::prelude::*;

use crate::duplicate::Duplicate;
use crate::raft::log;
use crate::raft::log::{LogEntry, LogEntryView, LogIndex, NodeId, RaftLog};
use crate::raft::machine::{Effect, Event, RaftNode, Role};
use crate::raft::message::{Message, MessageView};
use crate::raft::storage::HardState;
use crate::raft::transition;
use crate::raft::transition::{EffectView, EventView, NodeView};

verus! {

/// How often a node ticks, in milliseconds.
pub const TICK_INTERVAL_MILLIS: u64 = 50;

pub const ELECTION_TICK_MIN: u32 = 10;

pub const ELECTION_TICK_JITTER: u64 = 10;

/// A small generator of pseudo-random numbers.
pub struct XorShift {
    state: u64,
}

/// The state after another one.
pub open spec fn scrambled(state: u64) -> u64 {
    let x = if state == 0 {
        1
    } else {
        state
    };
    let a = x ^ (x << 13);
    let b = a ^ (a >> 7);
    b ^ (b << 17)
}

/// Law: the generator never gets stuck at zero.
pub proof fn scrambled_is_not_zero(state: u64)
    ensures
        scrambled(state) != 0,
{
    let x: u64 = if state == 0 {
        1
    } else {
        state
    };
    assert(x ^ (x << 13) != 0) by (bit_vector)
        requires
            x != 0,
    ;
    let a = x ^ (x << 13);
    assert(a ^ (a >> 7) != 0) by (bit_vector)
        requires
            a != 0,
    ;
    let b = a ^ (a >> 7);
    assert(b ^ (b << 17) != 0) by (bit_vector)
        requires
            b != 0,
    ;
}

/// The seed of one node, mixed so that nodes with neighbouring ids and seeds
/// still draw different timeouts.
pub open spec fn mixed_seed(seed: u64, id: NodeId) -> u64 {
    vstd::wrapping::u64_specs::wrapping_add(
        seed,
        vstd::wrapping::u64_specs::wrapping_mul(id, 0x9E37_79B9_7F4A_7C15),
    )
}

/// The election timeout drawn with a generator in a given state.
pub open spec fn drawn_timeout(state: u64) -> u32 {
    (ELECTION_TICK_MIN + scrambled(state) % ELECTION_TICK_JITTER) as u32
}

impl View for XorShift {
    type V = u64;

    closed spec fn view(&self) -> u64 {
        self.state
    }
}

impl XorShift {
    pub fn new(seed: u64) -> (rng: Self)
        ensures
            rng@ == seed,
    {
        XorShift { state: seed }
    }

    pub fn next(&mut self) -> (x: u64)
        ensures
            x == scrambled(old(self)@),
            final(self)@ == x,
    {
        let x: u64 = if self.state == 0 {
            1
        } else {
            self.state
        };
        let a: u64 = x ^ (x << 13u64);
        let b: u64 = a ^ (a >> 7u64);
        self.state = b ^ (b << 17u64);
        self.state
    }

    fn election_timeout(&mut self) -> (ticks: u32)
        ensures
            ticks == drawn_timeout(old(self)@),
            final(self)@ == scrambled(old(self)@),
            ELECTION_TICK_MIN <= ticks < ELECTION_TICK_MIN + ELECTION_TICK_JITTER,
    {
        ELECTION_TICK_MIN + (self.next() % ELECTION_TICK_JITTER) as u32
    }
}

/// What the outside has to do for a node, one after the other.
#[derive(Debug, Clone, PartialEq)]
pub enum Work {
    SaveHardState(HardState),
    TruncateFrom(LogIndex),
    AppendEntries(Vec<LogEntry>),
    Send(NodeId, Message),
    Apply(LogEntry),
    ReportRejected(Option<NodeId>),
}

#[verifier::ext_equal]
pub enum WorkView {
    SaveHardState(HardState),
    TruncateFrom(LogIndex),
    AppendEntries(Seq<LogEntryView>),
    Send(NodeId, MessageView),
    Apply(LogEntryView),
    ReportRejected(Option<NodeId>),
}

impl DeepView for Work {
    type V = WorkView;

    open spec fn deep_view(&self) -> WorkView {
        match self {
            Work::SaveHardState(state) => WorkView::SaveHardState(*state),
            Work::TruncateFrom(from) => WorkView::TruncateFrom(*from),
            Work::AppendEntries(entries) => WorkView::AppendEntries(entries.deep_view()),
            Work::Send(to, message) => WorkView::Send(*to, message.deep_view()),
            Work::Apply(entry) => WorkView::Apply(entry.deep_view()),
            Work::ReportRejected(hint) => WorkView::ReportRejected(*hint),
        }
    }
}

/// The work that an effect asks for. The hard state is that of the node after
/// its step.
pub open spec fn work_for(n: NodeView, effect: EffectView) -> WorkView {
    match effect {
        EffectView::Persist => WorkView::SaveHardState(
            HardState { current_term: n.current_term, voted_for: n.voted_for },
        ),
        EffectView::PersistTruncate(from) => WorkView::TruncateFrom(from),
        EffectView::PersistEntries(entries) => WorkView::AppendEntries(entries),
        EffectView::Send(to, message) => WorkView::Send(to, message),
        EffectView::Apply(entry) => WorkView::Apply(entry),
        EffectView::ProposeRejected { leader_hint } => WorkView::ReportRejected(leader_hint),
    }
}

pub open spec fn work_list(n: NodeView, effects: Seq<EffectView>) -> Seq<WorkView> {
    Seq::new(effects.len(), |i: int| work_for(n, effects[i]))
}

/// A node as the shell has it: the node and the state of its generator.
#[verifier::ext_equal]
pub struct ShellView {
    pub node: NodeView,
    pub rng: u64,
}

/// The shell of a node that starts from its durable state.
pub open spec fn recovered(
    id: NodeId,
    peers: Seq<NodeId>,
    state: HardState,
    entries: Seq<LogEntryView>,
    seed: u64,
) -> ShellView {
    let first = mixed_seed(seed, id);
    ShellView {
        node: NodeView {
            current_term: state.current_term,
            voted_for: state.voted_for,
            log: entries,
            ..transition::fresh(id, peers, drawn_timeout(first))
        },
        rng: scrambled(first),
    }
}

/// What one event does: the core takes its step, and a node that has just
/// become candidate draws another election timeout.
pub open spec fn handled(s: ShellView, event: EventView) -> (ShellView, Seq<WorkView>) {
    let (node, effects) = transition::step(s.node, event);
    if !(s.node.role is Candidate) && node.role is Candidate {
        let armed = NodeView { election_timeout_ticks: drawn_timeout(s.rng), ..node };
        (ShellView { node: armed, rng: scrambled(s.rng) }, work_list(armed, effects))
    } else {
        (ShellView { node, rng: s.rng }, work_list(node, effects))
    }
}

pub struct RaftShell {
    node: RaftNode,
    rng: XorShift,
}

impl View for RaftShell {
    type V = ShellView;

    closed spec fn view(&self) -> ShellView {
        ShellView { node: self.node@, rng: self.rng@ }
    }
}

impl RaftShell {
    /// Starts a node from what it had persisted.
    pub fn new(
        id: NodeId,
        peers: Vec<NodeId>,
        hard_state: HardState,
        entries: Vec<LogEntry>,
        seed: u64,
    ) -> (shell: Self)
        ensures
            shell@ == recovered(id, peers@, hard_state, entries.deep_view(), seed),
    {
        let mut rng = XorShift::new(
            seed.wrapping_add(id.wrapping_mul(0x9E37_79B9_7F4A_7C15u64)),
        );
        let timeout: u32 = rng.election_timeout();
        let mut node = RaftNode::new(id, peers, timeout);
        node.current_term = hard_state.current_term;
        node.voted_for = hard_state.voted_for;
        node.log = RaftLog::from_entries(entries);
        RaftShell { node, rng }
    }

    /// Takes one event and gives the work it asks for, in order.
    pub fn handle(&mut self, event: Event) -> (work: Vec<Work>)
        requires
            transition::step_fits(old(self)@.node, event.deep_view()),
        ensures
            (final(self)@, work.deep_view()) == handled(old(self)@, event.deep_view()),
    {
        let was_candidate = matches!(self.node.role, Role::Candidate { .. });
        let effects = self.node.step(event);
        if !was_candidate && matches!(self.node.role, Role::Candidate { .. }) {
            let ticks: u32 = self.rng.election_timeout();
            self.node.set_election_timeout(ticks);
        }
        self.execute(effects)
    }

    /// The work that the effects ask for, one for one.
    fn execute(&self, effects: Vec<Effect>) -> (work: Vec<Work>)
        ensures
            work.deep_view() == work_list(self@.node, effects.deep_view()),
    {
        let hard_state = self.node.hard_state();
        let mut work: Vec<Work> = Vec::new();
        for i in 0..effects.len()
            invariant
                hard_state == (HardState {
                    current_term: self@.node.current_term,
                    voted_for: self@.node.voted_for,
                }),
                work@.len() == i,
                forall|k: int|
                    0 <= k < i ==> (#[trigger] work@[k]).deep_view() == work_for(
                        self@.node,
                        effects@[k].deep_view(),
                    ),
        {
            let item = match &effects[i] {
                Effect::Persist => Work::SaveHardState(hard_state),
                Effect::PersistTruncate(from) => Work::TruncateFrom(*from),
                Effect::PersistEntries(entries) => Work::AppendEntries(entries.duplicate()),
                Effect::Send(to, message) => Work::Send(*to, message.duplicate()),
                Effect::Apply(entry) => Work::Apply(entry.duplicate()),
                Effect::ProposeRejected { leader_hint } => Work::ReportRejected(*leader_hint),
            };
            work.push(item);
        }
        assert(work.deep_view() =~= work_list(self@.node, effects.deep_view()));
        work
    }

    /// Whom the node takes for the leader.
    pub fn leader_hint(&self) -> (hint: Option<NodeId>)
        ensures
            hint == self@.node.leader_hint,
    {
        self.node.leader_hint
    }

    /// The machine limits of the next step, for callers that have to check
    /// them.
    pub fn fits(&self, event: &Event) -> (fits: bool)
        ensures
            fits == transition::step_fits(self@.node, event.deep_view()),
    {
        self.node.fits(event)
    }
}


/// Law: an election timeout is at least ten ticks and less than twenty.
pub proof fn timeouts_are_spread(state: u64)
    ensures
        10 <= drawn_timeout(state) < 20,
        drawn_timeout(state) == 10 + scrambled(state) % 10,
{
}

/// Law: a node comes back as a follower with the term, the vote and the log that
/// it had written down, and knows of nothing that is committed.
pub proof fn restarted_nodes_keep_what_was_written(
    id: NodeId,
    peers: Seq<NodeId>,
    state: HardState,
    entries: Seq<LogEntryView>,
    seed: u64,
)
    ensures
        ({
            let n = recovered(id, peers, state, entries, seed).node;
            &&& n.id == id
            &&& n.peers == peers
            &&& n.role is Follower
            &&& n.current_term == state.current_term
            &&& n.voted_for == state.voted_for
            &&& n.log == entries
            &&& n.commit_index == 0
            &&& n.last_applied == 0
            &&& n.ticks_since_reset == 0
            &&& n.leader_hint is None
            &&& 10 <= n.election_timeout_ticks < 20
        }),
{
}

/// Law: each effect of a step is work of its kind, in the order of the effects;
/// the hard state that is saved is the node's after the step. A node that comes
/// to stand for election draws a new timeout, and no other one does.
pub proof fn effects_become_work(s: ShellView, event: EventView, i: int)
    ensures
        ({
            let (next, effects) = transition::step(s.node, event);
            let (after, work) = handled(s, event);
            &&& work.len() == effects.len()
            &&& after.node == (NodeView {
                election_timeout_ticks: after.node.election_timeout_ticks,
                ..next
            })
            &&& if !(s.node.role is Candidate) && next.role is Candidate {
                after.rng == scrambled(s.rng) && 10 <= after.node.election_timeout_ticks < 20
            } else {
                after.rng == s.rng && after.node == next
            }
            &&& 0 <= i < effects.len() ==> match effects[i] {
                EffectView::Send(to, message) => work[i] == WorkView::Send(to, message),
                EffectView::Persist => match work[i] {
                    WorkView::SaveHardState(state) => state.current_term == next.current_term
                        && state.voted_for == next.voted_for,
                    _ => false,
                },
                EffectView::PersistTruncate(from) => work[i] == WorkView::TruncateFrom(from),
                EffectView::PersistEntries(entries) => work[i] == WorkView::AppendEntries(entries),
                EffectView::Apply(entry) => work[i] == WorkView::Apply(entry),
                EffectView::ProposeRejected { leader_hint } => work[i] == WorkView::ReportRejected(
                    leader_hint,
                ),
            }
        }),
{
}

} // verus!
