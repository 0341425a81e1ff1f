//! Places Pods that have no node yet. Of the nodes that can take a Pod, the
//! least loaded one gets it.

use vstd::prelude::*;

use crate::clock;
use crate::clock::Timestamp;
use crate::controller::request;
use crate::controller::request::{
    break_off, Progress, ProgressView, Reply, ReplyView, Request, RequestView,
};
use crate::duplicate::Duplicate;
use crate::node;
use crate::node::{Node, NodeView};
use crate::pod::{Pod, PodView};
use crate::text;

verus! {

/// How old the last report of a node may be, in seconds, for the node to be
/// given Pods.
pub const STALENESS_WINDOW_SECS: i64 = 30;

/// A node takes Pods if it is not cordoned off and has lately reported ready.
pub open spec fn takes_pods(n: NodeView, now: Timestamp) -> bool {
    !n.spec.unschedulable && node::is_fresh(node::report_age(n, now), STALENESS_WINDOW_SECS)
}

pub fn is_schedulable(node: &Node, now: Timestamp) -> (r: bool)
    ensures
        r == takes_pods(node.deep_view(), now),
{
    !node.spec.unschedulable && node.is_ready(now, STALENESS_WINDOW_SECS)
}

/// The nodes that take Pods, in the order in which they are listed.
pub open spec fn able_nodes(nodes: Seq<NodeView>, now: Timestamp) -> Seq<NodeView> {
    nodes.filter(|n: NodeView| takes_pods(n, now))
}

/// Whether there is anything to place: the Pod exists and has no node.
pub fn needs_node(pod: &Option<Pod>) -> (r: bool)
    ensures
        r == (match pod.deep_view() {
            Some(p) => p.spec.node_name is None,
            None => false,
        }),
{
    match pod {
        Some(p) => p.spec.node_name.is_none(),
        None => false,
    }
}

/// The nodes that take Pods, in the order in which they are listed.
pub fn candidates(nodes: &Vec<Node>, now: Timestamp) -> (found: Vec<Node>)
    ensures
        found.deep_view() == able_nodes(nodes.deep_view(), now),
{
    let ghost all = nodes.deep_view();
    let ghost wanted = |n: NodeView| takes_pods(n, now);
    let mut found: Vec<Node> = Vec::new();
    proof {
        reveal(Seq::filter);
        assert(all.take(0) =~= Seq::<NodeView>::empty());
        assert(found.deep_view() =~= Seq::<NodeView>::empty());
    }
    for i in 0..nodes.len()
        invariant
            all == nodes.deep_view(),
            wanted == (|n: NodeView| takes_pods(n, now)),
            found.deep_view() == all.take(i as int).filter(wanted),
    {
        let ghost before = found.deep_view();
        proof {
            reveal(Seq::filter);
            assert(all.take(i + 1).drop_last() =~= all.take(i as int));
            assert(all.take(i + 1).last() == nodes@[i as int].deep_view());
        }
        if is_schedulable(&nodes[i], now) {
            found.push(nodes[i].duplicate());
            assert(found.deep_view() =~= before.push(all[i as int]));
        }
    }
    assert(all.take(nodes@.len() as int) =~= all);
    found
}

/// How many Pods a node has.
pub open spec fn load_of(pods: Seq<PodView>, node: Seq<char>) -> nat {
    pods.filter(|p: PodView| p.spec.node_name == Some(node)).len()
}

fn load(pods: &Vec<Pod>, node: &str) -> (count: usize)
    ensures
        count == load_of(pods.deep_view(), node@),
{
    let ghost all = pods.deep_view();
    let ghost there = |p: PodView| p.spec.node_name == Some(node@);
    let mut count: usize = 0;
    proof {
        reveal(Seq::filter);
        assert(all.take(0) =~= Seq::<PodView>::empty());
    }
    for i in 0..pods.len()
        invariant
            all == pods.deep_view(),
            there == (|p: PodView| p.spec.node_name == Some(node@)),
            count <= i,
            count == all.take(i as int).filter(there).len(),
    {
        proof {
            reveal(Seq::filter);
            assert(all.take(i + 1).drop_last() =~= all.take(i as int));
            assert(all.take(i + 1).last() == pods@[i as int].deep_view());
        }
        if let Some(n) = &pods[i].spec.node_name {
            if text::same(n.as_str(), node) {
                count = count + 1;
            }
        }
    }
    assert(all.take(pods@.len() as int) =~= all);
    count
}

/// The choice falls on a node with the fewest Pods, on the first such one.
pub open spec fn is_first_least(
    candidates: Seq<NodeView>,
    pods: Seq<PodView>,
    chosen: int,
) -> bool {
    let least = load_of(pods, candidates[chosen].metadata.name);
    &&& 0 <= chosen < candidates.len()
    &&& forall|i: int|
        0 <= i < candidates.len() ==> least <= load_of(
            pods,
            (#[trigger] candidates[i]).metadata.name,
        )
    &&& forall|i: int|
        0 <= i < chosen ==> least < load_of(pods, (#[trigger] candidates[i]).metadata.name)
}

/// Picks the node for a Pod among those that take Pods; none where no node
/// does.
pub fn least_loaded(candidates: &Vec<Node>, pods: &Vec<Pod>) -> (chosen: Option<usize>)
    ensures
        match chosen {
            Some(i) => is_first_least(candidates.deep_view(), pods.deep_view(), i as int),
            None => candidates.deep_view().len() == 0,
        },
{
    if candidates.len() == 0 {
        return None;
    }
    let ghost all = candidates.deep_view();
    let mut best: usize = 0;
    let mut least: usize = load(pods, candidates[0].metadata.name.as_str());
    assert(all[0] == candidates@[0].deep_view());
    for i in 1..candidates.len()
        invariant
            all == candidates.deep_view(),
            best < i,
            i <= candidates@.len(),
            least == load_of(pods.deep_view(), all[best as int].metadata.name),
            forall|k: int|
                0 <= k < i ==> least <= load_of(
                    pods.deep_view(),
                    (#[trigger] all[k]).metadata.name,
                ),
            forall|k: int|
                0 <= k < best ==> least < load_of(
                    pods.deep_view(),
                    (#[trigger] all[k]).metadata.name,
                ),
    {
        assert(all[i as int] == candidates@[i as int].deep_view());
        let l: usize = load(pods, candidates[i].metadata.name.as_str());
        if l < least {
            best = i;
            least = l;
        }
    }
    Some(best)
}

/// Why a Pod stays without a node.
pub fn no_node_message(pod_name: &str) -> (s: String)
    ensures
        s@ == "no Ready node available for pod "@ + pod_name@,
{
    "no Ready node available for pod ".to_owned().concat(pod_name)
}

/// How far the placing of one Pod has come: what is awaited.
#[derive(Debug, Clone, PartialEq)]
pub enum Stage {
    /// The Pod.
    Reading,
    /// The nodes, to be judged by this time.
    Filtering { now: Timestamp },
    /// The Pods, to be counted on these nodes.
    Scoring { able: Vec<Node> },
    /// The binding.
    Binding,
}

/// What a `Stage` holds.
#[verifier::ext_equal]
pub enum StageView {
    Reading,
    Filtering { now: Timestamp },
    Scoring { able: Seq<NodeView> },
    Binding,
}

impl DeepView for Stage {
    type V = StageView;

    open spec fn deep_view(&self) -> StageView {
        match self {
            Stage::Reading => StageView::Reading,
            Stage::Filtering { now } => StageView::Filtering { now: *now },
            Stage::Scoring { able } => StageView::Scoring { able: able.deep_view() },
            Stage::Binding => StageView::Binding,
        }
    }
}

/// A Pod is bound to a node.
pub open spec fn bound(pod_name: Seq<char>, node: NodeView) -> ProgressView<StageView> {
    ProgressView::Ask(
        RequestView::BindPod { name: pod_name, node: node.metadata.name },
        StageView::Binding,
    )
}

/// A Pod is bound to the first of the least loaded nodes.
pub open spec fn least_is_bound(
    pod_name: Seq<char>,
    able: Seq<NodeView>,
    pods: Seq<PodView>,
    p: ProgressView<StageView>,
) -> bool {
    exists|i: int| #[trigger] is_first_least(able, pods, i) && p == bound(pod_name, able[i])
}

/// How the placing of a Pod goes on once a reply is there, at a time. A Pod
/// that is gone or placed needs nothing more.
pub open spec fn next_stage(
    pod_name: Seq<char>,
    stage: StageView,
    reply: ReplyView,
    now: Timestamp,
    p: ProgressView<StageView>,
) -> bool {
    match (stage, reply) {
        (StageView::Reading, ReplyView::Pod(pod)) => if pod is Some
            && pod->0.spec.node_name is None {
            p == ProgressView::Ask(RequestView::ListNodes, StageView::Filtering { now })
        } else {
            p == ProgressView::<StageView>::Finished
        },
        (StageView::Filtering { now }, ReplyView::Nodes(nodes)) => {
            let able = able_nodes(nodes, now);
            if able.len() == 0 {
                p == ProgressView::<StageView>::Aborted(
                    "no Ready node available for pod "@ + pod_name,
                )
            } else {
                p == ProgressView::Ask(RequestView::ListPods, StageView::Scoring { able })
            }
        },
        (StageView::Scoring { able }, ReplyView::Pods(pods)) => if able.len() == 0 {
            p == ProgressView::<StageView>::Aborted(
                "no Ready node available for pod "@ + pod_name,
            )
        } else {
            least_is_bound(pod_name, able, pods, p)
        },
        (StageView::Binding, ReplyView::Failed(e)) => p == ProgressView::<StageView>::Aborted(e),
        (StageView::Binding, _) => p == ProgressView::<StageView>::Finished,
        (_, _) => p == ProgressView::<StageView>::Aborted(request::broken_off(reply)),
    }
}

/// The first request in the placing of a Pod.
pub fn start(pod_name: &str) -> (p: Progress<Stage>)
    ensures
        p.deep_view() == ProgressView::Ask(RequestView::GetPod(pod_name@), StageView::Reading),
{
    Progress::Ask(Request::GetPod(pod_name.to_owned()), Stage::Reading)
}

/// Takes the placing of a Pod one reply further.
pub fn schedule(pod_name: &str, stage: Stage, reply: Reply, now: Timestamp) -> (p: Progress<Stage>)
    ensures
        next_stage(pod_name@, stage.deep_view(), reply.deep_view(), now, p.deep_view()),
{
    match (stage, reply) {
        (Stage::Reading, Reply::Pod(pod)) => if needs_node(&pod) {
            Progress::Ask(Request::ListNodes, Stage::Filtering { now })
        } else {
            Progress::Finished
        },
        (Stage::Filtering { now }, Reply::Nodes(nodes)) => {
            let able = candidates(&nodes, now);
            if able.len() == 0 {
                assert(able.deep_view().len() == 0);
                Progress::Aborted(no_node_message(pod_name))
            } else {
                assert(able.deep_view().len() > 0);
                Progress::Ask(Request::ListPods, Stage::Scoring { able })
            }
        },
        (Stage::Scoring { able }, Reply::Pods(pods)) => match least_loaded(&able, &pods) {
            Some(i) => {
                let ghost all = able.deep_view();
                assert(all[i as int] == able@[i as int].deep_view());
                let p: Progress<Stage> = Progress::Ask(
                    Request::BindPod {
                        name: pod_name.to_owned(),
                        node: able[i].metadata.name.clone(),
                    },
                    Stage::Binding,
                );
                assert(p.deep_view() == bound(pod_name@, all[i as int]));
                assert(least_is_bound(pod_name@, all, pods.deep_view(), p.deep_view()));
                p
            },
            None => Progress::Aborted(no_node_message(pod_name)),
        },
        (Stage::Binding, Reply::Failed(e)) => Progress::Aborted(e),
        (Stage::Binding, _) => Progress::Finished,
        (_, reply) => Progress::Aborted(break_off(reply)),
    }
}

/// How many replies are still awaited at most.
pub open spec fn replies_left(stage: StageView) -> nat {
    match stage {
        StageView::Reading => 4,
        StageView::Filtering { .. } => 3,
        StageView::Scoring { .. } => 2,
        StageView::Binding => 1,
    }
}

/// Law: every attempt to place a Pod ends, whatever is replied.
pub proof fn attempts_end(
    pod_name: Seq<char>,
    stage: StageView,
    reply: ReplyView,
    now: Timestamp,
    p: ProgressView<StageView>,
)
    requires
        next_stage(pod_name, stage, reply, now, p),
    ensures
        match p {
            ProgressView::Ask(_, later) => replies_left(later) < replies_left(stage),
            _ => true,
        },
{
}

/// Law: nothing is written but the binding of the Pod itself, and only once it
/// was found without a node.
pub proof fn only_the_binding_is_written(
    pod_name: Seq<char>,
    stage: StageView,
    reply: ReplyView,
    now: Timestamp,
    p: ProgressView<StageView>,
)
    requires
        next_stage(pod_name, stage, reply, now, p),
    ensures
        match p {
            ProgressView::Ask(r, _) => r.is_write() ==> r is BindPod && r->BindPod_name
                == pod_name && stage is Scoring,
            _ => true,
        },
{
}

/// Law: a Pod is placed only on a node that takes Pods, and whenever there is
/// one it is placed.
pub proof fn placed_on_able_nodes(
    nodes: Seq<NodeView>,
    pods: Seq<PodView>,
    now: Timestamp,
    chosen: int,
)
    ensures
        ({
            let able = able_nodes(nodes, now);
            &&& is_first_least(able, pods, chosen) ==> takes_pods(able[chosen], now)
                && nodes.contains(able[chosen])
            &&& (exists|i: int| 0 <= i < nodes.len() && takes_pods(#[trigger] nodes[i], now))
                <==> able.len() > 0
        }),
{
    let f = |n: NodeView| takes_pods(n, now);
    let able = nodes.filter(f);
    if is_first_least(able, pods, chosen) {
        nodes.lemma_filter_pred(f, chosen);
        assert(able.contains(able[chosen]));
        nodes.lemma_filter_contains_rev(f, able[chosen]);
    }
    assert forall|i: int| 0 <= i < nodes.len() && takes_pods(#[trigger] nodes[i], now) implies
        able.len() > 0 by {
        nodes.lemma_filter_contains(f, i);
    }
    if able.len() > 0 {
        nodes.lemma_filter_pred(f, 0);
        assert(able.contains(able[0]));
        nodes.lemma_filter_contains_rev(f, able[0]);
        let i = choose|i: int| 0 <= i < nodes.len() && nodes[i] == able[0];
        assert(takes_pods(nodes[i], now));
    }
}

/// Law: the choice is settled by the lists alone. Two indices that are both
/// the first least loaded are one.
pub proof fn choice_is_unique(
    candidates: Seq<NodeView>,
    pods: Seq<PodView>,
    i: int,
    j: int,
)
    requires
        is_first_least(candidates, pods, i),
        is_first_least(candidates, pods, j),
    ensures
        i == j,
{
    if i < j {
        assert(load_of(pods, candidates[j].metadata.name) < load_of(
            pods,
            candidates[i].metadata.name,
        ));
    } else if j < i {
        assert(load_of(pods, candidates[i].metadata.name) < load_of(
            pods,
            candidates[j].metadata.name,
        ));
    }
}

/// The places in a list at which there is a Pod that is bound to a node.
pub open spec fn places_bound_to(pods: Seq<PodView>, node: Seq<char>) -> Set<int> {
    Set::new(|i: int| 0 <= i < pods.len() && pods[i].spec.node_name == Some(node))
}

/// Law: the load of a node is the number of Pods that are bound to it, whatever
/// else they hold: none where there are no Pods, one more with each Pod that is
/// bound to it, and the same with any other.
pub proof fn load_counts_bound_pods(pods: Seq<PodView>, more: PodView, node: Seq<char>)
    ensures
        load_of(Seq::empty(), node) == 0,
        load_of(pods.push(more), node) == load_of(pods, node) + if more.spec.node_name == Some(
            node,
        ) {
            1nat
        } else {
            0nat
        },
        places_bound_to(pods, node).finite(),
        load_of(pods, node) == places_bound_to(pods, node).len(),
{
    let there = |p: PodView| p.spec.node_name == Some(node);
    reveal(Seq::filter);
    assert(pods.push(more).drop_last() =~= pods);
    load_is_the_number_of_places(pods, node);
}

proof fn load_is_the_number_of_places(pods: Seq<PodView>, node: Seq<char>)
    ensures
        places_bound_to(pods, node).finite(),
        load_of(pods, node) == places_bound_to(pods, node).len(),
    decreases pods.len(),
{
    reveal(Seq::filter);
    let all = places_bound_to(pods, node);
    if pods.len() == 0 {
        assert(all =~= Set::empty());
    } else {
        let front = pods.drop_last();
        let n = front.len() as int;
        load_is_the_number_of_places(front, node);
        assert forall|i: int| 0 <= i < n implies front[i] == pods[i] by {}
        if pods.last().spec.node_name == Some(node) {
            assert(all =~= places_bound_to(front, node).insert(n));
        } else {
            assert(all =~= places_bound_to(front, node));
        }
    }
}

/// Law: once the Pods are counted, the Pod is bound to a node to which no more
/// Pods are bound than to any other that can take it, and to fewer than to any that
/// is listed before it.
pub proof fn the_least_loaded_node_is_bound(
    pod_name: Seq<char>,
    able: Seq<NodeView>,
    pods: Seq<PodView>,
    now: Timestamp,
    p: ProgressView<StageView>,
) -> (chosen: int)
    requires
        next_stage(pod_name, StageView::Scoring { able }, ReplyView::Pods(pods), now, p),
        able.len() > 0,
    ensures
        0 <= chosen < able.len(),
        p == ProgressView::Ask(
            RequestView::BindPod { name: pod_name, node: able[chosen].metadata.name },
            StageView::Binding,
        ),
        forall|j: int|
            0 <= j < able.len() ==> places_bound_to(pods, able[chosen].metadata.name).len()
                <= places_bound_to(pods, (#[trigger] able[j]).metadata.name).len(),
        forall|j: int|
            0 <= j < chosen ==> places_bound_to(pods, able[chosen].metadata.name).len()
                < places_bound_to(pods, (#[trigger] able[j]).metadata.name).len(),
{
    let chosen = choose|i: int| #[trigger]
        is_first_least(able, pods, i) && p == bound(pod_name, able[i]);
    load_is_the_number_of_places(pods, able[chosen].metadata.name);
    assert forall|j: int| 0 <= j < able.len() implies load_of(
        pods,
        (#[trigger] able[j]).metadata.name,
    ) == places_bound_to(pods, able[j].metadata.name).len() by {
        load_is_the_number_of_places(pods, able[j].metadata.name);
    }
    chosen
}

/// Law: a node takes Pods if and only if it is not cordoned off, has reported that
/// it is ready, and did so less than thirty seconds ago.
pub proof fn able_nodes_are_ready(n: NodeView, now: Timestamp)
    ensures
        takes_pods(n, now) == (match n.status {
            Some(s) => !n.spec.unschedulable && s.ready && match s.last_heartbeat_time {
                Some(text) => match clock::rfc3339_timestamp(text) {
                    Some(at) => match clock::elapsed(now, at) {
                        Some(secs) => secs < 30,
                        None => false,
                    },
                    None => false,
                },
                None => false,
            },
            None => false,
        }),
{
}

/// Law: with the nodes listed, the Pods are counted next on just those that take
/// Pods, each once and in their order; where there is none the attempt fails.
pub proof fn nodes_are_judged_one_by_one(nodes: Seq<NodeView>, more: NodeView, now: Timestamp)
    ensures
        able_nodes(Seq::empty(), now).len() == 0,
        able_nodes(nodes.push(more), now) == if takes_pods(more, now) {
            able_nodes(nodes, now).push(more)
        } else {
            able_nodes(nodes, now)
        },
{
    reveal(Seq::filter);
    assert(nodes.push(more).drop_last() =~= nodes);
}

/// Law: a Pod that is gone or has a node is left alone; one that has none leads to
/// a look at the nodes, at the time of which they are judged, and from there to a
/// look at the Pods. Only where no node takes Pods, or a request fails, does the
/// attempt end in an error.
pub proof fn unplaced_pods_are_placed(
    pod_name: Seq<char>,
    pod: Option<PodView>,
    nodes: Seq<NodeView>,
    seen: Timestamp,
    now: Timestamp,
    first: ProgressView<StageView>,
    second: ProgressView<StageView>,
)
    requires
        next_stage(pod_name, StageView::Reading, ReplyView::Pod(pod), now, first),
        next_stage(
            pod_name,
            StageView::Filtering { now: seen },
            ReplyView::Nodes(nodes),
            now,
            second,
        ),
    ensures
        (pod matches Some(p) && p.spec.node_name is None) ==> first == ProgressView::Ask(
            RequestView::ListNodes,
            StageView::Filtering { now },
        ),
        !(pod matches Some(p) && p.spec.node_name is None) ==> first is Finished,
        (exists|i: int| 0 <= i < nodes.len() && takes_pods(#[trigger] nodes[i], seen)) ==> second
            == ProgressView::Ask(
            RequestView::ListPods,
            StageView::Scoring { able: nodes.filter(|n: NodeView| takes_pods(n, seen)) },
        ),
        !(exists|i: int| 0 <= i < nodes.len() && takes_pods(#[trigger] nodes[i], seen)) ==> second
            == ProgressView::<StageView>::Aborted("no Ready node available for pod "@ + pod_name),
{
    placed_on_able_nodes(nodes, Seq::empty(), seen, 0);
    assert(nodes.filter(|n: NodeView| takes_pods(n, seen)) =~= able_nodes(nodes, seen));
}

/// The places in a list at which there is a Pod that is bound to a node.
pub open spec fn bound_there(pods: Seq<Pod>, node: Seq<char>) -> Set<int> {
    Set::new(
        |i: int|
            0 <= i < pods.len() && pods[i].spec.node_name is Some && pods[i].spec.node_name->0@
                == node,
    )
}

/// Law: of the nodes it is given, the scheduler picks one to which no more Pods are
/// bound than to any other, the first such one; it picks none only where there is
/// none.
pub proof fn the_first_least_loaded_is_picked(
    nodes: Vec<Node>,
    pods: Vec<Pod>,
    chosen: Option<usize>,
    j: int,
)
    requires
        call_ensures(least_loaded, (&nodes, &pods), chosen),
        0 <= j < nodes@.len(),
    ensures
        chosen matches Some(i) && {
            let here = bound_there(pods@, nodes@[i as int].metadata.name@).len();
            let there = bound_there(pods@, nodes@[j].metadata.name@).len();
            i < nodes@.len() && here <= there && (j < i ==> here < there)
        },
{
    let all = nodes.deep_view();
    assert(all[j] == nodes@[j].deep_view());
    if let Some(i) = chosen {
        assert(all[i as int] == nodes@[i as int].deep_view());
        load_is_the_number_of_places(pods.deep_view(), all[i as int].metadata.name);
        same_places(pods, all[i as int].metadata.name);
    }
    load_is_the_number_of_places(pods.deep_view(), all[j].metadata.name);
    same_places(pods, all[j].metadata.name);
}

proof fn same_places(pods: Vec<Pod>, node: Seq<char>)
    ensures
        bound_there(pods@, node) == places_bound_to(pods.deep_view(), node),
{
    let all = pods.deep_view();
    assert forall|i: int| bound_there(pods@, node).contains(i) == places_bound_to(
        all,
        node,
    ).contains(i) by {
        if 0 <= i < pods@.len() {
            assert(all[i] == pods@[i].deep_view());
        }
    }
    assert(bound_there(pods@, node) =~= places_bound_to(all, node));
}

/// Law: a node can be given Pods only if it is not cordoned off and has reported
/// ready at a time that can be read and lies less than thirty seconds back; and if
/// all of that holds, it can.
pub proof fn schedulable_nodes_are_ready(node: Node, now: Timestamp, r: bool)
    requires
        call_ensures(is_schedulable, (&node, now), r),
    ensures
        r == (!node.spec.unschedulable && match node.status {
            Some(s) => s.ready && match s.last_heartbeat_time {
                Some(text) => match clock::rfc3339_timestamp(text@) {
                    Some(at) => match clock::elapsed(now, at) {
                        Some(secs) => secs < 30,
                        None => false,
                    },
                    None => false,
                },
                None => false,
            },
            None => false,
        }),
{
}


/// Law: placing a Pod reads it, and goes on exactly where it is there and has no
/// node; then the nodes are read, and it is given up where none can take it;
/// then the Pods, and it is bound to a node that could take it and has no more
/// of them than any other. What fails on the way ends it with its error.
pub proof fn pods_are_placed_step_by_step(
    pod_name: &str,
    first: Progress<Stage>,
    stage: Stage,
    reply: Reply,
    now: Timestamp,
    p: Progress<Stage>,
)
    requires
        call_ensures(start, (pod_name,), first),
        call_ensures(schedule, (pod_name, stage, reply, now), p),
    ensures
        match first {
            Progress::Ask(Request::GetPod(name), Stage::Reading) => name@ == pod_name@,
            _ => false,
        },
        match (stage, reply) {
            (Stage::Reading, Reply::Pod(pod)) => if pod is Some && pod->0.spec.node_name is None {
                match p {
                    Progress::Ask(Request::ListNodes, Stage::Filtering { now: at }) => at == now,
                    _ => false,
                }
            } else {
                p is Finished
            },
            (Stage::Filtering { now: at }, Reply::Nodes(nodes)) => if able_nodes(
                nodes.deep_view(),
                at,
            ).len() == 0 {
                match p {
                    Progress::Aborted(m) => m@ == "no Ready node available for pod "@ + pod_name@,
                    _ => false,
                }
            } else {
                match p {
                    Progress::Ask(Request::ListPods, Stage::Scoring { able }) => able.deep_view()
                        == able_nodes(nodes.deep_view(), at),
                    _ => false,
                }
            },
            (Stage::Scoring { able }, Reply::Pods(pods)) => able@.len() > 0 ==> match p {
                Progress::Ask(Request::BindPod { name, node }, Stage::Binding) => name@ == pod_name@
                    && exists|k: int|
                    0 <= k < able@.len() && (#[trigger] able@[k]).metadata.name@ == node@
                        && forall|j: int|
                        0 <= j < able@.len() ==> places_bound_to(pods.deep_view(), node@).len()
                            <= places_bound_to(
                            pods.deep_view(),
                            (#[trigger] able@[j]).metadata.name@,
                        ).len(),
                _ => false,
            },
            (Stage::Binding, Reply::Failed(e)) => match p {
                Progress::Aborted(m) => m@ == e@,
                _ => false,
            },
            (Stage::Binding, _) => p is Finished,
            (_, Reply::Failed(e)) => match p {
                Progress::Aborted(m) => m@ == e@,
                _ => false,
            },
            _ => true,
        },
{
    match (stage, reply) {
        (Stage::Scoring { able }, Reply::Pods(pods)) => {
            if able@.len() > 0 {
                let all = able.deep_view();
                assert(all.len() == able@.len());
                let k = the_least_loaded_node_is_bound(
                    pod_name@,
                    all,
                    pods.deep_view(),
                    now,
                    p.deep_view(),
                );
                assert(all[k] == able@[k].deep_view());
                assert forall|j: int| 0 <= j < able@.len() implies places_bound_to(
                    pods.deep_view(),
                    able@[k].metadata.name@,
                ).len() <= places_bound_to(
                    pods.deep_view(),
                    (#[trigger] able@[j]).metadata.name@,
                ).len() by {
                    assert(all[j] == able@[j].deep_view());
                }
            }
        },
        _ => {},
    }
}

} // verus!
