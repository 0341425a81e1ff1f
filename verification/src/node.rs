//! Nodes: machines that can run pods. Each kubelet registers its node and
//! reports its status; the scheduler only places pods onto nodes that are ready
//! and have reported recently.

use vstd::prelude::*;

use crate::clock;
use crate::clock::Timestamp;
use crate::duplicate::Duplicate;
use crate::meta::{MetaView, ObjectMeta, ResourceMeta};

verus! {

/// A machine that runs pods.
#[derive(Debug, Clone, PartialEq)]
pub struct Node {
    pub api_version: String,
    pub kind: String,
    pub metadata: ObjectMeta,
    pub spec: NodeSpec,
    pub status: Option<NodeStatus>,
}

/// What a `Node` holds.
#[verifier::ext_equal]
pub struct NodeView {
    pub api_version: Seq<char>,
    pub kind: Seq<char>,
    pub metadata: MetaView,
    pub spec: NodeSpecView,
    pub status: Option<NodeStatusView>,
}

impl DeepView for Node {
    type V = NodeView;

    open spec fn deep_view(&self) -> NodeView {
        NodeView {
            api_version: self.api_version@,
            kind: self.kind@,
            metadata: self.metadata.deep_view(),
            spec: self.spec.deep_view(),
            status: self.status.deep_view(),
        }
    }
}

impl Duplicate for Node {
    fn duplicate(&self) -> (copy: Self) {
        Node {
            api_version: self.api_version.clone(),
            kind: self.kind.clone(),
            metadata: self.metadata.duplicate(),
            spec: self.spec.duplicate(),
            status: self.status.duplicate(),
        }
    }
}

/// What the cluster has decided about a node.
#[derive(Debug, Clone, PartialEq)]
pub struct NodeSpec {
    /// If true, the scheduler skips this node.
    pub unschedulable: bool,
    /// The slice of the pod address range that the node hands out,
    /// assigned by the API server on registration.
    pub pod_cidr: Option<String>,
}

/// What a `NodeSpec` holds.
#[verifier::ext_equal]
pub struct NodeSpecView {
    pub unschedulable: bool,
    pub pod_cidr: Option<Seq<char>>,
}

impl DeepView for NodeSpec {
    type V = NodeSpecView;

    open spec fn deep_view(&self) -> NodeSpecView {
        NodeSpecView {
            unschedulable: self.unschedulable,
            pod_cidr: self.pod_cidr.deep_view(),
        }
    }
}

impl Duplicate for NodeSpec {
    fn duplicate(&self) -> (copy: Self) {
        NodeSpec {
            unschedulable: self.unschedulable,
            pod_cidr: self.pod_cidr.duplicate(),
        }
    }
}

/// What the kubelet has reported.
#[derive(Debug, Clone, PartialEq)]
pub struct NodeStatus {
    pub ready: bool,
    /// RFC 3339 time of the kubelet's last report.
    pub last_heartbeat_time: Option<String>,
}

/// What a `NodeStatus` holds.
#[verifier::ext_equal]
pub struct NodeStatusView {
    pub ready: bool,
    pub last_heartbeat_time: Option<Seq<char>>,
}

impl DeepView for NodeStatus {
    type V = NodeStatusView;

    open spec fn deep_view(&self) -> NodeStatusView {
        NodeStatusView {
            ready: self.ready,
            last_heartbeat_time: self.last_heartbeat_time.deep_view(),
        }
    }
}

impl Duplicate for NodeStatus {
    fn duplicate(&self) -> (copy: Self) {
        NodeStatus {
            ready: self.ready,
            last_heartbeat_time: self.last_heartbeat_time.duplicate(),
        }
    }
}

impl Default for NodeSpec {
    fn default() -> (spec: Self)
        ensures
            spec.deep_view() == (NodeSpecView { unschedulable: false, pod_cidr: None }),
    {
        NodeSpec { unschedulable: false, pod_cidr: None }
    }
}

impl Default for NodeStatus {
    fn default() -> (status: Self)
        ensures
            status.deep_view() == (NodeStatusView { ready: false, last_heartbeat_time: None }),
    {
        NodeStatus { ready: false, last_heartbeat_time: None }
    }
}

impl ResourceMeta for Node {
    open spec fn prefix() -> Seq<char> {
        "nodes/"@
    }

    open spec fn meta_of(v: NodeView) -> MetaView {
        v.metadata
    }

    open spec fn with_meta(v: NodeView, m: MetaView) -> NodeView {
        NodeView { metadata: m, ..v }
    }

    open spec fn without_status(v: NodeView) -> NodeView {
        NodeView { status: None, ..v }
    }

    open spec fn with_status_of(v: NodeView, current: NodeView) -> NodeView {
        NodeView { status: current.status, ..v }
    }

    proof fn parts_are_independent(v: NodeView, m: MetaView, current: NodeView) {
    }

    fn kind_prefix() -> (prefix: &'static str) {
        "nodes/"
    }

    fn meta(&self) -> (meta: &ObjectMeta) {
        &self.metadata
    }

    fn meta_mut(&mut self) -> (meta: &mut ObjectMeta) {
        &mut self.metadata
    }

    fn clear_status(&mut self) {
        self.status = None;
    }

    fn inherit_status(&mut self, current: &Self) {
        self.status = current.status.duplicate();
    }
}

/// Whether a report of an age, if that is known, is recent enough.
pub open spec fn is_fresh(age: Option<i64>, max_age_secs: i64) -> bool {
    match age {
        Some(secs) => secs < max_age_secs,
        None => false,
    }
}

/// The time of the last report, if the node is ready and the time can be
/// read.
pub open spec fn reported_at(node: NodeView) -> Option<Timestamp> {
    match node.status {
        Some(status) => if status.ready {
            match status.last_heartbeat_time {
                Some(text) => clock::rfc3339_timestamp(text),
                None => None,
            }
        } else {
            None
        },
        None => None,
    }
}

/// How long ago that was, in seconds.
pub open spec fn report_age(node: NodeView, now: Timestamp) -> Option<i64> {
    match reported_at(node) {
        Some(at) => clock::elapsed(now, at),
        None => None,
    }
}

/// Whether a report of an age, if that is known, is recent enough.
pub fn fresh(age: Option<i64>, max_age_secs: i64) -> (r: bool)
    ensures
        r == is_fresh(age, max_age_secs),
{
    match age {
        Some(secs) => secs < max_age_secs,
        None => false,
    }
}

impl Node {
    /// Effective readiness: the kubelet reported ready and its report is
    /// recent. A dead kubelet leaves `ready` set for ever, so the time of the
    /// report is what says that the node is alive. A missing or unreadable
    /// time means not ready.
    pub fn is_ready(&self, now: Timestamp, max_age_secs: i64) -> (r: bool)
        ensures
            r == is_fresh(report_age(self.deep_view(), now), max_age_secs),
    {
        match &self.status {
            Some(status) => if status.ready {
                match &status.last_heartbeat_time {
                    Some(text) => match clock::parse_rfc3339(text.as_str()) {
                        Some(at) => fresh(clock::seconds_between(now, at), max_age_secs),
                        None => false,
                    },
                    None => false,
                }
            } else {
                false
            },
            None => false,
        }
    }
}

/// Law: a node that is ready stays so for a longer window, and one that has not
/// reported ready never is.
pub proof fn readiness_needs_a_fresh_report(
    node: NodeView,
    now: Timestamp,
    max_age_secs: i64,
    longer: i64,
)
    requires
        max_age_secs <= longer,
    ensures
        is_fresh(report_age(node, now), max_age_secs) ==> is_fresh(report_age(node, now), longer),
        node.status is None ==> !is_fresh(report_age(node, now), max_age_secs),
        node.status matches Some(s) && !s.ready ==> !is_fresh(report_age(node, now), max_age_secs),
        node.status matches Some(s) && s.last_heartbeat_time is None ==> !is_fresh(
            report_age(node, now),
            max_age_secs,
        ),
{
}


/// Law: a node that did not report ready, or not when, is not ready. One that
/// did is ready exactly as long as its report is younger than it may be.
pub proof fn reports_keep_nodes_ready(
    n: &Node,
    now: Timestamp,
    max_age_secs: i64,
    r: bool,
    at: Option<Timestamp>,
    age: Option<i64>,
)
    requires
        call_ensures(Node::is_ready, (n, now, max_age_secs), r),
        n.status is Some && n.status->0.last_heartbeat_time is Some ==> (exists|text: &str|
            text@ == n.status->0.last_heartbeat_time->0@ && #[trigger] call_ensures(
                clock::parse_rfc3339,
                (text,),
                at,
            )),
        at is Some ==> call_ensures(clock::seconds_between, (now, at->0), age),
    ensures
        n.status is None ==> !r,
        n.status is Some && !n.status->0.ready ==> !r,
        n.status is Some && n.status->0.last_heartbeat_time is None ==> !r,
        n.status is Some && n.status->0.ready && n.status->0.last_heartbeat_time is Some ==> (r
            <==> at is Some && age is Some && age->0 < max_age_secs),
{
}

} // verus!
