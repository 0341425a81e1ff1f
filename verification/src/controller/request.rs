//! What a controller asks of the API server, one request at a time, and what
//! it is told. A controller's round is a machine from reply to request: it
//! makes no call itself.

use vstd::prelude::*;

use crate::endpoints::{Endpoints, EndpointsView};
use crate::node::{Node, NodeView};
use crate::pod::{Pod, PodView};
use crate::replicaset::{ReplicaSet, ReplicaSetStatus, ReplicaSetView};
use crate::service::{Service, ServiceView};

verus! {

/// One call to the API server.
#[derive(Debug, Clone, PartialEq)]
pub enum Request {
    GetPod(String),
    ListPods,
    CreatePod(Pod),
    ReplacePodSpec(Pod),
    DeletePod { name: String, rv: String },
    BindPod { name: String, node: String },
    GetReplicaSet(String),
    ReplaceReplicaSetStatus { name: String, status: ReplicaSetStatus, rv: String },
    ListNodes,
    GetService(String),
    GetEndpoints(String),
    CreateEndpoints(Endpoints),
    ReplaceEndpoints(Endpoints),
    DeleteEndpoints { name: String, rv: String },
}

/// What a `Request` holds.
#[verifier::ext_equal]
pub enum RequestView {
    GetPod(Seq<char>),
    ListPods,
    CreatePod(PodView),
    ReplacePodSpec(PodView),
    DeletePod { name: Seq<char>, rv: Seq<char> },
    BindPod { name: Seq<char>, node: Seq<char> },
    GetReplicaSet(Seq<char>),
    ReplaceReplicaSetStatus { name: Seq<char>, status: ReplicaSetStatus, rv: Seq<char> },
    ListNodes,
    GetService(Seq<char>),
    GetEndpoints(Seq<char>),
    CreateEndpoints(EndpointsView),
    ReplaceEndpoints(EndpointsView),
    DeleteEndpoints { name: Seq<char>, rv: Seq<char> },
}

impl DeepView for Request {
    type V = RequestView;

    open spec fn deep_view(&self) -> RequestView {
        match self {
            Request::GetPod(name) => RequestView::GetPod(name@),
            Request::ListPods => RequestView::ListPods,
            Request::CreatePod(p) => RequestView::CreatePod(p.deep_view()),
            Request::ReplacePodSpec(p) => RequestView::ReplacePodSpec(p.deep_view()),
            Request::DeletePod { name, rv } => RequestView::DeletePod { name: name@, rv: rv@ },
            Request::BindPod { name, node } => RequestView::BindPod { name: name@, node: node@ },
            Request::GetReplicaSet(name) => RequestView::GetReplicaSet(name@),
            Request::ReplaceReplicaSetStatus {
                name,
                status,
                rv,
            } => RequestView::ReplaceReplicaSetStatus { name: name@, status: *status, rv: rv@ },
            Request::ListNodes => RequestView::ListNodes,
            Request::GetService(name) => RequestView::GetService(name@),
            Request::GetEndpoints(name) => RequestView::GetEndpoints(name@),
            Request::CreateEndpoints(e) => RequestView::CreateEndpoints(e.deep_view()),
            Request::ReplaceEndpoints(e) => RequestView::ReplaceEndpoints(e.deep_view()),
            Request::DeleteEndpoints { name, rv } => RequestView::DeleteEndpoints {
                name: name@,
                rv: rv@,
            },
        }
    }
}

impl RequestView {
    /// Whether a request changes anything.
    pub open spec fn is_write(self) -> bool {
        !(self is GetPod || self is ListPods || self is GetReplicaSet || self is ListNodes
            || self is GetService || self is GetEndpoints)
    }
}

/// What the API server answered. What does not exist is none, not a failure.
#[derive(Debug, Clone, PartialEq)]
pub enum Reply {
    Pod(Option<Pod>),
    Pods(Vec<Pod>),
    ReplicaSet(Option<ReplicaSet>),
    Nodes(Vec<Node>),
    Service(Option<Service>),
    Endpoints(Option<Endpoints>),
    /// Done, with nothing to show for it.
    Done,
    /// The words of the error.
    Failed(String),
}

/// What a `Reply` holds.
#[verifier::ext_equal]
pub enum ReplyView {
    Pod(Option<PodView>),
    Pods(Seq<PodView>),
    ReplicaSet(Option<ReplicaSetView>),
    Nodes(Seq<NodeView>),
    Service(Option<ServiceView>),
    Endpoints(Option<EndpointsView>),
    Done,
    Failed(Seq<char>),
}

impl DeepView for Reply {
    type V = ReplyView;

    open spec fn deep_view(&self) -> ReplyView {
        match self {
            Reply::Pod(p) => ReplyView::Pod(p.deep_view()),
            Reply::Pods(ps) => ReplyView::Pods(ps.deep_view()),
            Reply::ReplicaSet(rs) => ReplyView::ReplicaSet(rs.deep_view()),
            Reply::Nodes(ns) => ReplyView::Nodes(ns.deep_view()),
            Reply::Service(s) => ReplyView::Service(s.deep_view()),
            Reply::Endpoints(e) => ReplyView::Endpoints(e.deep_view()),
            Reply::Done => ReplyView::Done,
            Reply::Failed(e) => ReplyView::Failed(e@),
        }
    }
}

/// How a round goes on: with a request, at the stage in which its reply is
/// awaited, or not at all.
#[derive(Debug, PartialEq)]
pub enum Progress<S> {
    Ask(Request, S),
    /// The round has ended. With an error, it is tried again later.
    Finished,
    Aborted(String),
}

/// What a `Progress` holds.
#[verifier::ext_equal]
pub enum ProgressView<V> {
    Ask(RequestView, V),
    Finished,
    Aborted(Seq<char>),
}

impl<S: DeepView> DeepView for Progress<S> {
    type V = ProgressView<S::V>;

    open spec fn deep_view(&self) -> ProgressView<S::V> {
        match self {
            Progress::Ask(request, stage) => ProgressView::Ask(
                request.deep_view(),
                stage.deep_view(),
            ),
            Progress::Finished => ProgressView::Finished,
            Progress::Aborted(e) => ProgressView::Aborted(e@),
        }
    }
}

/// The error with which a round ends: the reply's own, or that the reply is
/// none to the request.
pub open spec fn broken_off(reply: ReplyView) -> Seq<char> {
    match reply {
        ReplyView::Failed(e) => e,
        _ => "unexpected reply"@,
    }
}

pub fn break_off(reply: Reply) -> (e: String)
    ensures
        e@ == broken_off(reply.deep_view()),
{
    match reply {
        Reply::Failed(e) => e,
        _ => "unexpected reply".to_owned(),
    }
}

} // verus!
