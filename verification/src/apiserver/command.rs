//! The replicated store's command language. Every change becomes one command
//! in a log entry; every replica applies the same commands in the same order
//! and so comes to the same stores.

use vstd::prelude::*;

use crate::endpoints::{Endpoints, EndpointsView};
use crate::meta::ResourceMeta;
use crate::node::{Node, NodeStatus, NodeStatusView, NodeView};
use crate::pod::{Pod, PodStatus, PodStatusView, PodView};
use crate::replicaset::{ReplicaSet, ReplicaSetStatus, ReplicaSetView};
use crate::service::{Service, ServiceView};
use crate::text;

verus! {

/// One change of an object of one kind. An object arrives as it was decoded
/// from the log, or as the words of the error that kept it from being
/// decoded; a status that could not be decoded is none.
#[derive(Debug, PartialEq)]
pub enum Op<T, S> {
    /// The object has its identity and time: applying a command never draws a
    /// random number or reads a clock.
    Create { obj: Result<T, String> },
    ReplaceSpec { name: String, obj: Result<T, String> },
    ReplaceStatus { name: String, rv: String, status: Option<S> },
    Delete { name: String, rv: String },
}

/// What an `Op` holds.
#[verifier::ext_equal]
pub enum OpView<V, S> {
    Create { obj: Result<V, Seq<char>> },
    ReplaceSpec { name: Seq<char>, obj: Result<V, Seq<char>> },
    ReplaceStatus { name: Seq<char>, rv: Seq<char>, status: Option<S> },
    Delete { name: Seq<char>, rv: Seq<char> },
}

pub open spec fn decoded<T: DeepView>(r: Result<T, String>) -> Result<T::V, Seq<char>> {
    match r {
        Ok(o) => Ok(o.deep_view()),
        Err(e) => Err(e@),
    }
}

impl<T: DeepView, S: DeepView> DeepView for Op<T, S> {
    type V = OpView<T::V, S::V>;

    open spec fn deep_view(&self) -> OpView<T::V, S::V> {
        match self {
            Op::Create { obj } => OpView::Create { obj: decoded(*obj) },
            Op::ReplaceSpec { name, obj } => OpView::ReplaceSpec { name: name@, obj: decoded(*obj) },
            Op::ReplaceStatus { name, rv, status } => OpView::ReplaceStatus {
                name: name@,
                rv: rv@,
                status: status.deep_view(),
            },
            Op::Delete { name, rv } => OpView::Delete { name: name@, rv: rv@ },
        }
    }
}

/// The kinds of objects that are stored.
#[derive(Debug, Clone, Copy, PartialEq, Eq, Structural)]
pub enum Kind {
    Pods,
    ReplicaSets,
    Nodes,
    Services,
    Endpoints,
}

impl Kind {
    /// The key prefix of a kind.
    pub open spec fn prefix(self) -> Seq<char> {
        match self {
            Kind::Pods => <Pod as ResourceMeta>::prefix(),
            Kind::ReplicaSets => <ReplicaSet as ResourceMeta>::prefix(),
            Kind::Nodes => <Node as ResourceMeta>::prefix(),
            Kind::Services => <Service as ResourceMeta>::prefix(),
            Kind::Endpoints => <Endpoints as ResourceMeta>::prefix(),
        }
    }

    /// The kind with a key prefix, if there is one.
    pub fn parse(prefix: &str) -> (kind: Option<Kind>)
        ensures
            match kind {
                Some(k) => k.prefix() == prefix@,
                None => forall|k: Kind| #[trigger] k.prefix() != prefix@,
            },
    {
        if text::same(prefix, Pod::kind_prefix()) {
            Some(Kind::Pods)
        } else if text::same(prefix, ReplicaSet::kind_prefix()) {
            Some(Kind::ReplicaSets)
        } else if text::same(prefix, Node::kind_prefix()) {
            Some(Kind::Nodes)
        } else if text::same(prefix, Service::kind_prefix()) {
            Some(Kind::Services)
        } else if text::same(prefix, Endpoints::kind_prefix()) {
            Some(Kind::Endpoints)
        } else {
            None
        }
    }
}

/// A change of an object of some kind.
#[derive(Debug, PartialEq)]
pub enum KindOp {
    Pods(Op<Pod, PodStatus>),
    ReplicaSets(Op<ReplicaSet, ReplicaSetStatus>),
    Nodes(Op<Node, NodeStatus>),
    Services(Op<Service, ()>),
    Endpoints(Op<Endpoints, ()>),
    /// A kind that there is no store for, by its prefix.
    Unknown(String),
}

/// What a `KindOp` holds.
#[verifier::ext_equal]
pub enum KindOpView {
    Pods(OpView<PodView, PodStatusView>),
    ReplicaSets(OpView<ReplicaSetView, ReplicaSetStatus>),
    Nodes(OpView<NodeView, NodeStatusView>),
    Services(OpView<ServiceView, ()>),
    Endpoints(OpView<EndpointsView, ()>),
    Unknown(Seq<char>),
}

impl DeepView for KindOp {
    type V = KindOpView;

    open spec fn deep_view(&self) -> KindOpView {
        match self {
            KindOp::Pods(op) => KindOpView::Pods(op.deep_view()),
            KindOp::ReplicaSets(op) => KindOpView::ReplicaSets(op.deep_view()),
            KindOp::Nodes(op) => KindOpView::Nodes(op.deep_view()),
            KindOp::Services(op) => KindOpView::Services(op.deep_view()),
            KindOp::Endpoints(op) => KindOpView::Endpoints(op.deep_view()),
            KindOp::Unknown(kind) => KindOpView::Unknown(kind@),
        }
    }
}

#[derive(Debug, PartialEq)]
pub struct StoreCommand {
    /// Ties a proposer's request to the outcome of its command. Replicas that
    /// did not propose it ignore it.
    pub id: u128,
    pub op: KindOp,
}

/// An object of some kind.
#[derive(Debug, Clone, PartialEq)]
pub enum Object {
    Pod(Pod),
    ReplicaSet(ReplicaSet),
    Node(Node),
    Service(Service),
    Endpoints(Endpoints),
}

/// What an `Object` holds.
#[verifier::ext_equal]
pub enum ObjectView {
    Pod(PodView),
    ReplicaSet(ReplicaSetView),
    Node(NodeView),
    Service(ServiceView),
    Endpoints(EndpointsView),
}

impl DeepView for Object {
    type V = ObjectView;

    open spec fn deep_view(&self) -> ObjectView {
        match self {
            Object::Pod(o) => ObjectView::Pod(o.deep_view()),
            Object::ReplicaSet(o) => ObjectView::ReplicaSet(o.deep_view()),
            Object::Node(o) => ObjectView::Node(o.deep_view()),
            Object::Service(o) => ObjectView::Service(o.deep_view()),
            Object::Endpoints(o) => ObjectView::Endpoints(o.deep_view()),
        }
    }
}

/// The verdict that every replica reaches on its own.
#[derive(Debug, Clone, PartialEq)]
pub enum ApplyOutcome {
    /// The resulting object.
    Done(Object),
    NotFound(String),
    AlreadyExists(String),
    Conflict { current: String, provided: String },
    Internal(String),
}

/// What an `ApplyOutcome` holds.
#[verifier::ext_equal]
pub enum ApplyOutcomeView {
    Done(ObjectView),
    NotFound(Seq<char>),
    AlreadyExists(Seq<char>),
    Conflict { current: Seq<char>, provided: Seq<char> },
    Internal(Seq<char>),
}

impl DeepView for ApplyOutcome {
    type V = ApplyOutcomeView;

    open spec fn deep_view(&self) -> ApplyOutcomeView {
        match self {
            ApplyOutcome::Done(o) => ApplyOutcomeView::Done(o.deep_view()),
            ApplyOutcome::NotFound(n) => ApplyOutcomeView::NotFound(n@),
            ApplyOutcome::AlreadyExists(n) => ApplyOutcomeView::AlreadyExists(n@),
            ApplyOutcome::Conflict { current, provided } => ApplyOutcomeView::Conflict {
                current: current@,
                provided: provided@,
            },
            ApplyOutcome::Internal(m) => ApplyOutcomeView::Internal(m@),
        }
    }
}

} // verus!
