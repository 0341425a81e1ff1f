//! The replicated state machine: applies committed commands to the stores, in
//! log order. It uses only the command and the stores, so that every replica
//! that is fed the same commands comes to the same stores.

use vstd::prelude::*;

use crate::apiserver::command::{
    ApplyOutcome, ApplyOutcomeView, KindOp, KindOpView, Object, ObjectView, Op, OpView,
    StoreCommand,
};
use crate::apiserver::storage;
use crate::apiserver::storage::{
    Db, PodStore, ResourceStore, StoreError, StoreErrorView, StoreView,
};
use crate::duplicate::Duplicate;
use crate::endpoints::{Endpoints, EndpointsView};
use crate::meta::ResourceMeta;
use crate::node::{Node, NodeStatus, NodeStatusView, NodeView};
use crate::pod::{Pod, PodStatus, PodStatusView, PodView};
use crate::replicaset::{ReplicaSet, ReplicaSetStatus, ReplicaSetView};
use crate::service::{Service, ServiceView};

verus! {

/// A kind with a status of its own, or with none to set.
pub trait WithStatus: ResourceMeta {
    type Status: DeepView;

    /// The object with another status.
    spec fn status_set(v: Self::V, status: <Self::Status as DeepView>::V) -> Self::V;

    fn set_status(&mut self, status: &Self::Status)
        ensures
            final(self).deep_view() == Self::status_set(
                old(self).deep_view(),
                status.deep_view(),
            ),
    ;

    /// An object of the kind, as an object of some kind.
    spec fn wrapped(v: Self::V) -> ObjectView;

    fn wrap(self) -> (o: Object)
        ensures
            o.deep_view() == Self::wrapped(self.deep_view()),
    ;
}

impl WithStatus for Pod {
    type Status = PodStatus;

    open spec fn status_set(v: PodView, status: PodStatusView) -> PodView {
        PodView { status: Some(status), ..v }
    }

    fn set_status(&mut self, status: &PodStatus) {
        self.status = Some(status.duplicate());
    }

    open spec fn wrapped(v: PodView) -> ObjectView {
        ObjectView::Pod(v)
    }

    fn wrap(self) -> (o: Object) {
        Object::Pod(self)
    }
}

impl DeepView for ReplicaSetStatus {
    type V = ReplicaSetStatus;

    open spec fn deep_view(&self) -> ReplicaSetStatus {
        *self
    }
}

impl WithStatus for ReplicaSet {
    type Status = ReplicaSetStatus;

    open spec fn status_set(v: ReplicaSetView, status: ReplicaSetStatus) -> ReplicaSetView {
        ReplicaSetView { status: Some(status), ..v }
    }

    fn set_status(&mut self, status: &ReplicaSetStatus) {
        self.status = Some(*status);
    }

    open spec fn wrapped(v: ReplicaSetView) -> ObjectView {
        ObjectView::ReplicaSet(v)
    }

    fn wrap(self) -> (o: Object) {
        Object::ReplicaSet(self)
    }
}

impl WithStatus for Node {
    type Status = NodeStatus;

    open spec fn status_set(v: NodeView, status: NodeStatusView) -> NodeView {
        NodeView { status: Some(status), ..v }
    }

    fn set_status(&mut self, status: &NodeStatus) {
        self.status = Some(status.duplicate());
    }

    open spec fn wrapped(v: NodeView) -> ObjectView {
        ObjectView::Node(v)
    }

    fn wrap(self) -> (o: Object) {
        Object::Node(self)
    }
}

impl WithStatus for Service {
    type Status = ();

    open spec fn status_set(v: ServiceView, status: ()) -> ServiceView {
        v
    }

    fn set_status(&mut self, status: &()) {
    }

    open spec fn wrapped(v: ServiceView) -> ObjectView {
        ObjectView::Service(v)
    }

    fn wrap(self) -> (o: Object) {
        Object::Service(self)
    }
}

impl WithStatus for Endpoints {
    type Status = ();

    open spec fn status_set(v: EndpointsView, status: ()) -> EndpointsView {
        v
    }

    fn set_status(&mut self, status: &()) {
    }

    open spec fn wrapped(v: EndpointsView) -> ObjectView {
        ObjectView::Endpoints(v)
    }

    fn wrap(self) -> (o: Object) {
        Object::Endpoints(self)
    }
}

/// The verdict on what the store says.
pub open spec fn verdict<T: WithStatus>(r: Result<T::V, StoreErrorView>) -> ApplyOutcomeView {
    match r {
        Ok(v) => ApplyOutcomeView::Done(T::wrapped(v)),
        Err(StoreErrorView::NotFound(n)) => ApplyOutcomeView::NotFound(n),
        Err(StoreErrorView::AlreadyExists(n)) => ApplyOutcomeView::AlreadyExists(n),
        Err(StoreErrorView::Conflict { current, provided }) => ApplyOutcomeView::Conflict {
            current,
            provided,
        },
    }
}

/// What comes of one change of an object of one kind.
pub open spec fn op_applied<T: WithStatus>(
    s: StoreView<T::V>,
    db: Map<Seq<char>, u64>,
    op: OpView<T::V, <T::Status as DeepView>::V>,
) -> (StoreView<T::V>, Map<Seq<char>, u64>, ApplyOutcomeView) {
    match op {
        OpView::Create { obj } => match obj {
            Ok(o) => {
                let (s2, db2, r) = storage::created::<T>(s, db, o);
                (s2, db2, verdict::<T>(r))
            },
            Err(e) => (s, db, ApplyOutcomeView::Internal("bad create payload: "@ + e)),
        },
        OpView::ReplaceSpec { name, obj } => match obj {
            Ok(o) => {
                let (s2, db2, r) = storage::spec_replaced::<T>(s, db, name, o);
                (s2, db2, verdict::<T>(r))
            },
            Err(e) => (s, db, ApplyOutcomeView::Internal("bad replace payload: "@ + e)),
        },
        OpView::ReplaceStatus { name, rv, status } => {
            let current = s.objects[name];
            let changed = match status {
                Some(st) => T::status_set(current, st),
                None => current,
            };
            let (s2, db2, r) = storage::status_replaced::<T>(s, db, name, rv, changed);
            (s2, db2, verdict::<T>(r))
        },
        OpView::Delete { name, rv } => {
            let (s2, db2, r) = storage::deleted::<T>(s, db, name, rv);
            (s2, db2, verdict::<T>(r))
        },
    }
}

fn outcome<T: WithStatus>(result: Result<T, StoreError>) -> (out: ApplyOutcome)
    ensures
        out.deep_view() == verdict::<T>(storage::result_of(result)),
{
    match result {
        Ok(obj) => ApplyOutcome::Done(obj.wrap()),
        Err(StoreError::NotFound(n)) => ApplyOutcome::NotFound(n),
        Err(StoreError::AlreadyExists(n)) => ApplyOutcome::AlreadyExists(n),
        Err(StoreError::Conflict { current, provided }) => ApplyOutcome::Conflict {
            current,
            provided,
        },
    }
}

/// Applies one change to the store of its kind.
fn apply_op<T: WithStatus>(
    store: &mut ResourceStore<T>,
    db: &mut Db,
    op: Op<T, T::Status>,
) -> (out: ApplyOutcome)
    ensures
        (final(store)@, final(db)@, out.deep_view()) == op_applied::<T>(
            old(store)@,
            old(db)@,
            op.deep_view(),
        ),
{
    match op {
        Op::Create { obj } => match obj {
            Ok(o) => outcome(store.create_prestamped(db, o)),
            Err(e) => ApplyOutcome::Internal("bad create payload: ".to_owned().concat(e.as_str())),
        },
        Op::ReplaceSpec { name, obj } => match obj {
            Ok(o) => outcome(store.replace_spec(db, name.as_str(), o)),
            Err(e) => ApplyOutcome::Internal("bad replace payload: ".to_owned().concat(e.as_str())),
        },
        Op::ReplaceStatus { name, rv, status } => {
            let change = |t: T| -> (changed: T)
                ensures
                    changed.deep_view() == (match status.deep_view() {
                        Some(st) => T::status_set(t.deep_view(), st),
                        None => t.deep_view(),
                    }),
                {
                    let mut t = t;
                    if let Some(st) = &status {
                        t.set_status(st);
                    }
                    t
                };
            outcome(store.replace_status(db, name.as_str(), rv.as_str(), change))
        },
        Op::Delete { name, rv } => outcome(store.delete(db, name.as_str(), rv.as_str())),
    }
}

/// The stores of all kinds of one replica.
#[verifier::ext_equal]
pub struct ReplicaView {
    pub db: Map<Seq<char>, u64>,
    pub pods: StoreView<PodView>,
    pub replicasets: StoreView<ReplicaSetView>,
    pub nodes: StoreView<NodeView>,
    pub services: StoreView<ServiceView>,
    pub endpoints: StoreView<EndpointsView>,
}

/// What comes of one command.
pub open spec fn applied(r: ReplicaView, op: KindOpView) -> (ReplicaView, ApplyOutcomeView) {
    match op {
        KindOpView::Pods(op) => {
            let (pods, db, out) = op_applied::<Pod>(r.pods, r.db, op);
            (ReplicaView { pods, db, ..r }, out)
        },
        KindOpView::ReplicaSets(op) => {
            let (replicasets, db, out) = op_applied::<ReplicaSet>(r.replicasets, r.db, op);
            (ReplicaView { replicasets, db, ..r }, out)
        },
        KindOpView::Nodes(op) => {
            let (nodes, db, out) = op_applied::<Node>(r.nodes, r.db, op);
            (ReplicaView { nodes, db, ..r }, out)
        },
        KindOpView::Services(op) => {
            let (services, db, out) = op_applied::<Service>(r.services, r.db, op);
            (ReplicaView { services, db, ..r }, out)
        },
        KindOpView::Endpoints(op) => {
            let (endpoints, db, out) = op_applied::<Endpoints>(r.endpoints, r.db, op);
            (ReplicaView { endpoints, db, ..r }, out)
        },
        KindOpView::Unknown(kind) => (
            r,
            ApplyOutcomeView::Internal("unknown command kind: "@ + kind),
        ),
    }
}

/// The stores of all kinds, over one counter of writes.
pub struct Applier {
    pub db: Db,
    pub pods: PodStore,
    pub replicasets: ResourceStore<ReplicaSet>,
    pub nodes: ResourceStore<Node>,
    pub services: ResourceStore<Service>,
    pub endpoints: ResourceStore<Endpoints>,
}

impl View for Applier {
    type V = ReplicaView;

    open spec fn view(&self) -> ReplicaView {
        ReplicaView {
            db: self.db@,
            pods: self.pods@,
            replicasets: self.replicasets@,
            nodes: self.nodes@,
            services: self.services@,
            endpoints: self.endpoints@,
        }
    }
}

/// A replica with nothing stored.
pub open spec fn empty_replica() -> ReplicaView {
    ReplicaView {
        db: Map::empty(),
        pods: StoreView { objects: Map::empty(), events: Seq::empty() },
        replicasets: StoreView { objects: Map::empty(), events: Seq::empty() },
        nodes: StoreView { objects: Map::empty(), events: Seq::empty() },
        services: StoreView { objects: Map::empty(), events: Seq::empty() },
        endpoints: StoreView { objects: Map::empty(), events: Seq::empty() },
    }
}

impl Applier {
    pub fn new() -> (a: Self)
        ensures
            a@ == empty_replica(),
    {
        Applier {
            db: Db::new(),
            pods: ResourceStore::new(),
            replicasets: ResourceStore::new(),
            nodes: ResourceStore::new(),
            services: ResourceStore::new(),
            endpoints: ResourceStore::new(),
        }
    }

    /// Applies a command to the store of its kind.
    pub fn apply(&mut self, cmd: StoreCommand) -> (out: ApplyOutcome)
        ensures
            (final(self)@, out.deep_view()) == applied(old(self)@, cmd.op.deep_view()),
    {
        match cmd.op {
            KindOp::Pods(op) => apply_op(&mut self.pods, &mut self.db, op),
            KindOp::ReplicaSets(op) => apply_op(&mut self.replicasets, &mut self.db, op),
            KindOp::Nodes(op) => apply_op(&mut self.nodes, &mut self.db, op),
            KindOp::Services(op) => apply_op(&mut self.services, &mut self.db, op),
            KindOp::Endpoints(op) => apply_op(&mut self.endpoints, &mut self.db, op),
            KindOp::Unknown(kind) => ApplyOutcome::Internal(
                "unknown command kind: ".to_owned().concat(kind.as_str()),
            ),
        }
    }
}

/// The replica after a log of commands, and their outcomes.
pub open spec fn replayed(r: ReplicaView, log: Seq<KindOpView>) -> (
    ReplicaView,
    Seq<ApplyOutcomeView>,
)
    decreases log.len(),
{
    if log.len() == 0 {
        (r, Seq::empty())
    } else {
        let (before, outcomes) = replayed(r, log.drop_last());
        let (after, out) = applied(before, log.last());
        (after, outcomes.push(out))
    }
}

/// Law: replicas that start from the same stores and apply the same commands in
/// the same order come to the same stores and the same outcomes; a replica that
/// is behind is where the other one was at that place of the log.
pub proof fn replicas_converge(
    a: ReplicaView,
    b: ReplicaView,
    log: Seq<KindOpView>,
    longer: Seq<KindOpView>,
)
    requires
        a == b,
        log.len() <= longer.len(),
        longer.take(log.len() as int) == log,
    ensures
        replayed(a, log) == replayed(b, log),
        replayed(a, longer).1.take(log.len() as int) == replayed(b, log).1,
        log.len() == longer.len() ==> replayed(a, longer) == replayed(b, log),
    decreases longer.len(),
{
    replay_counts(a, longer);
    replay_counts(b, log);
    if log.len() == longer.len() {
        assert(longer.take(log.len() as int) =~= longer);
        assert(replayed(a, longer).1.take(log.len() as int) =~= replayed(a, longer).1);
    } else {
        let front = longer.drop_last();
        assert(front.take(log.len() as int) =~= longer.take(log.len() as int));
        replicas_converge(a, b, log, front);
        replay_counts(a, front);
        assert(replayed(a, longer).1.take(log.len() as int) =~= replayed(a, front).1.take(
            log.len() as int,
        ));
    }
}

proof fn replay_counts(r: ReplicaView, log: Seq<KindOpView>)
    ensures
        replayed(r, log).1.len() == log.len(),
    decreases log.len(),
{
    if log.len() > 0 {
        replay_counts(r, log.drop_last());
    }
}

/// Law: a command that is not carried out leaves the replica as it was.
pub proof fn failed_commands_change_nothing(r: ReplicaView, op: KindOpView)
    requires
        !(applied(r, op).1 is Done),
    ensures
        applied(r, op).0 == r,
{
}

/// Law: a command changes objects of its own kind only.
pub proof fn commands_keep_to_their_kind(r: ReplicaView, op: KindOpView)
    ensures
        !(op is Pods) ==> applied(r, op).0.pods == r.pods,
        !(op is ReplicaSets) ==> applied(r, op).0.replicasets == r.replicasets,
        !(op is Nodes) ==> applied(r, op).0.nodes == r.nodes,
        !(op is Services) ==> applied(r, op).0.services == r.services,
        !(op is Endpoints) ==> applied(r, op).0.endpoints == r.endpoints,
{
}

/// Law: a command moves no counter but that of the writes.
pub proof fn commands_keep_other_counters(r: ReplicaView, op: KindOpView, key: Seq<char>)
    requires
        key != storage::RV_COUNTER@,
    ensures
        storage::counter(applied(r, op).0.db, key) == storage::counter(r.db, key),
{
}

} // verus!
