//! Requests: what each is refused for, which command it becomes, and what it
//! is answered. A write is planned first, as a command; the server applies the
//! command at once, or hands it to the replicated log and answers with the
//! outcome there.

use vstd::prelude::*;

use crate::apiserver::applier;
use crate::apiserver::applier::{Applier, ReplicaView, WithStatus};
use crate::apiserver::command::{
    ApplyOutcome, ApplyOutcomeView, KindOp, KindOpView, Object, ObjectView, Op, OpView,
    StoreCommand,
};
use crate::apiserver::services;
use crate::apiserver::storage;
use crate::apiserver::storage::{ResourceStore, StoreView};
use crate::apiserver::watch;
use crate::apiserver::watch::{Everything, NodeFilter};
use crate::clock;
use crate::duplicate::Duplicate;
use crate::identity;
use crate::endpoints::{Endpoints, EndpointsView};
use crate::meta;
use crate::meta::ResourceMeta;
use crate::node::{Node, NodeSpecView, NodeStatus, NodeView};
use crate::pod::{Pod, PodSpecView, PodStatus, PodView};
use crate::replicaset::{ReplicaSet, ReplicaSetStatus, ReplicaSetView};
use crate::service::{Service, ServiceView};
use crate::text;

verus! {

/// The handlers and the apply loop share one set of stores.
pub type AppState = Applier;

/// Why a request is refused.
#[derive(Debug, Clone, PartialEq)]
pub enum ApiError {
    NotFound(String),
    AlreadyExists(String),
    Conflict { current: String, provided: String },
    BadRequest(String),
    Internal(String),
    /// Another replica leads: its address.
    Redirect(String),
}

/// What an `ApiError` holds.
#[verifier::ext_equal]
pub enum ApiErrorView {
    NotFound(Seq<char>),
    AlreadyExists(Seq<char>),
    Conflict { current: Seq<char>, provided: Seq<char> },
    BadRequest(Seq<char>),
    Internal(Seq<char>),
    Redirect(Seq<char>),
}

impl DeepView for ApiError {
    type V = ApiErrorView;

    open spec fn deep_view(&self) -> ApiErrorView {
        match self {
            ApiError::NotFound(n) => ApiErrorView::NotFound(n@),
            ApiError::AlreadyExists(n) => ApiErrorView::AlreadyExists(n@),
            ApiError::Conflict { current, provided } => ApiErrorView::Conflict {
                current: current@,
                provided: provided@,
            },
            ApiError::BadRequest(m) => ApiErrorView::BadRequest(m@),
            ApiError::Internal(m) => ApiErrorView::Internal(m@),
            ApiError::Redirect(url) => ApiErrorView::Redirect(url@),
        }
    }
}

impl ApiErrorView {
    /// The HTTP status code.
    pub open spec fn code(self) -> u16 {
        match self {
            ApiErrorView::NotFound(_) => 404,
            ApiErrorView::AlreadyExists(_) => 409,
            ApiErrorView::Conflict { .. } => 409,
            ApiErrorView::BadRequest(_) => 400,
            ApiErrorView::Internal(_) => 500,
            ApiErrorView::Redirect(_) => 307,
        }
    }

    /// The word that clients go by.
    pub open spec fn reason(self) -> Seq<char> {
        match self {
            ApiErrorView::NotFound(_) => "NotFound"@,
            ApiErrorView::AlreadyExists(_) => "AlreadyExists"@,
            ApiErrorView::Conflict { .. } => "Conflict"@,
            ApiErrorView::BadRequest(_) => "BadRequest"@,
            ApiErrorView::Internal(_) => "Internal"@,
            ApiErrorView::Redirect(_) => "Redirect"@,
        }
    }

    pub open spec fn message_chars(self) -> Seq<char> {
        match self {
            ApiErrorView::NotFound(n) => "not found: "@ + n,
            ApiErrorView::AlreadyExists(n) => "already exists: "@ + n,
            ApiErrorView::Conflict { current, provided } => "conflict: current rv "@ + current
                + ", provided "@ + provided,
            ApiErrorView::BadRequest(m) => "bad request: "@ + m,
            ApiErrorView::Internal(m) => "internal: "@ + m,
            ApiErrorView::Redirect(url) => "redirect to "@ + url,
        }
    }
}

/// The body of a refusal.
#[derive(Debug, Clone, PartialEq)]
pub struct Status {
    pub kind: String,
    pub api_version: String,
    pub code: u16,
    pub message: String,
    pub reason: String,
}

impl ApiError {
    /// The error in words.
    pub fn message(&self) -> (s: String)
        ensures
            s@ == self.deep_view().message_chars(),
    {
        match self {
            ApiError::NotFound(n) => "not found: ".to_owned().concat(n.as_str()),
            ApiError::AlreadyExists(n) => "already exists: ".to_owned().concat(n.as_str()),
            ApiError::Conflict { current, provided } => {
                let mut s = "conflict: current rv ".to_owned();
                s.append(current.as_str());
                s.append(", provided ");
                s.append(provided.as_str());
                s
            },
            ApiError::BadRequest(m) => "bad request: ".to_owned().concat(m.as_str()),
            ApiError::Internal(m) => "internal: ".to_owned().concat(m.as_str()),
            ApiError::Redirect(url) => "redirect to ".to_owned().concat(url.as_str()),
        }
    }

    /// The status code and the body that a refusal is answered with.
    pub fn status(&self) -> (body: Status)
        ensures
            body.kind@ == "Status"@,
            body.api_version@ == "v1"@,
            body.code == self.deep_view().code(),
            body.message@ == self.deep_view().message_chars(),
            body.reason@ == self.deep_view().reason(),
    {
        let (code, reason): (u16, &str) = match self {
            ApiError::NotFound(_) => (404u16, "NotFound"),
            ApiError::AlreadyExists(_) => (409u16, "AlreadyExists"),
            ApiError::Conflict { .. } => (409u16, "Conflict"),
            ApiError::BadRequest(_) => (400u16, "BadRequest"),
            ApiError::Internal(_) => (500u16, "Internal"),
            ApiError::Redirect(_) => (307u16, "Redirect"),
        };
        Status {
            kind: "Status".to_owned(),
            api_version: "v1".to_owned(),
            code,
            message: self.message(),
            reason: reason.to_owned(),
        }
    }
}

/// What the verdict on a command means for the request that asked for it.
pub open spec fn result_of_outcome(out: ApplyOutcomeView) -> Result<ObjectView, ApiErrorView> {
    match out {
        ApplyOutcomeView::Done(o) => Ok(o),
        ApplyOutcomeView::NotFound(n) => Err(ApiErrorView::NotFound(n)),
        ApplyOutcomeView::AlreadyExists(n) => Err(ApiErrorView::AlreadyExists(n)),
        ApplyOutcomeView::Conflict { current, provided } => Err(
            ApiErrorView::Conflict { current, provided },
        ),
        ApplyOutcomeView::Internal(m) => Err(ApiErrorView::Internal(m)),
    }
}

/// A result, as a model.
pub open spec fn answer_of<T: DeepView>(r: Result<T, ApiError>) -> Result<T::V, ApiErrorView> {
    match r {
        Ok(o) => Ok(o.deep_view()),
        Err(e) => Err(e.deep_view()),
    }
}

/// What the verdict on a command means for the request that asked for it.
pub fn outcome_to_result(outcome: ApplyOutcome) -> (r: Result<Object, ApiError>)
    ensures
        answer_of(r) == result_of_outcome(outcome.deep_view()),
{
    match outcome {
        ApplyOutcome::Done(o) => Ok(o),
        ApplyOutcome::NotFound(n) => Err(ApiError::NotFound(n)),
        ApplyOutcome::AlreadyExists(n) => Err(ApiError::AlreadyExists(n)),
        ApplyOutcome::Conflict { current, provided } => Err(
            ApiError::Conflict { current, provided },
        ),
        ApplyOutcome::Internal(m) => Err(ApiError::Internal(m)),
    }
}

/// A kind as requests see it.
pub trait ApiKind: WithStatus {
    /// What is wrong with an object that a client sends, if anything is.
    spec fn problem(v: Self::V) -> Option<Seq<char>>;

    fn validate(&self) -> (r: Result<(), ApiError>)
        ensures
            match r {
                Ok(_) => Self::problem(self.deep_view()) is None,
                Err(e) => Self::problem(self.deep_view()) matches Some(m) && e.deep_view()
                    == ApiErrorView::BadRequest(m),
            },
    ;

    /// A change of an object of the kind, as a command.
    spec fn command_for(op: OpView<Self::V, <Self::Status as DeepView>::V>) -> KindOpView;

    fn command(op: Op<Self, Self::Status>) -> (c: KindOp)
        ensures
            c.deep_view() == Self::command_for(op.deep_view()),
    ;
}

impl ApiKind for Pod {
    open spec fn problem(v: PodView) -> Option<Seq<char>> {
        if v.metadata.name.len() == 0 {
            Some("metadata.name must not be empty"@)
        } else if v.spec.containers.len() == 0 {
            Some("spec.containers must not be empty"@)
        } else {
            None
        }
    }

    fn validate(&self) -> (r: Result<(), ApiError>) {
        if self.metadata.name.as_str().is_empty() {
            return Err(ApiError::BadRequest("metadata.name must not be empty".to_owned()));
        }
        if self.spec.containers.len() == 0 {
            return Err(ApiError::BadRequest("spec.containers must not be empty".to_owned()));
        }
        Ok(())
    }

    open spec fn command_for(op: OpView<PodView, crate::pod::PodStatusView>) -> KindOpView {
        KindOpView::Pods(op)
    }

    fn command(op: Op<Pod, PodStatus>) -> (c: KindOp) {
        KindOp::Pods(op)
    }
}

impl ApiKind for ReplicaSet {
    open spec fn problem(v: ReplicaSetView) -> Option<Seq<char>> {
        if v.metadata.name.len() == 0 {
            Some("metadata.name must not be empty"@)
        } else if v.spec.selector.match_labels == Map::<Seq<char>, Seq<char>>::empty() {
            Some("spec.selector.matchLabels must not be empty"@)
        } else {
            None
        }
    }

    fn validate(&self) -> (r: Result<(), ApiError>) {
        if self.metadata.name.as_str().is_empty() {
            return Err(ApiError::BadRequest("metadata.name must not be empty".to_owned()));
        }
        if self.spec.selector.match_labels.is_empty() {
            return Err(
                ApiError::BadRequest("spec.selector.matchLabels must not be empty".to_owned()),
            );
        }
        Ok(())
    }

    open spec fn command_for(op: OpView<ReplicaSetView, ReplicaSetStatus>) -> KindOpView {
        KindOpView::ReplicaSets(op)
    }

    fn command(op: Op<ReplicaSet, ReplicaSetStatus>) -> (c: KindOp) {
        KindOp::ReplicaSets(op)
    }
}

impl ApiKind for Node {
    open spec fn problem(v: NodeView) -> Option<Seq<char>> {
        if v.metadata.name.len() == 0 {
            Some("metadata.name must not be empty"@)
        } else {
            None
        }
    }

    fn validate(&self) -> (r: Result<(), ApiError>) {
        if self.metadata.name.as_str().is_empty() {
            return Err(ApiError::BadRequest("metadata.name must not be empty".to_owned()));
        }
        Ok(())
    }

    open spec fn command_for(op: OpView<NodeView, crate::node::NodeStatusView>) -> KindOpView {
        KindOpView::Nodes(op)
    }

    fn command(op: Op<Node, NodeStatus>) -> (c: KindOp) {
        KindOp::Nodes(op)
    }
}

impl ApiKind for Service {
    open spec fn problem(v: ServiceView) -> Option<Seq<char>> {
        if v.metadata.name.len() == 0 {
            Some("metadata.name must not be empty"@)
        } else {
            None
        }
    }

    fn validate(&self) -> (r: Result<(), ApiError>) {
        if self.metadata.name.as_str().is_empty() {
            return Err(ApiError::BadRequest("metadata.name must not be empty".to_owned()));
        }
        Ok(())
    }

    open spec fn command_for(op: OpView<ServiceView, ()>) -> KindOpView {
        KindOpView::Services(op)
    }

    fn command(op: Op<Service, ()>) -> (c: KindOp) {
        KindOp::Services(op)
    }
}

impl ApiKind for Endpoints {
    open spec fn problem(v: EndpointsView) -> Option<Seq<char>> {
        if v.metadata.name.len() == 0 {
            Some("metadata.name must not be empty"@)
        } else {
            None
        }
    }

    fn validate(&self) -> (r: Result<(), ApiError>) {
        if self.metadata.name.as_str().is_empty() {
            return Err(ApiError::BadRequest("metadata.name must not be empty".to_owned()));
        }
        Ok(())
    }

    open spec fn command_for(op: OpView<EndpointsView, ()>) -> KindOpView {
        KindOpView::Endpoints(op)
    }

    fn command(op: Op<Endpoints, ()>) -> (c: KindOp) {
        KindOp::Endpoints(op)
    }
}

/// The command that creates an object with the given identity and time, or
/// why there is none.
pub open spec fn create_planned<T: ApiKind>(
    v: T::V,
    uid: Seq<char>,
    created: Seq<char>,
) -> Result<KindOpView, ApiErrorView> {
    match T::problem(v) {
        Some(m) => Err(ApiErrorView::BadRequest(m)),
        None => Ok(
            T::command_for(OpView::Create { obj: Ok(meta::stamped::<T>(v, uid, created)) }),
        ),
    }
}

/// Plans the creation of an object: identity and time are drawn here, once.
pub fn create_command<T: ApiKind>(obj: T) -> (r: Result<KindOp, ApiError>)
    ensures
        exists|uid: Seq<char>, created: Seq<char>|
            identity::is_uid(uid) && answer_of(r) == #[trigger] create_planned::<T>(obj.deep_view(), uid, created),
{
    let uid = identity::new_uid();
    let created = clock::now_rfc3339();
    stamped_create_command(obj, uid, created)
}

/// Plans the creation of an object with the given identity and time.
pub fn stamped_create_command<T: ApiKind>(obj: T, uid: String, created: String) -> (r: Result<
    KindOp,
    ApiError,
>)
    ensures
        answer_of(r) == create_planned::<T>(obj.deep_view(), uid@, created@),
{
    match obj.validate() {
        Ok(_) => {
            let mut obj = obj;
            meta::stamp_for_create(&mut obj, uid, created);
            Ok(T::command(Op::Create { obj: Ok(obj) }))
        },
        Err(e) => Err(e),
    }
}

/// Why an object may not be stored under a name, if it may not.
pub open spec fn mismatch_chars(in_body: Seq<char>, in_path: Seq<char>) -> Seq<char> {
    "name in body ("@ + in_body + ") does not match URL path ("@ + in_path + ")"@
}

/// The command that replaces an object's spec, or why there is none.
pub open spec fn replace_planned<T: ApiKind>(name: Seq<char>, v: T::V) -> Result<
    KindOpView,
    ApiErrorView,
> {
    match T::problem(v) {
        Some(m) => Err(ApiErrorView::BadRequest(m)),
        None => if T::meta_of(v).name != name {
            Err(ApiErrorView::BadRequest(mismatch_chars(T::meta_of(v).name, name)))
        } else {
            Ok(T::command_for(OpView::ReplaceSpec { name, obj: Ok(v) }))
        },
    }
}

/// Plans the replacement of an object's spec.
pub fn replace_command<T: ApiKind>(name: &str, obj: T) -> (r: Result<KindOp, ApiError>)
    ensures
        answer_of(r) == replace_planned::<T>(name@, obj.deep_view()),
{
    if let Err(e) = obj.validate() {
        return Err(e);
    }
    if !text::same(obj.meta().name.as_str(), name) {
        let mut m = "name in body (".to_owned();
        m.append(obj.meta().name.as_str());
        m.append(") does not match URL path (");
        m.append(name);
        m.append(")");
        return Err(ApiError::BadRequest(m));
    }
    Ok(T::command(Op::ReplaceSpec { name: name.to_owned(), obj: Ok(obj) }))
}

/// The command that deletes an object, or why there is none.
pub open spec fn delete_planned<T: ApiKind>(name: Seq<char>, rv: Option<Seq<char>>) -> Result<
    KindOpView,
    ApiErrorView,
> {
    match rv {
        Some(rv) => Ok(T::command_for(OpView::Delete { name, rv })),
        None => Err(ApiErrorView::BadRequest("resourceVersion query param required"@)),
    }
}

/// Plans the deletion of an object.
pub fn delete_command<T: ApiKind>(name: &str, params: RvParams) -> (r: Result<KindOp, ApiError>)
    ensures
        answer_of(r) == delete_planned::<T>(name@, params.resource_version.deep_view()),
{
    match params.resource_version {
        Some(rv) => Ok(T::command(Op::Delete { name: name.to_owned(), rv })),
        None => Err(ApiError::BadRequest("resourceVersion query param required".to_owned())),
    }
}

/// The command that replaces an object's status, or why there is none.
pub open spec fn status_planned<T: ApiKind>(
    name: Seq<char>,
    rv: Option<Seq<char>>,
    status: <T::Status as DeepView>::V,
) -> Result<KindOpView, ApiErrorView> {
    match rv {
        Some(rv) => Ok(
            T::command_for(OpView::ReplaceStatus { name, rv, status: Some(status) }),
        ),
        None => Err(ApiErrorView::BadRequest("resourceVersion query param required"@)),
    }
}

/// Plans the replacement of an object's status.
pub fn status_command<T: ApiKind>(name: &str, params: RvParams, status: T::Status) -> (r: Result<
    KindOp,
    ApiError,
>)
    ensures
        answer_of(r) == status_planned::<T>(
            name@,
            params.resource_version.deep_view(),
            status.deep_view(),
        ),
{
    match params.resource_version {
        Some(rv) => Ok(
            T::command(Op::ReplaceStatus { name: name.to_owned(), rv, status: Some(status) }),
        ),
        None => Err(ApiError::BadRequest("resourceVersion query param required".to_owned())),
    }
}

/// What a write comes to on a server that applies its commands itself.
pub open spec fn performed(r: ReplicaView, planned: Result<KindOpView, ApiErrorView>) -> (
    ReplicaView,
    Result<ObjectView, ApiErrorView>,
) {
    match planned {
        Ok(op) => {
            let (after, out) = applier::applied(r, op);
            (after, result_of_outcome(out))
        },
        Err(e) => (r, Err(e)),
    }
}

/// Carries out a planned write at once.
pub fn perform(state: &mut AppState, planned: Result<KindOp, ApiError>) -> (r: Result<
    Object,
    ApiError,
>)
    ensures
        (final(state)@, answer_of(r)) == performed(old(state)@, answer_of(planned)),
{
    match planned {
        Ok(op) => outcome_to_result(state.apply(StoreCommand { id: 0, op })),
        Err(e) => Err(e),
    }
}

/// Query parameters of a list or watch.
#[derive(Debug, Clone, PartialEq)]
pub struct ListWatchParams {
    pub watch: Option<bool>,
    pub resource_version: Option<String>,
    pub field_selector: Option<String>,
}

/// Query parameters of a conditional write.
#[derive(Debug, Clone, PartialEq)]
pub struct RvParams {
    pub resource_version: Option<String>,
}

impl Default for ListWatchParams {
    fn default() -> (p: Self)
        ensures
            p.watch is None,
            p.resource_version is None,
            p.field_selector is None,
    {
        ListWatchParams { watch: None, resource_version: None, field_selector: None }
    }
}

impl Default for RvParams {
    fn default() -> (p: Self)
        ensures
            p.resource_version is None,
    {
        RvParams { resource_version: None }
    }
}

/// The body of a request to bind a Pod to a node.
#[derive(Debug, Clone, PartialEq)]
pub struct Binding {
    pub node_name: String,
}

pub open spec fn requested_rv(s: Option<Seq<char>>) -> u64 {
    match s {
        Some(s) => match text::parsed_u64(s) {
            Some(rv) => rv,
            None => 0,
        },
        None => 0,
    }
}

/// From where on a client wants to watch; from the beginning where it does not
/// say so readably.
pub fn parse_rv(s: Option<&str>) -> (rv: u64)
    ensures
        rv == requested_rv(
            match s {
                Some(s) => Some(s@),
                None => None,
            },
        ),
{
    match s {
        Some(s) => match text::parse_u64(s) {
            Some(rv) => rv,
            None => 0,
        },
        None => 0,
    }
}

/// The one field selector there is, `spec.nodeName=` and a name; anything else
/// selects everything.
pub open spec fn selected_node(selector: Option<Seq<char>>) -> Option<Seq<char>> {
    match selector {
        Some(s) => {
            let prefix = "spec.nodeName="@;
            if s.len() >= prefix.len() && s.take(prefix.len() as int) == prefix {
                Some(s.skip(prefix.len() as int))
            } else {
                None
            }
        },
        None => None,
    }
}

/// The node that a field selector asks for.
pub fn parse_node_name_selector(field_selector: Option<&str>) -> (node: Option<String>)
    ensures
        node.deep_view() == selected_node(
            match field_selector {
                Some(s) => Some(s@),
                None => None,
            },
        ),
{
    match field_selector {
        Some(s) => text::strip_prefix(s, "spec.nodeName="),
        None => None,
    }
}

#[derive(Debug, Clone, PartialEq)]
pub struct PodList {
    pub kind: String,
    pub api_version: String,
    pub items: Vec<Pod>,
}

#[derive(Debug, Clone, PartialEq)]
pub struct ReplicaSetList {
    pub kind: String,
    pub api_version: String,
    pub items: Vec<ReplicaSet>,
}

#[derive(Debug, Clone, PartialEq)]
pub struct NodeList {
    pub kind: String,
    pub api_version: String,
    pub items: Vec<Node>,
}

impl PodList {
    pub fn new(items: Vec<Pod>) -> (list: Self)
        ensures
            list.kind@ == "PodList"@,
            list.api_version@ == "v1"@,
            list.items == items,
    {
        PodList { kind: "PodList".to_owned(), api_version: "v1".to_owned(), items }
    }
}

impl ReplicaSetList {
    pub fn new(items: Vec<ReplicaSet>) -> (list: Self)
        ensures
            list.kind@ == "ReplicaSetList"@,
            list.api_version@ == "apps/v1"@,
            list.items == items,
    {
        ReplicaSetList {
            kind: "ReplicaSetList".to_owned(),
            api_version: "apps/v1".to_owned(),
            items,
        }
    }
}

impl NodeList {
    pub fn new(items: Vec<Node>) -> (list: Self)
        ensures
            list.kind@ == "NodeList"@,
            list.api_version@ == "v1"@,
            list.items == items,
    {
        NodeList { kind: "NodeList".to_owned(), api_version: "v1".to_owned(), items }
    }
}

/// One endpoint, two behaviours: a list now, or a watch from a version on.
#[derive(Debug, Clone, PartialEq)]
pub enum ListOrWatch<L, F> {
    List(L),
    Watch { from_rv: u64, filter: F },
}

pub open spec fn wants_watch(params: ListWatchParams) -> bool {
    params.watch == Some(true)
}

pub(crate) fn watch_asked(params: &ListWatchParams) -> (r: bool)
    ensures
        r == wants_watch(*params),
{
    match params.watch {
        Some(w) => w,
        None => false,
    }
}

pub(crate) fn as_text(s: &Option<String>) -> (t: Option<&str>)
    ensures
        s.deep_view() == (match t {
            Some(t) => Some(t@),
            None => None,
        }),
{
    match s {
        Some(s) => Some(s.as_str()),
        None => None,
    }
}

/// The Pods of one node, or all Pods where none is named, in name order.
pub open spec fn pods_on(state: ReplicaView, node: Option<Seq<char>>) -> Seq<PodView> {
    storage::values_in_name_order(state.pods.objects).filter(
        |p: PodView| watch::on_node(p, node),
    )
}

fn retain_on_node(pods: Vec<Pod>, filter: &NodeFilter) -> (kept: Vec<Pod>)
    ensures
        kept.deep_view() == pods.deep_view().filter(
            |p: PodView| watch::on_node(p, filter.node.deep_view()),
        ),
{
    let ghost all = pods.deep_view();
    let ghost wanted = |p: PodView| watch::on_node(p, filter.node.deep_view());
    let mut kept: Vec<Pod> = Vec::new();
    proof {
        reveal(Seq::filter);
        assert(all.take(0) =~= Seq::<PodView>::empty());
        assert(kept.deep_view() =~= Seq::<PodView>::empty());
    }
    for i in 0..pods.len()
        invariant
            all == pods.deep_view(),
            wanted == (|p: PodView| watch::on_node(p, filter.node.deep_view())),
            kept.deep_view() == all.take(i as int).filter(wanted),
    {
        let ghost before = kept.deep_view();
        proof {
            reveal(Seq::filter);
            assert(all.take(i + 1).drop_last() =~= all.take(i as int));
            assert(all.take(i + 1).last() == pods@[i as int].deep_view());
        }
        if watch::WatchFilter::accepts(filter, &pods[i]) {
            kept.push(pods[i].duplicate());
            assert(kept.deep_view() =~= before.push(pods@[i as int].deep_view()));
        }
    }
    assert(all.take(pods@.len() as int) =~= all);
    kept
}

pub fn list_or_watch_pods(state: &AppState, params: &ListWatchParams) -> (r: ListOrWatch<
    PodList,
    NodeFilter,
>)
    ensures
        ({
            let node = selected_node(params.field_selector.deep_view());
            match r {
                ListOrWatch::Watch { from_rv, filter } => {
                    &&& wants_watch(*params)
                    &&& from_rv == requested_rv(params.resource_version.deep_view())
                    &&& filter.node.deep_view() == node
                },
                ListOrWatch::List(list) => {
                    &&& !wants_watch(*params)
                    &&& list.kind@ == "PodList"@
                    &&& list.api_version@ == "v1"@
                    &&& list.items.deep_view() == pods_on(state@, node)
                },
            }
        }),
{
    let filter = NodeFilter { node: parse_node_name_selector(as_text(&params.field_selector)) };
    if watch_asked(params) {
        ListOrWatch::Watch { from_rv: parse_rv(as_text(&params.resource_version)), filter }
    } else {
        let (pods, _rv) = state.pods.list(&state.db);
        ListOrWatch::List(PodList::new(retain_on_node(pods, &filter)))
    }
}

pub fn list_or_watch_replicasets(state: &AppState, params: &ListWatchParams) -> (r: ListOrWatch<
    ReplicaSetList,
    Everything,
>)
    ensures
        match r {
            ListOrWatch::Watch { from_rv, filter } => {
                &&& wants_watch(*params)
                &&& from_rv == requested_rv(params.resource_version.deep_view())
            },
            ListOrWatch::List(list) => {
                &&& !wants_watch(*params)
                &&& list.kind@ == "ReplicaSetList"@
                &&& list.api_version@ == "apps/v1"@
                &&& list.items.deep_view() == storage::values_in_name_order(
                    state@.replicasets.objects,
                )
            },
        },
{
    if watch_asked(params) {
        ListOrWatch::Watch {
            from_rv: parse_rv(as_text(&params.resource_version)),
            filter: Everything,
        }
    } else {
        let (items, _rv) = state.replicasets.list(&state.db);
        ListOrWatch::List(ReplicaSetList::new(items))
    }
}

pub fn list_or_watch_nodes(state: &AppState, params: &ListWatchParams) -> (r: ListOrWatch<
    NodeList,
    Everything,
>)
    ensures
        match r {
            ListOrWatch::Watch { from_rv, filter } => {
                &&& wants_watch(*params)
                &&& from_rv == requested_rv(params.resource_version.deep_view())
            },
            ListOrWatch::List(list) => {
                &&& !wants_watch(*params)
                &&& list.kind@ == "NodeList"@
                &&& list.api_version@ == "v1"@
                &&& list.items.deep_view() == storage::values_in_name_order(state@.nodes.objects)
            },
        },
{
    if watch_asked(params) {
        ListOrWatch::Watch {
            from_rv: parse_rv(as_text(&params.resource_version)),
            filter: Everything,
        }
    } else {
        let (items, _rv) = state.nodes.list(&state.db);
        ListOrWatch::List(NodeList::new(items))
    }
}

/// What a read of one object is answered.
pub open spec fn read<V>(s: StoreView<V>, name: Seq<char>) -> Result<V, ApiErrorView> {
    if s.objects.contains_key(name) {
        Ok(s.objects[name])
    } else {
        Err(ApiErrorView::NotFound(name))
    }
}

pub(crate) fn get_object<T: ResourceMeta>(store: &ResourceStore<T>, name: &str) -> (r: Result<T, ApiError>)
    ensures
        answer_of(r) == read(store@, name@),
{
    match store.get(name) {
        Some(o) => Ok(o),
        None => Err(ApiError::NotFound(name.to_owned())),
    }
}

pub fn get_pod(state: &AppState, name: &str) -> (r: Result<Pod, ApiError>)
    ensures
        answer_of(r) == read(state@.pods, name@),
{
    get_object(&state.pods, name)
}

pub fn get_replicaset(state: &AppState, name: &str) -> (r: Result<ReplicaSet, ApiError>)
    ensures
        answer_of(r) == read(state@.replicasets, name@),
{
    get_object(&state.replicasets, name)
}

pub fn get_node(state: &AppState, name: &str) -> (r: Result<Node, ApiError>)
    ensures
        answer_of(r) == read(state@.nodes, name@),
{
    get_object(&state.nodes, name)
}

pub fn create_pod(state: &mut AppState, pod: Pod) -> (r: Result<Object, ApiError>)
    ensures
        exists|uid: Seq<char>, created: Seq<char>|
            identity::is_uid(uid) && (final(state)@, answer_of(r)) == performed(
                old(state)@,
                #[trigger] create_planned::<Pod>(pod.deep_view(), uid, created),
            ),
{
    let planned = create_command(pod);
    perform(state, planned)
}

pub fn replace_pod_spec(state: &mut AppState, name: &str, pod: Pod) -> (r: Result<Object, ApiError>)
    ensures
        (final(state)@, answer_of(r)) == performed(
            old(state)@,
            replace_planned::<Pod>(name@, pod.deep_view()),
        ),
{
    let planned = replace_command(name, pod);
    perform(state, planned)
}

pub fn delete_pod(state: &mut AppState, name: &str, params: RvParams) -> (r: Result<
    Object,
    ApiError,
>)
    ensures
        (final(state)@, answer_of(r)) == performed(
            old(state)@,
            delete_planned::<Pod>(name@, params.resource_version.deep_view()),
        ),
{
    let planned = delete_command::<Pod>(name, params);
    perform(state, planned)
}

pub fn replace_pod_status(
    state: &mut AppState,
    name: &str,
    params: RvParams,
    status: PodStatus,
) -> (r: Result<Object, ApiError>)
    ensures
        (final(state)@, answer_of(r)) == performed(
            old(state)@,
            status_planned::<Pod>(
                name@,
                params.resource_version.deep_view(),
                status.deep_view(),
            ),
        ),
{
    let planned = status_command::<Pod>(name, params, status);
    perform(state, planned)
}

/// The command that binds a Pod to a node, or why there is none.
pub open spec fn bind_planned(state: ReplicaView, name: Seq<char>, node: Seq<char>) -> Result<
    KindOpView,
    ApiErrorView,
> {
    if node.len() == 0 {
        Err(ApiErrorView::BadRequest("binding.node_name must not be empty"@))
    } else {
        match read(state.pods, name) {
            Ok(pod) => Ok(
                KindOpView::Pods(
                    OpView::ReplaceSpec {
                        name,
                        obj: Ok(
                            PodView {
                                spec: PodSpecView { node_name: Some(node), ..pod.spec },
                                ..pod
                            },
                        ),
                    },
                ),
            ),
            Err(e) => Err(e),
        }
    }
}

/// Plans the binding of a Pod to a node: the Pod as it is stored, with the
/// node set.
pub fn bind_command(state: &AppState, name: &str, binding: Binding) -> (r: Result<KindOp, ApiError>)
    ensures
        answer_of(r) == bind_planned(state@, name@, binding.node_name@),
{
    if binding.node_name.as_str().is_empty() {
        return Err(ApiError::BadRequest("binding.node_name must not be empty".to_owned()));
    }
    match get_pod(state, name) {
        Ok(pod) => {
            let mut pod = pod;
            pod.spec.node_name = Some(binding.node_name);
            Ok(KindOp::Pods(Op::ReplaceSpec { name: name.to_owned(), obj: Ok(pod) }))
        },
        Err(e) => Err(e),
    }
}

/// Binds a Pod to a node. Once its node is set, that node's kubelet, and only
/// that one, runs the Pod.
pub fn bind_pod(state: &mut AppState, name: &str, binding: Binding) -> (r: Result<Object, ApiError>)
    ensures
        (final(state)@, answer_of(r)) == performed(
            old(state)@,
            bind_planned(old(state)@, name@, binding.node_name@),
        ),
{
    let planned = bind_command(state, name, binding);
    perform(state, planned)
}

pub fn create_replicaset(state: &mut AppState, rs: ReplicaSet) -> (r: Result<Object, ApiError>)
    ensures
        exists|uid: Seq<char>, created: Seq<char>|
            identity::is_uid(uid) && (final(state)@, answer_of(r)) == performed(
                old(state)@,
                #[trigger] create_planned::<ReplicaSet>(rs.deep_view(), uid, created),
            ),
{
    let planned = create_command(rs);
    perform(state, planned)
}

pub fn replace_replicaset_spec(state: &mut AppState, name: &str, rs: ReplicaSet) -> (r: Result<
    Object,
    ApiError,
>)
    ensures
        (final(state)@, answer_of(r)) == performed(
            old(state)@,
            replace_planned::<ReplicaSet>(name@, rs.deep_view()),
        ),
{
    let planned = replace_command(name, rs);
    perform(state, planned)
}

pub fn delete_replicaset(state: &mut AppState, name: &str, params: RvParams) -> (r: Result<
    Object,
    ApiError,
>)
    ensures
        (final(state)@, answer_of(r)) == performed(
            old(state)@,
            delete_planned::<ReplicaSet>(name@, params.resource_version.deep_view()),
        ),
{
    let planned = delete_command::<ReplicaSet>(name, params);
    perform(state, planned)
}

pub fn replace_replicaset_status(
    state: &mut AppState,
    name: &str,
    params: RvParams,
    status: ReplicaSetStatus,
) -> (r: Result<Object, ApiError>)
    ensures
        (final(state)@, answer_of(r)) == performed(
            old(state)@,
            status_planned::<ReplicaSet>(name@, params.resource_version.deep_view(), status),
        ),
{
    let planned = status_command::<ReplicaSet>(name, params, status);
    perform(state, planned)
}

/// The counter of node address slices.
pub const NODE_CIDR_COUNTER: &'static str = "node_cidr_counter";

/// The slice of the cluster's pod range that a node gets by its number.
pub open spec fn cidr_chars(index: u64) -> Seq<char> {
    "10.244."@ + text::decimal_chars(index as nat) + ".0/24"@
}

pub open spec fn cidr_exhausted_chars(index: u64) -> Seq<char> {
    "pod CIDR space exhausted (node index "@ + text::decimal_chars(index as nat)
        + " exceeds 255)"@
}

/// A node that registers, with its address slice: one that brings its own or
/// is registered already does not use one up.
pub open spec fn with_cidr(state: ReplicaView, node: NodeView) -> (
    Map<Seq<char>, u64>,
    Result<NodeView, ApiErrorView>,
) {
    if node.spec.pod_cidr is None && !state.nodes.objects.contains_key(node.metadata.name) {
        let index = storage::counter(state.db, NODE_CIDR_COUNTER@);
        let db = state.db.insert(NODE_CIDR_COUNTER@, storage::next_number(index));
        if index > 255 {
            (db, Err(ApiErrorView::Internal(cidr_exhausted_chars(index))))
        } else {
            (
                db,
                Ok(
                    NodeView {
                        spec: NodeSpecView { pod_cidr: Some(cidr_chars(index)), ..node.spec },
                        ..node
                    },
                ),
            )
        }
    } else {
        (state.db, Ok(node))
    }
}

/// Gives a node that registers its address slice.
fn assign_cidr(state: &mut AppState, node: Node) -> (r: Result<Node, ApiError>)
    ensures
        (final(state)@.db, answer_of(r)) == with_cidr(old(state)@, node.deep_view()),
        final(state)@ == (ReplicaView { db: final(state)@.db, ..old(state)@ }),
{
    if node.spec.pod_cidr.is_none() && state.nodes.get(node.metadata.name.as_str()).is_none() {
        let index: u64 = state.db.next_index(NODE_CIDR_COUNTER);
        if index > 255 {
            let mut m = "pod CIDR space exhausted (node index ".to_owned();
            text::push_decimal(&mut m, index);
            m.append(" exceeds 255)");
            return Err(ApiError::Internal(m));
        }
        let mut cidr = "10.244.".to_owned();
        text::push_decimal(&mut cidr, index);
        cidr.append(".0/24");
        let mut node = node;
        node.spec.pod_cidr = Some(cidr);
        Ok(node)
    } else {
        Ok(node)
    }
}

/// Plans the registration of a node, with the state after its slice was drawn.
pub open spec fn node_planned(
    state: ReplicaView,
    node: NodeView,
    uid: Seq<char>,
    created: Seq<char>,
) -> (ReplicaView, Result<KindOpView, ApiErrorView>) {
    match Node::problem(node) {
        Some(m) => (state, Err(ApiErrorView::BadRequest(m))),
        None => {
            let (db, assigned) = with_cidr(state, node);
            (
                ReplicaView { db, ..state },
                match assigned {
                    Ok(n) => create_planned::<Node>(n, uid, created),
                    Err(e) => Err(e),
                },
            )
        },
    }
}

/// Plans the registration of a node.
pub fn node_command(state: &mut AppState, node: Node) -> (r: Result<KindOp, ApiError>)
    ensures
        exists|uid: Seq<char>, created: Seq<char>|
            identity::is_uid(uid) && (final(state)@, answer_of(r)) == #[trigger] node_planned(
                old(state)@,
                node.deep_view(),
                uid,
                created,
            ),
{
    let uid = identity::new_uid();
    let created = clock::now_rfc3339();
    let ghost stamp = (uid@, created@);
    if let Err(e) = node.validate() {
        assert((state@, answer_of(Err::<KindOp, ApiError>(e))) == node_planned(
            old(state)@,
            node.deep_view(),
            stamp.0,
            stamp.1,
        ));
        return Err(e);
    }
    match assign_cidr(state, node) {
        Ok(n) => {
            let planned = stamped_create_command(n, uid, created);
            assert((state@, answer_of(planned)) == node_planned(
                old(state)@,
                node.deep_view(),
                stamp.0,
                stamp.1,
            ));
            planned
        },
        Err(e) => {
            assert((state@, answer_of(Err::<KindOp, ApiError>(e))) == node_planned(
                old(state)@,
                node.deep_view(),
                stamp.0,
                stamp.1,
            ));
            Err(e)
        },
    }
}

pub fn create_node(state: &mut AppState, node: Node) -> (r: Result<Object, ApiError>)
    ensures
        exists|uid: Seq<char>, created: Seq<char>|
            {
                let (drawn, planned) = #[trigger] node_planned(
                    old(state)@,
                    node.deep_view(),
                    uid,
                    created,
                );
                identity::is_uid(uid) && (final(state)@, answer_of(r)) == performed(drawn, planned)
            },
{
    let planned = node_command(state, node);
    perform(state, planned)
}

pub fn replace_node_spec(state: &mut AppState, name: &str, node: Node) -> (r: Result<
    Object,
    ApiError,
>)
    ensures
        (final(state)@, answer_of(r)) == performed(
            old(state)@,
            replace_planned::<Node>(name@, node.deep_view()),
        ),
{
    let planned = replace_command(name, node);
    perform(state, planned)
}

pub fn delete_node(state: &mut AppState, name: &str, params: RvParams) -> (r: Result<
    Object,
    ApiError,
>)
    ensures
        (final(state)@, answer_of(r)) == performed(
            old(state)@,
            delete_planned::<Node>(name@, params.resource_version.deep_view()),
        ),
{
    let planned = delete_command::<Node>(name, params);
    perform(state, planned)
}

pub fn replace_node_status(
    state: &mut AppState,
    name: &str,
    params: RvParams,
    status: NodeStatus,
) -> (r: Result<Object, ApiError>)
    ensures
        (final(state)@, answer_of(r)) == performed(
            old(state)@,
            status_planned::<Node>(
                name@,
                params.resource_version.deep_view(),
                status.deep_view(),
            ),
        ),
{
    let planned = status_command::<Node>(name, params, status);
    perform(state, planned)
}

/// What moves the stores and counters of a server.
pub enum Happening {
    /// A command is applied.
    Command(KindOpView),
    /// A node that registers draws its address slice.
    Registration(NodeView),
    /// A new service draws its address.
    Exposure(ServiceView),
}

/// A server after one happening.
pub open spec fn moved(state: ReplicaView, h: Happening) -> ReplicaView {
    match h {
        Happening::Command(op) => applier::applied(state, op).0,
        Happening::Registration(node) => ReplicaView { db: with_cidr(state, node).0, ..state },
        Happening::Exposure(svc) => ReplicaView {
            db: services::with_address(state, svc).0,
            ..state
        },
    }
}

/// A server after some happenings.
pub open spec fn moved_on(state: ReplicaView, happenings: Seq<Happening>) -> ReplicaView
    decreases happenings.len(),
{
    if happenings.len() == 0 {
        state
    } else {
        moved(moved_on(state, happenings.drop_last()), happenings.last())
    }
}

proof fn slices_count_up(state: ReplicaView, happenings: Seq<Happening>)
    ensures
        storage::counter(state.db, NODE_CIDR_COUNTER@) <= storage::counter(
            moved_on(state, happenings).db,
            NODE_CIDR_COUNTER@,
        ),
    decreases happenings.len(),
{
    if happenings.len() > 0 {
        let before = moved_on(state, happenings.drop_last());
        slices_count_up(state, happenings.drop_last());
        reveal_strlit("node_cidr_counter");
        reveal_strlit("rv_counter");
        reveal_strlit("service_ip_counter");
        assert(NODE_CIDR_COUNTER@[0] == 'n');
        assert(storage::RV_COUNTER@[0] == 'r');
        assert(services::SERVICE_IP_COUNTER@[0] == 's');
        if let Happening::Command(op) = happenings.last() {
            applier::commands_keep_other_counters(before, op, NODE_CIDR_COUNTER@);
        }
    }
}

/// Law: no two nodes are given the same address slice, whatever is written,
/// registered and exposed in between.
pub proof fn address_slices_are_not_shared(
    state: ReplicaView,
    a: NodeView,
    between: Seq<Happening>,
    b: NodeView,
)
    requires
        a.spec.pod_cidr is None,
        b.spec.pod_cidr is None,
        !state.nodes.objects.contains_key(a.metadata.name),
        !moved_on(
            moved(state, Happening::Registration(a)),
            between,
        ).nodes.objects.contains_key(b.metadata.name),
    ensures
        ({
            let later = moved_on(moved(state, Happening::Registration(a)), between);
            with_cidr(state, a).1 matches Ok(first) ==> with_cidr(later, b).1 matches Ok(second)
                ==> first.spec.pod_cidr != second.spec.pod_cidr
        }),
{
    let later = moved_on(moved(state, Happening::Registration(a)), between);
    slices_count_up(moved(state, Happening::Registration(a)), between);
    let i = storage::counter(state.db, NODE_CIDR_COUNTER@);
    let j = storage::counter(later.db, NODE_CIDR_COUNTER@);
    if i <= 255 && j <= 255 {
        assert(i < j);
        text::decimal_parses_back(i);
        text::decimal_parses_back(j);
        let head = "10.244."@;
        let tail = ".0/24"@;
        let x = text::decimal_chars(i as nat);
        let y = text::decimal_chars(j as nat);
        if cidr_chars(i) == cidr_chars(j) {
            assert(cidr_chars(i).len() == head.len() + x.len() + tail.len());
            assert(cidr_chars(j).len() == head.len() + y.len() + tail.len());
            assert(cidr_chars(i).subrange(head.len() as int, (head.len() + x.len()) as int) =~= x);
            assert(cidr_chars(j).subrange(head.len() as int, (head.len() + y.len()) as int) =~= y);
        }
    }
}

} // verus!
