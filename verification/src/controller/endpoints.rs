//! Keeps the backends of each service up to date.

use vstd::prelude::*;

use crate::duplicate::Duplicate;
use crate::endpoints::{EndpointAddress, EndpointAddressView, Endpoints, EndpointsView};
use crate::controller::request;
use crate::controller::request::{
    break_off, Progress, ProgressView, Reply, ReplyView, Request, RequestView,
};
use crate::labels::{satisfies, Labels};
use crate::meta::{MetaView, ObjectMeta};
use crate::order;
use crate::order::Sortable;
use crate::pod::{Pod, PodPhase, PodView};
use crate::service::{Service, ServiceView};
use crate::text;

verus! {

/// Whether a service's selector matches a Pod. An empty one matches nothing.
pub open spec fn selects(selector: Map<Seq<char>, Seq<char>>, pod: PodView) -> bool {
    selector != Map::<Seq<char>, Seq<char>>::empty() && selector.submap_of(pod.metadata.labels)
}

pub fn pod_matches(pod: &Pod, selector: &Labels) -> (r: bool)
    ensures
        r == selects(selector@, pod.deep_view()),
{
    !selector.is_empty() && satisfies(&pod.metadata.labels, selector)
}

/// The address at which a Pod can be reached: only one that runs and has
/// reported its address has one.
pub open spec fn reachable_at(pod: PodView) -> Option<Seq<char>> {
    match pod.status {
        Some(s) => if s.phase == PodPhase::Running {
            s.pod_ip
        } else {
            None
        },
        None => None,
    }
}

pub fn backend_ip(pod: &Pod) -> (ip: Option<String>)
    ensures
        ip.deep_view() == reachable_at(pod.deep_view()),
{
    match &pod.status {
        Some(s) => if s.phase == PodPhase::Running {
            s.pod_ip.duplicate()
        } else {
            None
        },
        None => None,
    }
}

/// The names of the services that a Pod may back, in the order in which the
/// services are listed.
pub open spec fn backed_by(pod: PodView, services: Seq<ServiceView>) -> Seq<Seq<char>>
    decreases services.len(),
{
    if services.len() == 0 {
        Seq::empty()
    } else {
        let front = backed_by(pod, services.drop_last());
        if selects(services.last().spec.selector, pod) {
            front.push(services.last().metadata.name)
        } else {
            front
        }
    }
}

/// The services to look at after a Pod changed.
pub fn services_for_pod(pod: &Pod, services: &Vec<Service>) -> (names: Vec<String>)
    ensures
        names.deep_view() == backed_by(pod.deep_view(), services.deep_view()),
{
    let ghost all = services.deep_view();
    let mut names: Vec<String> = Vec::new();
    assert(all.take(0) =~= Seq::<ServiceView>::empty());
    assert(names.deep_view() =~= Seq::<Seq<char>>::empty());
    for i in 0..services.len()
        invariant
            all == services.deep_view(),
            names.deep_view() == backed_by(pod.deep_view(), all.take(i as int)),
    {
        let ghost before = names.deep_view();
        proof {
            assert(all.take(i + 1).drop_last() =~= all.take(i as int));
            assert(all.take(i + 1).last() == services@[i as int].deep_view());
        }
        if pod_matches(pod, &services[i].spec.selector) {
            names.push(services[i].metadata.name.clone());
            assert(names.deep_view() =~= before.push(all[i as int].metadata.name));
        }
    }
    assert(all.take(services@.len() as int) =~= all);
    names
}

impl Sortable for EndpointAddress {
    open spec fn precedes(a: EndpointAddressView, b: EndpointAddressView) -> bool {
        text::text_before(a.ip, b.ip)
    }

    fn is_before(&self, other: &Self) -> (r: bool) {
        text::before(self.ip.as_str(), other.ip.as_str())
    }

    proof fn order_is_weak(
        a: EndpointAddressView,
        b: EndpointAddressView,
        c: EndpointAddressView,
    ) {
        text::text_before_is_total(a.ip, a.ip);
        text::text_before_is_total(a.ip, b.ip);
        text::text_before_is_total(a.ip, c.ip);
        text::text_before_is_total(c.ip, b.ip);
        if text::text_before(c.ip, a.ip) && text::text_before(a.ip, b.ip) {
            text::text_before_is_transitive(c.ip, a.ip, b.ip);
        }
    }
}

/// The backends among some Pods, in the order in which the Pods are listed.
pub open spec fn backends(pods: Seq<PodView>, svc: ServiceView) -> Seq<EndpointAddressView>
    decreases pods.len(),
{
    if pods.len() == 0 {
        Seq::empty()
    } else {
        let front = backends(pods.drop_last(), svc);
        match reachable_at(pods.last()) {
            Some(ip) => if selects(svc.spec.selector, pods.last()) {
                front.push(EndpointAddressView { ip, port: svc.spec.target_port })
            } else {
                front
            },
            None => front,
        }
    }
}

/// The backends of a service, sorted by address.
pub fn desired_addresses(pods: &Vec<Pod>, svc: &Service) -> (addresses: Vec<EndpointAddress>)
    ensures
        addresses.deep_view() == order::sorted::<EndpointAddress>(
            backends(pods.deep_view(), svc.deep_view()),
        ),
{
    let ghost all = pods.deep_view();
    let mut found: Vec<EndpointAddress> = Vec::new();
    assert(all.take(0) =~= Seq::<PodView>::empty());
    assert(found.deep_view() =~= Seq::<EndpointAddressView>::empty());
    for i in 0..pods.len()
        invariant
            all == pods.deep_view(),
            found.deep_view() == backends(all.take(i as int), svc.deep_view()),
    {
        let ghost before = found.deep_view();
        proof {
            assert(all.take(i + 1).drop_last() =~= all.take(i as int));
            assert(all.take(i + 1).last() == pods@[i as int].deep_view());
        }
        if pod_matches(&pods[i], &svc.spec.selector) {
            if let Some(ip) = backend_ip(&pods[i]) {
                let ghost found_ip = ip@;
                found.push(EndpointAddress { ip, port: svc.spec.target_port });
                assert(found.deep_view() =~= before.push(
                    EndpointAddressView { ip: found_ip, port: svc.spec.target_port },
                ));
            }
        }
    }
    assert(all.take(pods@.len() as int) =~= all);
    order::sort(&found)
}

/// What is written for a service's backends.
#[derive(Debug, Clone, PartialEq)]
pub enum EndpointsWrite {
    /// They are stored as they are: a write would only wake the controller.
    Nothing,
    Replace(Endpoints),
    Create(Endpoints),
}

pub enum EndpointsWriteView {
    Nothing,
    Replace(EndpointsView),
    Create(EndpointsView),
}

impl DeepView for EndpointsWrite {
    type V = EndpointsWriteView;

    open spec fn deep_view(&self) -> EndpointsWriteView {
        match self {
            EndpointsWrite::Nothing => EndpointsWriteView::Nothing,
            EndpointsWrite::Replace(ep) => EndpointsWriteView::Replace(ep.deep_view()),
            EndpointsWrite::Create(ep) => EndpointsWriteView::Create(ep.deep_view()),
        }
    }
}

pub open spec fn endpoints_write(
    svc_name: Seq<char>,
    existing: Option<EndpointsView>,
    addresses: Seq<EndpointAddressView>,
) -> EndpointsWriteView {
    match existing {
        Some(ep) => if ep.addresses == addresses {
            EndpointsWriteView::Nothing
        } else {
            EndpointsWriteView::Replace(EndpointsView { addresses, ..ep })
        },
        None => EndpointsWriteView::Create(
            EndpointsView {
                api_version: "v1"@,
                kind: "Endpoints"@,
                metadata: MetaView::named(svc_name),
                addresses,
            },
        ),
    }
}

fn same_addresses(a: &Vec<EndpointAddress>, b: &Vec<EndpointAddress>) -> (r: bool)
    ensures
        r == (a.deep_view() == b.deep_view()),
{
    let ghost x = a.deep_view();
    let ghost y = b.deep_view();
    if a.len() != b.len() {
        assert(x.len() != y.len());
        return false;
    }
    for i in 0..a.len()
        invariant
            a@.len() == b@.len(),
            x == a.deep_view(),
            y == b.deep_view(),
            forall|k: int| 0 <= k < i ==> #[trigger] x[k] == y[k],
    {
        assert(x[i as int] == a@[i as int].deep_view());
        assert(y[i as int] == b@[i as int].deep_view());
        if !text::same(a[i].ip.as_str(), b[i].ip.as_str()) || a[i].port != b[i].port {
            assert(x[i as int] != y[i as int]);
            return false;
        }
    }
    assert(x =~= y);
    true
}

/// Decides what to write for a service's backends.
pub fn write_endpoints(
    svc_name: &str,
    existing: Option<Endpoints>,
    addresses: Vec<EndpointAddress>,
) -> (write: EndpointsWrite)
    ensures
        write.deep_view() == endpoints_write(
            svc_name@,
            existing.deep_view(),
            addresses.deep_view(),
        ),
{
    match existing {
        Some(ep) => {
            if same_addresses(&ep.addresses, &addresses) {
                return EndpointsWrite::Nothing;
            }
            let mut ep = ep;
            ep.addresses = addresses;
            EndpointsWrite::Replace(ep)
        },
        None => EndpointsWrite::Create(
            Endpoints {
                api_version: "v1".to_owned(),
                kind: "Endpoints".to_owned(),
                metadata: ObjectMeta::named(svc_name.to_owned()),
                addresses,
            },
        ),
    }
}

/// The version over which the backends of a service that is gone are deleted,
/// if they are stored.
pub fn stale_endpoints(existing: &Option<Endpoints>) -> (rv: Option<String>)
    ensures
        rv.deep_view() == (match existing.deep_view() {
            Some(ep) => ep.metadata.resource_version,
            None => None,
        }),
{
    match existing {
        Some(ep) => ep.metadata.resource_version.duplicate(),
        None => None,
    }
}

/// How far a round over one service has come: what is awaited.
#[derive(Debug, Clone, PartialEq)]
pub enum Stage {
    /// The service.
    Reading,
    /// The backends that are stored for a service that is gone.
    Gone,
    /// Their deletion.
    Cleaning,
    /// The Pods.
    Selecting { svc: Service },
    /// The backends that are stored, to be held against these.
    Comparing { addresses: Vec<EndpointAddress> },
    /// The write of the backends.
    Writing,
}

/// What a `Stage` holds.
#[verifier::ext_equal]
pub enum StageView {
    Reading,
    Gone,
    Cleaning,
    Selecting { svc: ServiceView },
    Comparing { addresses: Seq<EndpointAddressView> },
    Writing,
}

impl DeepView for Stage {
    type V = StageView;

    open spec fn deep_view(&self) -> StageView {
        match self {
            Stage::Reading => StageView::Reading,
            Stage::Gone => StageView::Gone,
            Stage::Cleaning => StageView::Cleaning,
            Stage::Selecting { svc } => StageView::Selecting { svc: svc.deep_view() },
            Stage::Comparing { addresses } => StageView::Comparing {
                addresses: addresses.deep_view(),
            },
            Stage::Writing => StageView::Writing,
        }
    }
}

/// How a round goes on once a reply is there. The backends of a service that
/// is gone are deleted, whether or not that succeeds; those of one that exists
/// are written if they changed.
pub open spec fn next_stage(
    svc_name: Seq<char>,
    stage: StageView,
    reply: ReplyView,
) -> ProgressView<StageView> {
    match (stage, reply) {
        (StageView::Reading, ReplyView::Service(None)) => ProgressView::Ask(
            RequestView::GetEndpoints(svc_name),
            StageView::Gone,
        ),
        (StageView::Reading, ReplyView::Service(Some(svc))) => ProgressView::Ask(
            RequestView::ListPods,
            StageView::Selecting { svc },
        ),
        (StageView::Gone, ReplyView::Endpoints(existing)) => match existing {
            Some(ep) => match ep.metadata.resource_version {
                Some(rv) => ProgressView::Ask(
                    RequestView::DeleteEndpoints { name: svc_name, rv },
                    StageView::Cleaning,
                ),
                None => ProgressView::Finished,
            },
            None => ProgressView::Finished,
        },
        (StageView::Cleaning, _) => ProgressView::Finished,
        (StageView::Selecting { svc }, ReplyView::Pods(pods)) => ProgressView::Ask(
            RequestView::GetEndpoints(svc_name),
            StageView::Comparing {
                addresses: order::sorted::<EndpointAddress>(backends(pods, svc)),
            },
        ),
        (StageView::Comparing { addresses }, ReplyView::Endpoints(existing)) => {
            match endpoints_write(svc_name, existing, addresses) {
                EndpointsWriteView::Nothing => ProgressView::Finished,
                EndpointsWriteView::Replace(ep) => ProgressView::Ask(
                    RequestView::ReplaceEndpoints(ep),
                    StageView::Writing,
                ),
                EndpointsWriteView::Create(ep) => ProgressView::Ask(
                    RequestView::CreateEndpoints(ep),
                    StageView::Writing,
                ),
            }
        },
        (StageView::Writing, ReplyView::Failed(e)) => ProgressView::Aborted(e),
        (StageView::Writing, _) => ProgressView::Finished,
        (_, _) => ProgressView::Aborted(request::broken_off(reply)),
    }
}

/// The first request of a round over a service.
pub fn start(svc_name: &str) -> (p: Progress<Stage>)
    ensures
        p.deep_view() == ProgressView::Ask(
            RequestView::GetService(svc_name@),
            StageView::Reading,
        ),
{
    Progress::Ask(Request::GetService(svc_name.to_owned()), Stage::Reading)
}

/// Takes a round over a service one reply further.
pub fn reconcile(svc_name: &str, stage: Stage, reply: Reply) -> (p: Progress<Stage>)
    ensures
        p.deep_view() == next_stage(svc_name@, stage.deep_view(), reply.deep_view()),
{
    match (stage, reply) {
        (Stage::Reading, Reply::Service(None)) => Progress::Ask(
            Request::GetEndpoints(svc_name.to_owned()),
            Stage::Gone,
        ),
        (Stage::Reading, Reply::Service(Some(svc))) => Progress::Ask(
            Request::ListPods,
            Stage::Selecting { svc },
        ),
        (Stage::Gone, Reply::Endpoints(existing)) => match stale_endpoints(&existing) {
            Some(rv) => Progress::Ask(
                Request::DeleteEndpoints { name: svc_name.to_owned(), rv },
                Stage::Cleaning,
            ),
            None => Progress::Finished,
        },
        (Stage::Cleaning, _) => Progress::Finished,
        (Stage::Selecting { svc }, Reply::Pods(pods)) => Progress::Ask(
            Request::GetEndpoints(svc_name.to_owned()),
            Stage::Comparing { addresses: desired_addresses(&pods, &svc) },
        ),
        (Stage::Comparing { addresses }, Reply::Endpoints(existing)) => {
            match write_endpoints(svc_name, existing, addresses) {
                EndpointsWrite::Nothing => Progress::Finished,
                EndpointsWrite::Replace(ep) => Progress::Ask(
                    Request::ReplaceEndpoints(ep),
                    Stage::Writing,
                ),
                EndpointsWrite::Create(ep) => Progress::Ask(
                    Request::CreateEndpoints(ep),
                    Stage::Writing,
                ),
            }
        },
        (Stage::Writing, Reply::Failed(e)) => Progress::Aborted(e),
        (Stage::Writing, _) => Progress::Finished,
        (_, reply) => Progress::Aborted(break_off(reply)),
    }
}

/// Law: a round over a service that exists ends with the backends it has stored
/// under its name, and writes nothing else.
pub proof fn rounds_store_the_backends(
    svc_name: Seq<char>,
    svc: ServiceView,
    pods: Seq<PodView>,
    existing: Option<EndpointsView>,
)
    ensures
        ({
            let addresses = order::sorted::<EndpointAddress>(backends(pods, svc));
            let comparing = StageView::Comparing { addresses };
            &&& next_stage(svc_name, StageView::Reading, ReplyView::Service(Some(svc)))
                == ProgressView::Ask(RequestView::ListPods, StageView::Selecting { svc })
            &&& next_stage(svc_name, StageView::Selecting { svc }, ReplyView::Pods(pods))
                == ProgressView::Ask(RequestView::GetEndpoints(svc_name), comparing)
            &&& match next_stage(svc_name, comparing, ReplyView::Endpoints(existing)) {
                ProgressView::Finished => existing is Some && existing->0.addresses == addresses,
                ProgressView::Ask(RequestView::ReplaceEndpoints(ep), _) => existing is Some && ep
                    == (EndpointsView { addresses, ..existing->0 }),
                ProgressView::Ask(RequestView::CreateEndpoints(ep), _) => existing is None
                    && ep.addresses == addresses && ep.metadata.name == svc_name,
                _ => false,
            }
        }),
{
}

/// How many replies a round still awaits at most.
pub open spec fn replies_left(stage: StageView) -> nat {
    match stage {
        StageView::Reading => 4,
        StageView::Selecting { .. } => 3,
        StageView::Comparing { .. } => 2,
        StageView::Gone => 2,
        StageView::Writing => 1,
        StageView::Cleaning => 1,
    }
}

/// Law: every round ends, whatever is replied.
pub proof fn rounds_end(svc_name: Seq<char>, stage: StageView, reply: ReplyView)
    ensures
        match next_stage(svc_name, stage, reply) {
            ProgressView::Ask(_, later) => replies_left(later) < replies_left(stage),
            _ => true,
        },
{
}

/// Law: once the backends are written, looking again writes nothing.
pub proof fn written_backends_rest(
    svc_name: Seq<char>,
    existing: Option<EndpointsView>,
    addresses: Seq<EndpointAddressView>,
)
    ensures
        match endpoints_write(svc_name, existing, addresses) {
            EndpointsWriteView::Nothing => true,
            EndpointsWriteView::Replace(ep) => endpoints_write(svc_name, Some(ep), addresses)
                is Nothing,
            EndpointsWriteView::Create(ep) => endpoints_write(svc_name, Some(ep), addresses)
                is Nothing,
        },
{
}

/// Law: only Pods that run, have an address and are selected are backends, and
/// all of those are.
pub proof fn backends_are_reachable(pods: Seq<PodView>, svc: ServiceView, ip: Seq<char>)
    ensures
        backends(pods, svc).contains(EndpointAddressView { ip, port: svc.spec.target_port })
            <==> exists|i: int|
            0 <= i < pods.len() && selects(svc.spec.selector, #[trigger] pods[i]) && reachable_at(
                pods[i],
            ) == Some(ip),
    decreases pods.len(),
{
    let address = EndpointAddressView { ip, port: svc.spec.target_port };
    if pods.len() > 0 {
        let front = pods.drop_last();
        let last = pods.last();
        backends_are_reachable(front, svc, ip);
        let found = backends(front, svc);
        let here = selects(svc.spec.selector, last) && reachable_at(last) == Some(ip);
        assert(last == pods[pods.len() - 1]);
        if found.contains(address) {
            let i = choose|i: int|
                0 <= i < front.len() && selects(svc.spec.selector, #[trigger] front[i])
                    && reachable_at(front[i]) == Some(ip);
            assert(pods[i] == front[i]);
            let k = choose|k: int| 0 <= k < found.len() && found[k] == address;
            assert(backends(pods, svc)[k] == address);
        }
        if here {
            assert(backends(pods, svc).last() == address);
        }
        if backends(pods, svc).contains(address) {
            let k = choose|k: int|
                0 <= k < backends(pods, svc).len() && backends(pods, svc)[k] == address;
            if k < found.len() {
                assert(found[k] == address);
            }
        }
        if exists|i: int|
            0 <= i < pods.len() && selects(svc.spec.selector, #[trigger] pods[i]) && reachable_at(
                pods[i],
            ) == Some(ip) {
            let i = choose|i: int|
                0 <= i < pods.len() && selects(svc.spec.selector, #[trigger] pods[i])
                    && reachable_at(pods[i]) == Some(ip);
            if i < front.len() {
                assert(front[i] == pods[i]);
            }
        }
    }
}

/// A selector has entries, and labels hold each of them with the same value.
pub open spec fn held_by(
    selector: Map<Seq<char>, Seq<char>>,
    labels: Map<Seq<char>, Seq<char>>,
) -> bool {
    &&& exists|k: Seq<char>| #[trigger] selector.contains_key(k)
    &&& forall|k: Seq<char>| #[trigger]
        selector.contains_key(k) ==> labels.contains_key(k) && labels[k] == selector[k]
}

proof fn selecting_is_holding(selector: Map<Seq<char>, Seq<char>>, pod: PodView)
    ensures
        selects(selector, pod) == held_by(selector, pod.metadata.labels),
{
    let labels = pod.metadata.labels;
    if !(exists|k: Seq<char>| #[trigger] selector.contains_key(k)) {
        assert(selector =~= Map::<Seq<char>, Seq<char>>::empty());
    } else {
        let k = choose|k: Seq<char>| #[trigger] selector.contains_key(k);
        assert(selector != Map::<Seq<char>, Seq<char>>::empty());
    }
    if held_by(selector, labels) {
        assert forall|k: Seq<char>| #[trigger] selector.dom().contains(k) implies labels.dom(
        ).contains(k) && selector[k] == labels[k] by {
            assert(selector.contains_key(k));
        }
        assert(selector.submap_of(labels));
    }
    if selects(selector, pod) {
        assert forall|k: Seq<char>| #[trigger]
            selector.contains_key(k) implies labels.contains_key(k) && labels[k]
            == selector[k] by {
            assert(selector.dom().contains(k));
        }
    }
}

/// Law: a selector matches a Pod if it has entries and the Pod's labels hold each of
/// them with the same value; whatever else the labels hold does not matter.
pub proof fn selection_goes_by_labels(pod: Pod, selector: Labels, r: bool)
    requires
        call_ensures(pod_matches, (&pod, &selector), r),
    ensures
        r == held_by(selector@, pod.metadata.labels@),
{
    selecting_is_holding(selector@, pod.deep_view());
}

/// Law: a Pod can be reached where it has reported, if it runs, and nowhere else.
pub proof fn running_pods_are_reached(pod: Pod, ip: Option<String>)
    requires
        call_ensures(backend_ip, (&pod,), ip),
    ensures
        match pod.status {
            Some(s) => if s.phase == PodPhase::Running {
                match s.pod_ip {
                    Some(at) => ip is Some && ip->0@ == at@,
                    None => ip is None,
                }
            } else {
                ip is None
            },
            None => ip is None,
        },
{
}

/// Law: a Pod adds one backend if the service selects it and it runs and has an
/// address, and none otherwise. The backend is its address, with the port that the
/// service sends to; the Pods before it do not matter.
pub proof fn each_pod_adds_its_backend(pods: Seq<PodView>, more: PodView, svc: ServiceView)
    ensures
        backends(Seq::empty(), svc).len() == 0,
        ({
            let wanted = held_by(svc.spec.selector, more.metadata.labels);
            let up = more.status is Some && more.status->0.phase == PodPhase::Running
                && more.status->0.pod_ip is Some;
            backends(pods.push(more), svc) == if wanted && up {
                backends(pods, svc).push(
                    EndpointAddressView {
                        ip: more.status->0.pod_ip->0,
                        port: svc.spec.target_port,
                    },
                )
            } else {
                backends(pods, svc)
            }
        }),
{
    assert(pods.push(more).drop_last() =~= pods);
    selecting_is_holding(svc.spec.selector, more);
}

/// Law: the backends that are asked for are those that the Pods add, all of them and
/// as often, in the order of their addresses.
pub proof fn asked_for_backends_are_sorted(
    pods: Vec<Pod>,
    svc: Service,
    addresses: Vec<EndpointAddress>,
    i: int,
    j: int,
)
    requires
        call_ensures(desired_addresses, (&pods, &svc), addresses),
    ensures
        addresses.deep_view().to_multiset() == backends(
            pods.deep_view(),
            svc.deep_view(),
        ).to_multiset(),
        addresses@.len() == backends(pods.deep_view(), svc.deep_view()).len(),
        0 <= i < j < addresses@.len() ==> !text::text_before(
            addresses@[j].ip@,
            addresses@[i].ip@,
        ),
        0 <= i < addresses@.len() ==> addresses@[i].port == svc.spec.target_port,
{
    let found = backends(pods.deep_view(), svc.deep_view());
    let all = addresses.deep_view();
    order::sorting_orders::<EndpointAddress>(found);
    if 0 <= i < j < addresses@.len() {
        assert(all[i] == addresses@[i].deep_view() && all[j] == addresses@[j].deep_view());
        assert(!<EndpointAddress as Sortable>::precedes(all[j], all[i]));
    }
    if 0 <= i < addresses@.len() {
        assert(all[i] == addresses@[i].deep_view());
        vstd::seq_lib::to_multiset_contains(all, all[i]);
        vstd::seq_lib::to_multiset_contains(found, all[i]);
        assert(all.contains(all[i]));
        assert(found.contains(all[i]));
        let k = choose|k: int| 0 <= k < found.len() && found[k] == all[i];
        backends_bear_the_port(pods.deep_view(), svc.deep_view(), k);
    }
}

proof fn backends_bear_the_port(pods: Seq<PodView>, svc: ServiceView, k: int)
    requires
        0 <= k < backends(pods, svc).len(),
    ensures
        backends(pods, svc)[k].port == svc.spec.target_port,
    decreases pods.len(),
{
    if k < backends(pods.drop_last(), svc).len() {
        backends_bear_the_port(pods.drop_last(), svc, k);
    }
}

/// Law: a Pod wakes each service that selects it, in their order, and no other.
pub proof fn pods_wake_the_services_that_select_them(
    pod: PodView,
    services: Seq<ServiceView>,
    more: ServiceView,
)
    ensures
        backed_by(pod, Seq::empty()).len() == 0,
        backed_by(pod, services.push(more)) == if held_by(
            more.spec.selector,
            pod.metadata.labels,
        ) {
            backed_by(pod, services).push(more.metadata.name)
        } else {
            backed_by(pod, services)
        },
{
    assert(services.push(more).drop_last() =~= services);
    selecting_is_holding(more.spec.selector, pod);
}

/// Law: what is stored for a service that is gone is deleted, in the version it was
/// read in; how that goes does not matter. A failed write of backends fails the round.
pub proof fn backends_go_with_their_service(
    svc_name: Seq<char>,
    existing: Option<EndpointsView>,
    reply: ReplyView,
    words: Seq<char>,
)
    ensures
        next_stage(svc_name, StageView::Reading, ReplyView::Service(None)) == ProgressView::Ask(
            RequestView::GetEndpoints(svc_name),
            StageView::Gone,
        ),
        next_stage(svc_name, StageView::Gone, ReplyView::Endpoints(existing)) == (
        match existing {
            Some(ep) => match ep.metadata.resource_version {
                Some(rv) => ProgressView::Ask(
                    RequestView::DeleteEndpoints { name: svc_name, rv },
                    StageView::Cleaning,
                ),
                None => ProgressView::Finished,
            },
            None => ProgressView::Finished,
        }),
        next_stage(svc_name, StageView::Cleaning, reply) == ProgressView::<StageView>::Finished,
        next_stage(svc_name, StageView::Writing, reply) == (match reply {
            ReplyView::Failed(e) => ProgressView::<StageView>::Aborted(e),
            _ => ProgressView::<StageView>::Finished,
        }),
        next_stage(svc_name, StageView::Reading, ReplyView::Failed(words)) == ProgressView::<
            StageView,
        >::Aborted(words),
{
}


/// Law: a round over a Service reads it. Where it is gone, the backends stored
/// under its name are deleted, over the version they are in. Where it is there,
/// the Pods are read and then the stored backends; these are left alone exactly
/// where they are the ones that the Pods give, and else replaced or created.
pub proof fn services_get_their_backends(
    svc_name: &str,
    first: Progress<Stage>,
    stage: Stage,
    reply: Reply,
    p: Progress<Stage>,
)
    requires
        call_ensures(start, (svc_name,), first),
        call_ensures(reconcile, (svc_name, stage, reply), p),
    ensures
        match first {
            Progress::Ask(Request::GetService(name), Stage::Reading) => name@ == svc_name@,
            _ => false,
        },
        match (stage, reply) {
            (Stage::Reading, Reply::Service(None)) => match p {
                Progress::Ask(Request::GetEndpoints(name), Stage::Gone) => name@ == svc_name@,
                _ => false,
            },
            (Stage::Reading, Reply::Service(Some(svc))) => match p {
                Progress::Ask(Request::ListPods, Stage::Selecting { svc: kept }) => kept.deep_view()
                    == svc.deep_view(),
                _ => false,
            },
            (Stage::Gone, Reply::Endpoints(stored)) => if stored is Some
                && stored->0.metadata.resource_version is Some {
                match p {
                    Progress::Ask(Request::DeleteEndpoints { name, rv }, Stage::Cleaning) => name@
                        == svc_name@ && rv@ == stored->0.metadata.resource_version->0@,
                    _ => false,
                }
            } else {
                p is Finished
            },
            (Stage::Comparing { addresses }, Reply::Endpoints(Some(stored))) => match p {
                Progress::Finished => stored.addresses.deep_view() == addresses.deep_view(),
                Progress::Ask(Request::ReplaceEndpoints(ep), Stage::Writing) => {
                    &&& stored.addresses.deep_view() != addresses.deep_view()
                    &&& ep.addresses.deep_view() == addresses.deep_view()
                    &&& ep.metadata.deep_view() == stored.metadata.deep_view()
                },
                _ => false,
            },
            (Stage::Comparing { addresses }, Reply::Endpoints(None)) => match p {
                Progress::Ask(Request::CreateEndpoints(ep), Stage::Writing) => {
                    &&& ep.addresses.deep_view() == addresses.deep_view()
                    &&& ep.metadata.name@ == svc_name@
                },
                _ => false,
            },
            (Stage::Writing, Reply::Failed(e)) => match p {
                Progress::Aborted(m) => m@ == e@,
                _ => false,
            },
            (Stage::Writing, _) => p is Finished,
            (Stage::Cleaning, _) => p is Finished,
            (_, Reply::Failed(e)) => match p {
                Progress::Aborted(m) => m@ == e@,
                _ => false,
            },
            _ => true,
        },
{
}

} // verus!
