//! What each request of a client does to the stored objects.

use vstd::prelude::*;

use crate::apiserver::command::{ApplyOutcome, KindOp, Object, ObjectView, Op, StoreCommand};
use crate::apiserver::handlers;
use crate::apiserver::handlers::{
    bind_pod, create_node, create_pod, create_replicaset, delete_node, delete_pod,
    delete_replicaset, replace_node_spec, replace_node_status, replace_pod_spec,
    replace_pod_status, replace_replicaset_spec, replace_replicaset_status, ApiError, AppState,
    Binding, RvParams,
};
use crate::apiserver::laws;
use crate::apiserver::services;
use crate::apiserver::services::{
    create_endpoints, create_service, delete_endpoints, delete_service, replace_endpoints,
    replace_service_spec,
};
use crate::endpoints::Endpoints;
use crate::identity;
use crate::meta::MetaView;
use crate::node::{Node, NodeStatus};
use crate::pod::{Pod, PodStatus};
use crate::replicaset::{ReplicaSet, ReplicaSetStatus};
use crate::service::Service;

verus! {

/// Law: creating a Pod stores it where it is valid and its name is free, and
/// nothing else changes; where it is refused nothing changes at all.
pub proof fn pods_are_created(state: &mut AppState, pod: Pod, r: Result<Object, ApiError>)
    requires
        call_ensures(create_pod, (state, pod), r),
    ensures
        ({
            let was = old(state)@;
            let now = final(state)@;
            let name = pod.metadata.name@;
            let kept = now.pods.objects[name];
            &&& r is Ok <==> name.len() > 0 && pod.spec.containers@.len() > 0
                && !was.pods.objects.contains_key(name)
            &&& r is Ok ==> {
                &&& now.pods.objects.contains_key(name)
                &&& r->Ok_0.deep_view() == ObjectView::Pod(kept)
                &&& kept.spec == pod.deep_view().spec && kept.status is None
                &&& kept.metadata.name == name
                &&& kept.metadata.labels == pod.metadata.labels@
                &&& kept.metadata.uid is Some
                &&& laws::others_stay(was.pods.objects, now.pods.objects, name)
            }
            &&& r is Err ==> now == was
            &&& now.replicasets == was.replicasets
            &&& now.nodes == was.nodes
            &&& now.services == was.services
            &&& now.endpoints == was.endpoints
        }),
{
    let (uid, created) = choose|uid: Seq<char>, created: Seq<char>|
        identity::is_uid(uid) && (final(state)@, handlers::answer_of(r)) == handlers::performed(
            old(state)@,
            #[trigger] handlers::create_planned::<Pod>(pod.deep_view(), uid, created),
        );
    laws::created_pods_are_stored(old(state)@, pod.deep_view(), uid, created);
}

/// Law: replacing a Pod stores what was sent where it is valid, bears the name it
/// is sent to and names the stored version; nothing else changes. Where it is
/// refused nothing changes at all.
pub proof fn pods_are_replaced(
    state: &mut AppState,
    name: &str,
    pod: Pod,
    r: Result<Object, ApiError>,
)
    requires
        call_ensures(replace_pod_spec, (state, name, pod), r),
    ensures
        ({
            let was = old(state)@;
            let now = final(state)@;
            let stored = was.pods.objects[name@];
            let kept = now.pods.objects[name@];
            &&& r is Ok <==> name@.len() > 0 && pod.spec.containers@.len() > 0
                && pod.metadata.name@ == name@ && was.pods.objects.contains_key(name@)
                && pod.metadata.resource_version is Some && pod.metadata.resource_version->0@
                == laws::version_of(stored.metadata)
            &&& r is Ok ==> {
                &&& now.pods.objects.contains_key(name@)
                &&& r->Ok_0.deep_view() == ObjectView::Pod(kept)
                &&& kept.spec == pod.deep_view().spec && kept.status == stored.status
                &&& kept.metadata.name == name@
                &&& kept.metadata.labels == pod.metadata.labels@
                &&& kept.metadata.uid == stored.metadata.uid
                &&& laws::others_stay(was.pods.objects, now.pods.objects, name@)
            }
            &&& r is Err ==> now == was
            &&& now.replicasets == was.replicasets
            &&& now.nodes == was.nodes
            &&& now.services == was.services
            &&& now.endpoints == was.endpoints
        }),
{
    laws::replaced_pods_are_stored(old(state)@, name@, pod.deep_view());
}

/// Law: deleting a Pod removes it where the stored version is named, and nothing
/// else changes; where it is refused nothing changes at all.
pub proof fn pods_are_deleted(
    state: &mut AppState,
    name: &str,
    params: RvParams,
    r: Result<Object, ApiError>,
)
    requires
        call_ensures(delete_pod, (state, name, params), r),
    ensures
        ({
            let was = old(state)@;
            let now = final(state)@;
            &&& r is Ok <==> was.pods.objects.contains_key(name@) && params.resource_version is Some
                && params.resource_version->0@ == laws::version_of(
                was.pods.objects[name@].metadata,
            )
            &&& r is Ok ==> !now.pods.objects.contains_key(name@) && laws::others_stay(
                was.pods.objects,
                now.pods.objects,
                name@,
            )
            &&& r is Err ==> now == was
            &&& now.replicasets == was.replicasets
            &&& now.nodes == was.nodes
            &&& now.services == was.services
            &&& now.endpoints == was.endpoints
        }),
{
    laws::deleted_pods_are_gone(old(state)@, name@, params.resource_version.deep_view());
}

/// Law: setting the status of a Pod changes that and the version, where the
/// stored version is named; where it is refused nothing changes at all.
pub proof fn statuses_of_pods_are_set(
    state: &mut AppState,
    name: &str,
    params: RvParams,
    status: PodStatus,
    r: Result<Object, ApiError>,
)
    requires
        call_ensures(replace_pod_status, (state, name, params, status), r),
    ensures
        ({
            let was = old(state)@;
            let now = final(state)@;
            let stored = was.pods.objects[name@];
            let kept = now.pods.objects[name@];
            &&& r is Ok <==> was.pods.objects.contains_key(name@) && params.resource_version is Some
                && params.resource_version->0@ == laws::version_of(stored.metadata)
            &&& r is Ok ==> {
                &&& now.pods.objects.contains_key(name@)
                &&& kept.status == Some(status.deep_view())
                &&& kept.spec == stored.spec
                &&& kept.metadata == (MetaView {
                    resource_version: kept.metadata.resource_version,
                    ..stored.metadata
                })
                &&& r->Ok_0.deep_view() == ObjectView::Pod(kept)
                &&& laws::others_stay(was.pods.objects, now.pods.objects, name@)
            }
            &&& r is Err ==> now == was
            &&& now.replicasets == was.replicasets
            &&& now.nodes == was.nodes
            &&& now.services == was.services
            &&& now.endpoints == was.endpoints
        }),
{
    laws::statuses_of_pods_are_stored(
        old(state)@,
        name@,
        params.resource_version.deep_view(),
        status.deep_view(),
    );
}

/// Law: creating a ReplicaSet stores it where it is valid and its name is free, and
/// nothing else changes; where it is refused nothing changes at all.
pub proof fn replicasets_are_created(
    state: &mut AppState,
    rs: ReplicaSet,
    r: Result<Object, ApiError>,
)
    requires
        call_ensures(create_replicaset, (state, rs), r),
    ensures
        ({
            let was = old(state)@;
            let now = final(state)@;
            let name = rs.metadata.name@;
            let kept = now.replicasets.objects[name];
            &&& r is Ok <==> name.len() > 0
                && rs.spec.selector.match_labels@ != Map::<Seq<char>, Seq<char>>::empty()
                && !was.replicasets.objects.contains_key(name)
            &&& r is Ok ==> {
                &&& now.replicasets.objects.contains_key(name)
                &&& r->Ok_0.deep_view() == ObjectView::ReplicaSet(kept)
                &&& kept.spec == rs.deep_view().spec && kept.status is None
                &&& kept.metadata.name == name
                &&& kept.metadata.labels == rs.metadata.labels@
                &&& kept.metadata.uid is Some
                &&& laws::others_stay(was.replicasets.objects, now.replicasets.objects, name)
            }
            &&& r is Err ==> now == was
            &&& now.pods == was.pods
            &&& now.nodes == was.nodes
            &&& now.services == was.services
            &&& now.endpoints == was.endpoints
        }),
{
    let (uid, created) = choose|uid: Seq<char>, created: Seq<char>|
        identity::is_uid(uid) && (final(state)@, handlers::answer_of(r)) == handlers::performed(
            old(state)@,
            #[trigger] handlers::create_planned::<ReplicaSet>(rs.deep_view(), uid, created),
        );
    laws::created_replicasets_are_stored(old(state)@, rs.deep_view(), uid, created);
}

/// Law: replacing a ReplicaSet stores what was sent where it is valid, bears the name it
/// is sent to and names the stored version; nothing else changes. Where it is
/// refused nothing changes at all.
pub proof fn replicasets_are_replaced(
    state: &mut AppState,
    name: &str,
    rs: ReplicaSet,
    r: Result<Object, ApiError>,
)
    requires
        call_ensures(replace_replicaset_spec, (state, name, rs), r),
    ensures
        ({
            let was = old(state)@;
            let now = final(state)@;
            let stored = was.replicasets.objects[name@];
            let kept = now.replicasets.objects[name@];
            &&& r is Ok <==> name@.len() > 0
                && rs.spec.selector.match_labels@ != Map::<Seq<char>, Seq<char>>::empty()
                && rs.metadata.name@ == name@ && was.replicasets.objects.contains_key(name@)
                && rs.metadata.resource_version is Some && rs.metadata.resource_version->0@
                == laws::version_of(stored.metadata)
            &&& r is Ok ==> {
                &&& now.replicasets.objects.contains_key(name@)
                &&& r->Ok_0.deep_view() == ObjectView::ReplicaSet(kept)
                &&& kept.spec == rs.deep_view().spec && kept.status == stored.status
                &&& kept.metadata.name == name@
                &&& kept.metadata.labels == rs.metadata.labels@
                &&& kept.metadata.uid == stored.metadata.uid
                &&& laws::others_stay(was.replicasets.objects, now.replicasets.objects, name@)
            }
            &&& r is Err ==> now == was
            &&& now.pods == was.pods
            &&& now.nodes == was.nodes
            &&& now.services == was.services
            &&& now.endpoints == was.endpoints
        }),
{
    laws::replaced_replicasets_are_stored(old(state)@, name@, rs.deep_view());
}

/// Law: deleting a ReplicaSet removes it where the stored version is named, and nothing
/// else changes; where it is refused nothing changes at all.
pub proof fn replicasets_are_deleted(
    state: &mut AppState,
    name: &str,
    params: RvParams,
    r: Result<Object, ApiError>,
)
    requires
        call_ensures(delete_replicaset, (state, name, params), r),
    ensures
        ({
            let was = old(state)@;
            let now = final(state)@;
            &&& r is Ok <==> was.replicasets.objects.contains_key(name@)
                && params.resource_version is Some
                && params.resource_version->0@ == laws::version_of(
                was.replicasets.objects[name@].metadata,
            )
            &&& r is Ok ==> !now.replicasets.objects.contains_key(name@) && laws::others_stay(
                was.replicasets.objects,
                now.replicasets.objects,
                name@,
            )
            &&& r is Err ==> now == was
            &&& now.pods == was.pods
            &&& now.nodes == was.nodes
            &&& now.services == was.services
            &&& now.endpoints == was.endpoints
        }),
{
    laws::deleted_replicasets_are_gone(old(state)@, name@, params.resource_version.deep_view());
}

/// Law: setting the status of a ReplicaSet changes that and the version, where the
/// stored version is named; where it is refused nothing changes at all.
pub proof fn statuses_of_replicasets_are_set(
    state: &mut AppState,
    name: &str,
    params: RvParams,
    status: ReplicaSetStatus,
    r: Result<Object, ApiError>,
)
    requires
        call_ensures(replace_replicaset_status, (state, name, params, status), r),
    ensures
        ({
            let was = old(state)@;
            let now = final(state)@;
            let stored = was.replicasets.objects[name@];
            let kept = now.replicasets.objects[name@];
            &&& r is Ok <==> was.replicasets.objects.contains_key(name@)
                && params.resource_version is Some
                && params.resource_version->0@ == laws::version_of(stored.metadata)
            &&& r is Ok ==> {
                &&& now.replicasets.objects.contains_key(name@)
                &&& kept.status == Some(status)
                &&& kept.spec == stored.spec
                &&& kept.metadata == (MetaView {
                    resource_version: kept.metadata.resource_version,
                    ..stored.metadata
                })
                &&& r->Ok_0.deep_view() == ObjectView::ReplicaSet(kept)
                &&& laws::others_stay(was.replicasets.objects, now.replicasets.objects, name@)
            }
            &&& r is Err ==> now == was
            &&& now.pods == was.pods
            &&& now.nodes == was.nodes
            &&& now.services == was.services
            &&& now.endpoints == was.endpoints
        }),
{
    laws::statuses_of_replicasets_are_stored(
        old(state)@,
        name@,
        params.resource_version.deep_view(),
        status,
    );
}

/// Law: a node is registered where its name is free, with the slice that it asks
/// for, or else with one of its own. Nothing else that is stored changes.
pub proof fn nodes_are_created(state: &mut AppState, node: Node, r: Result<Object, ApiError>)
    requires
        call_ensures(create_node, (state, node), r),
    ensures
        ({
            let was = old(state)@;
            let now = final(state)@;
            let name = node.metadata.name@;
            let kept = now.nodes.objects[name];
            &&& r is Ok ==> name.len() > 0 && !was.nodes.objects.contains_key(name)
            &&& name.len() > 0 && !was.nodes.objects.contains_key(name)
                && node.spec.pod_cidr is Some ==> r is Ok
            &&& r is Ok ==> {
                &&& now.nodes.objects.contains_key(name)
                &&& r->Ok_0.deep_view() == ObjectView::Node(kept)
                &&& kept.spec.unschedulable == node.spec.unschedulable && kept.status is None
                &&& kept.metadata.name == name
                &&& kept.metadata.labels == node.metadata.labels@
                &&& kept.metadata.uid is Some
                &&& node.spec.pod_cidr is Some ==> kept.spec.pod_cidr == Some(
                    node.spec.pod_cidr->0@,
                )
                &&& kept.spec.pod_cidr is Some
                &&& laws::others_stay(was.nodes.objects, now.nodes.objects, name)
            }
            &&& r is Err ==> now.nodes == was.nodes
            &&& now.pods == was.pods
            &&& now.replicasets == was.replicasets
            &&& now.services == was.services
            &&& now.endpoints == was.endpoints
        }),
{
    let (uid, created) = choose|uid: Seq<char>, created: Seq<char>|
        identity::is_uid(uid) && ({
            let (drawn, planned) = #[trigger] handlers::node_planned(
                old(state)@,
                node.deep_view(),
                uid,
                created,
            );
            (final(state)@, handlers::answer_of(r)) == handlers::performed(drawn, planned)
        });
    laws::registered_nodes_have_a_slice(old(state)@, node.deep_view(), uid, created);
}

/// Law: replacing a node stores what was sent where it is valid, bears the name it
/// is sent to and names the stored version; nothing else changes. Where it is
/// refused nothing changes at all.
pub proof fn nodes_are_replaced(
    state: &mut AppState,
    name: &str,
    node: Node,
    r: Result<Object, ApiError>,
)
    requires
        call_ensures(replace_node_spec, (state, name, node), r),
    ensures
        ({
            let was = old(state)@;
            let now = final(state)@;
            let stored = was.nodes.objects[name@];
            let kept = now.nodes.objects[name@];
            &&& r is Ok <==> name@.len() > 0
                && node.metadata.name@ == name@ && was.nodes.objects.contains_key(name@)
                && node.metadata.resource_version is Some && node.metadata.resource_version->0@
                == laws::version_of(stored.metadata)
            &&& r is Ok ==> {
                &&& now.nodes.objects.contains_key(name@)
                &&& r->Ok_0.deep_view() == ObjectView::Node(kept)
                &&& kept.spec == node.deep_view().spec && kept.status == stored.status
                &&& kept.metadata.name == name@
                &&& kept.metadata.labels == node.metadata.labels@
                &&& kept.metadata.uid == stored.metadata.uid
                &&& laws::others_stay(was.nodes.objects, now.nodes.objects, name@)
            }
            &&& r is Err ==> now == was
            &&& now.pods == was.pods
            &&& now.replicasets == was.replicasets
            &&& now.services == was.services
            &&& now.endpoints == was.endpoints
        }),
{
    laws::replaced_nodes_are_stored(old(state)@, name@, node.deep_view());
}

/// Law: deleting a node removes it where the stored version is named, and nothing
/// else changes; where it is refused nothing changes at all.
pub proof fn nodes_are_deleted(
    state: &mut AppState,
    name: &str,
    params: RvParams,
    r: Result<Object, ApiError>,
)
    requires
        call_ensures(delete_node, (state, name, params), r),
    ensures
        ({
            let was = old(state)@;
            let now = final(state)@;
            &&& r is Ok <==> was.nodes.objects.contains_key(name@)
                && params.resource_version is Some
                && params.resource_version->0@ == laws::version_of(
                was.nodes.objects[name@].metadata,
            )
            &&& r is Ok ==> !now.nodes.objects.contains_key(name@) && laws::others_stay(
                was.nodes.objects,
                now.nodes.objects,
                name@,
            )
            &&& r is Err ==> now == was
            &&& now.pods == was.pods
            &&& now.replicasets == was.replicasets
            &&& now.services == was.services
            &&& now.endpoints == was.endpoints
        }),
{
    laws::deleted_nodes_are_gone(old(state)@, name@, params.resource_version.deep_view());
}

/// Law: setting the status of a node changes that and the version, where the
/// stored version is named; where it is refused nothing changes at all.
pub proof fn statuses_of_nodes_are_set(
    state: &mut AppState,
    name: &str,
    params: RvParams,
    status: NodeStatus,
    r: Result<Object, ApiError>,
)
    requires
        call_ensures(replace_node_status, (state, name, params, status), r),
    ensures
        ({
            let was = old(state)@;
            let now = final(state)@;
            let stored = was.nodes.objects[name@];
            let kept = now.nodes.objects[name@];
            &&& r is Ok <==> was.nodes.objects.contains_key(name@)
                && params.resource_version is Some
                && params.resource_version->0@ == laws::version_of(stored.metadata)
            &&& r is Ok ==> {
                &&& now.nodes.objects.contains_key(name@)
                &&& kept.status == Some(status.deep_view())
                &&& kept.spec == stored.spec
                &&& kept.metadata == (MetaView {
                    resource_version: kept.metadata.resource_version,
                    ..stored.metadata
                })
                &&& r->Ok_0.deep_view() == ObjectView::Node(kept)
                &&& laws::others_stay(was.nodes.objects, now.nodes.objects, name@)
            }
            &&& r is Err ==> now == was
            &&& now.pods == was.pods
            &&& now.replicasets == was.replicasets
            &&& now.services == was.services
            &&& now.endpoints == was.endpoints
        }),
{
    laws::statuses_of_nodes_are_stored(
        old(state)@,
        name@,
        params.resource_version.deep_view(),
        status.deep_view(),
    );
}

/// Law: a Service is created where its name is free, at the address that it asks
/// for, or else at one of its own. Nothing else that is stored changes.
pub proof fn services_are_created(state: &mut AppState, svc: Service, r: Result<Object, ApiError>)
    requires
        call_ensures(create_service, (state, svc), r),
    ensures
        ({
            let was = old(state)@;
            let now = final(state)@;
            let name = svc.metadata.name@;
            let kept = now.services.objects[name];
            &&& r is Ok ==> name.len() > 0 && !was.services.objects.contains_key(name)
            &&& name.len() > 0 && !was.services.objects.contains_key(name)
                && svc.spec.cluster_ip is Some ==> r is Ok
            &&& r is Ok ==> {
                &&& now.services.objects.contains_key(name)
                &&& r->Ok_0.deep_view() == ObjectView::Service(kept)
                &&& kept.spec.selector == svc.spec.selector@ && kept.spec.port == svc.spec.port
                    && kept.spec.target_port == svc.spec.target_port
                &&& kept.metadata.name == name
                &&& kept.metadata.labels == svc.metadata.labels@
                &&& kept.metadata.uid is Some
                &&& svc.spec.cluster_ip is Some ==> kept.spec.cluster_ip == Some(
                    svc.spec.cluster_ip->0@,
                )
                &&& kept.spec.cluster_ip is Some
                &&& laws::others_stay(was.services.objects, now.services.objects, name)
            }
            &&& r is Err ==> now.services == was.services
            &&& now.pods == was.pods
            &&& now.replicasets == was.replicasets
            &&& now.nodes == was.nodes
            &&& now.endpoints == was.endpoints
        }),
{
    let (uid, created) = choose|uid: Seq<char>, created: Seq<char>|
        identity::is_uid(uid) && ({
            let (drawn, planned) = #[trigger] services::service_planned(
                old(state)@,
                svc.deep_view(),
                uid,
                created,
            );
            (final(state)@, handlers::answer_of(r)) == handlers::performed(drawn, planned)
        });
    laws::created_services_have_an_address(old(state)@, svc.deep_view(), uid, created);
}

/// Law: replacing a Service stores what was sent where it is valid, bears the name it
/// is sent to and names the stored version; nothing else changes. Where it is
/// refused nothing changes at all.
pub proof fn services_are_replaced(
    state: &mut AppState,
    name: &str,
    svc: Service,
    r: Result<Object, ApiError>,
)
    requires
        call_ensures(replace_service_spec, (state, name, svc), r),
    ensures
        ({
            let was = old(state)@;
            let now = final(state)@;
            let stored = was.services.objects[name@];
            let kept = now.services.objects[name@];
            &&& r is Ok <==> name@.len() > 0
                && svc.metadata.name@ == name@ && was.services.objects.contains_key(name@)
                && svc.metadata.resource_version is Some && svc.metadata.resource_version->0@
                == laws::version_of(stored.metadata)
            &&& r is Ok ==> {
                &&& now.services.objects.contains_key(name@)
                &&& r->Ok_0.deep_view() == ObjectView::Service(kept)
                &&& kept.spec.selector == svc.spec.selector@ && kept.spec.port == svc.spec.port
                    && kept.spec.target_port == svc.spec.target_port
                    && (stored.spec.cluster_ip is Some
                    ==> kept.spec.cluster_ip == stored.spec.cluster_ip)
                &&& kept.metadata.name == name@
                &&& kept.metadata.labels == svc.metadata.labels@
                &&& kept.metadata.uid == stored.metadata.uid
                &&& laws::others_stay(was.services.objects, now.services.objects, name@)
            }
            &&& r is Err ==> now == was
            &&& now.pods == was.pods
            &&& now.replicasets == was.replicasets
            &&& now.nodes == was.nodes
            &&& now.endpoints == was.endpoints
        }),
{
    laws::replaced_services_keep_their_address(old(state)@, name@, svc.deep_view());
    laws::replaced_services_are_stored(
        old(state)@,
        name@,
        services::with_kept_address(old(state)@, name@, svc.deep_view()),
    );
}

/// Law: deleting a Service removes it where the stored version is named, and nothing
/// else changes; where it is refused nothing changes at all.
pub proof fn services_are_deleted(
    state: &mut AppState,
    name: &str,
    params: RvParams,
    r: Result<Object, ApiError>,
)
    requires
        call_ensures(delete_service, (state, name, params), r),
    ensures
        ({
            let was = old(state)@;
            let now = final(state)@;
            &&& r is Ok <==> was.services.objects.contains_key(name@)
                && params.resource_version is Some
                && params.resource_version->0@ == laws::version_of(
                was.services.objects[name@].metadata,
            )
            &&& r is Ok ==> !now.services.objects.contains_key(name@) && laws::others_stay(
                was.services.objects,
                now.services.objects,
                name@,
            )
            &&& r is Err ==> now == was
            &&& now.pods == was.pods
            &&& now.replicasets == was.replicasets
            &&& now.nodes == was.nodes
            &&& now.endpoints == was.endpoints
        }),
{
    laws::deleted_services_are_gone(old(state)@, name@, params.resource_version.deep_view());
}

/// Law: creating the Service's backends stores it where it is valid and its name is free, and
/// nothing else changes; where it is refused nothing changes at all.
pub proof fn endpoints_are_created(state: &mut AppState, ep: Endpoints, r: Result<Object, ApiError>)
    requires
        call_ensures(create_endpoints, (state, ep), r),
    ensures
        ({
            let was = old(state)@;
            let now = final(state)@;
            let name = ep.metadata.name@;
            let kept = now.endpoints.objects[name];
            &&& r is Ok <==> name.len() > 0
                && !was.endpoints.objects.contains_key(name)
            &&& r is Ok ==> {
                &&& now.endpoints.objects.contains_key(name)
                &&& r->Ok_0.deep_view() == ObjectView::Endpoints(kept)
                &&& kept.addresses == ep.addresses.deep_view()
                &&& kept.metadata.name == name
                &&& kept.metadata.labels == ep.metadata.labels@
                &&& kept.metadata.uid is Some
                &&& laws::others_stay(was.endpoints.objects, now.endpoints.objects, name)
            }
            &&& r is Err ==> now == was
            &&& now.pods == was.pods
            &&& now.replicasets == was.replicasets
            &&& now.nodes == was.nodes
            &&& now.services == was.services
        }),
{
    let (uid, created) = choose|uid: Seq<char>, created: Seq<char>|
        identity::is_uid(uid) && (final(state)@, handlers::answer_of(r)) == handlers::performed(
            old(state)@,
            #[trigger] handlers::create_planned::<Endpoints>(ep.deep_view(), uid, created),
        );
    laws::created_endpoints_are_stored(old(state)@, ep.deep_view(), uid, created);
}

/// Law: replacing the Service's backends stores what was sent where it is valid, bears the name it
/// is sent to and names the stored version; nothing else changes. Where it is
/// refused nothing changes at all.
pub proof fn endpoints_are_replaced(
    state: &mut AppState,
    name: &str,
    ep: Endpoints,
    r: Result<Object, ApiError>,
)
    requires
        call_ensures(replace_endpoints, (state, name, ep), r),
    ensures
        ({
            let was = old(state)@;
            let now = final(state)@;
            let stored = was.endpoints.objects[name@];
            let kept = now.endpoints.objects[name@];
            &&& r is Ok <==> name@.len() > 0
                && ep.metadata.name@ == name@ && was.endpoints.objects.contains_key(name@)
                && ep.metadata.resource_version is Some && ep.metadata.resource_version->0@
                == laws::version_of(stored.metadata)
            &&& r is Ok ==> {
                &&& now.endpoints.objects.contains_key(name@)
                &&& r->Ok_0.deep_view() == ObjectView::Endpoints(kept)
                &&& kept.addresses == ep.addresses.deep_view()
                &&& kept.metadata.name == name@
                &&& kept.metadata.labels == ep.metadata.labels@
                &&& kept.metadata.uid == stored.metadata.uid
                &&& laws::others_stay(was.endpoints.objects, now.endpoints.objects, name@)
            }
            &&& r is Err ==> now == was
            &&& now.pods == was.pods
            &&& now.replicasets == was.replicasets
            &&& now.nodes == was.nodes
            &&& now.services == was.services
        }),
{
    laws::replaced_endpoints_are_stored(old(state)@, name@, ep.deep_view());
}

/// Law: deleting the Service's backends removes it where the stored version is named, and nothing
/// else changes; where it is refused nothing changes at all.
pub proof fn endpoints_are_deleted(
    state: &mut AppState,
    name: &str,
    params: RvParams,
    r: Result<Object, ApiError>,
)
    requires
        call_ensures(delete_endpoints, (state, name, params), r),
    ensures
        ({
            let was = old(state)@;
            let now = final(state)@;
            &&& r is Ok <==> was.endpoints.objects.contains_key(name@)
                && params.resource_version is Some
                && params.resource_version->0@ == laws::version_of(
                was.endpoints.objects[name@].metadata,
            )
            &&& r is Ok ==> !now.endpoints.objects.contains_key(name@) && laws::others_stay(
                was.endpoints.objects,
                now.endpoints.objects,
                name@,
            )
            &&& r is Err ==> now == was
            &&& now.pods == was.pods
            &&& now.replicasets == was.replicasets
            &&& now.nodes == was.nodes
            &&& now.services == was.services
        }),
{
    laws::deleted_endpoints_are_gone(old(state)@, name@, params.resource_version.deep_view());
}

/// Law: binding a stored Pod to a node sets its node and leaves the rest of what
/// it asks for, its labels and its status; where no node is named or no Pod is
/// stored nothing changes at all.
pub proof fn pods_are_bound(
    state: &mut AppState,
    name: &str,
    binding: Binding,
    r: Result<Object, ApiError>,
)
    requires
        call_ensures(bind_pod, (state, name, binding), r),
        old(state)@.pods.objects.contains_key(name@) ==> old(
            state,
        )@.pods.objects[name@].metadata.resource_version is Some,
    ensures
        ({
            let was = old(state)@;
            let now = final(state)@;
            let stored = was.pods.objects[name@];
            let kept = now.pods.objects[name@];
            &&& r is Ok <==> binding.node_name@.len() > 0 && was.pods.objects.contains_key(name@)
            &&& r is Ok ==> {
                &&& now.pods.objects.contains_key(name@)
                &&& kept.spec.node_name == Some(binding.node_name@)
                &&& kept.spec.containers == stored.spec.containers
                &&& kept.status == stored.status
                &&& kept.metadata.labels == stored.metadata.labels
                &&& kept.metadata.uid == stored.metadata.uid
                &&& r->Ok_0.deep_view() == ObjectView::Pod(kept)
                &&& laws::others_stay(was.pods.objects, now.pods.objects, name@)
            }
            &&& r is Err ==> now == was
            &&& now.replicasets == was.replicasets
            &&& now.nodes == was.nodes
            &&& now.services == was.services
            &&& now.endpoints == was.endpoints
        }),
{
    laws::bindings_set_the_node(old(state)@, name@, binding.node_name@);
}


/// Law: a command that cannot be read changes nothing, and neither does one for
/// a kind that is not known; the answer says why.
pub proof fn unreadable_commands_change_nothing(
    state: &mut AppState,
    cmd: StoreCommand,
    out: ApplyOutcome,
)
    requires
        call_ensures(AppState::apply, (state, cmd), out),
    ensures
        match cmd.op {
            KindOp::Unknown(kind) => final(state)@ == old(state)@ && (match out {
                ApplyOutcome::Internal(m) => m@ == "unknown command kind: "@ + kind@,
                _ => false,
            }),
            KindOp::Pods(Op::Create { obj: Err(e) }) => final(state)@ == old(state)@ && (match out {
                ApplyOutcome::Internal(m) => m@ == "bad create payload: "@ + e@,
                _ => false,
            }),
            KindOp::Pods(Op::ReplaceSpec { name, obj: Err(e) }) => final(state)@ == old(state)@ && (
            match out {
                ApplyOutcome::Internal(m) => m@ == "bad replace payload: "@ + e@,
                _ => false,
            }),
            _ => true,
        },
{
}

} // verus!
