//! What two objects of the same contents have in common: everything.

use vstd::prelude::*;

use crate::duplicate::{DeepView, Duplicate};
use crate::endpoints::Endpoints;
use crate::meta::{ObjectMeta, OwnerReference};
use crate::node::Node;
use crate::pod::{Container, ContainerStatus, ContainerStatusState, Pod, PodSpec, PodStatus};
use crate::replicaset::ReplicaSet;
use crate::service::Service;

verus! {

/// The same text, or none in both.
pub open spec fn same_text(a: Option<String>, b: Option<String>) -> bool {
    match (a, b) {
        (Some(a), Some(b)) => a@ == b@,
        (None, None) => true,
        _ => false,
    }
}

pub open spec fn same_owner(a: OwnerReference, b: OwnerReference) -> bool {
    &&& a.api_version@ == b.api_version@
    &&& a.kind@ == b.kind@
    &&& a.name@ == b.name@
    &&& a.uid@ == b.uid@
    &&& a.controller == b.controller
}

pub open spec fn same_meta(a: ObjectMeta, b: ObjectMeta) -> bool {
    &&& a.name@ == b.name@
    &&& same_text(a.uid, b.uid)
    &&& same_text(a.resource_version, b.resource_version)
    &&& a.generation == b.generation
    &&& same_text(a.creation_timestamp, b.creation_timestamp)
    &&& a.labels@ == b.labels@
    &&& a.owner_references@.len() == b.owner_references@.len()
    &&& forall|i: int|
        0 <= i < a.owner_references@.len() ==> same_owner(
            #[trigger] a.owner_references@[i],
            b.owner_references@[i],
        )
}

pub open spec fn same_container(a: Container, b: Container) -> bool {
    &&& a.name@ == b.name@
    &&& a.image@ == b.image@
    &&& a.command@.len() == b.command@.len()
    &&& forall|i: int|
        0 <= i < a.command@.len() ==> (#[trigger] a.command@[i])@ == b.command@[i]@
}

pub open spec fn same_pod_spec(a: PodSpec, b: PodSpec) -> bool {
    &&& same_text(a.node_name, b.node_name)
    &&& a.containers@.len() == b.containers@.len()
    &&& forall|i: int|
        0 <= i < a.containers@.len() ==> same_container(
            #[trigger] a.containers@[i],
            b.containers@[i],
        )
}

pub open spec fn same_container_status(a: ContainerStatus, b: ContainerStatus) -> bool {
    &&& a.name@ == b.name@
    &&& a.ready == b.ready
    &&& a.restart_count == b.restart_count
    &&& match (a.state, b.state) {
        (ContainerStatusState::Waiting, ContainerStatusState::Waiting) => true,
        (
            ContainerStatusState::Running { started_at: s },
            ContainerStatusState::Running { started_at: t },
        ) => s@ == t@,
        (
            ContainerStatusState::Terminated { exit_code: s },
            ContainerStatusState::Terminated { exit_code: t },
        ) => s == t,
        _ => false,
    }
}

pub open spec fn same_pod_status(a: PodStatus, b: PodStatus) -> bool {
    &&& a.phase == b.phase
    &&& a.observed_generation == b.observed_generation
    &&& same_text(a.pod_ip, b.pod_ip)
    &&& a.container_statuses@.len() == b.container_statuses@.len()
    &&& forall|i: int|
        0 <= i < a.container_statuses@.len() ==> same_container_status(
            #[trigger] a.container_statuses@[i],
            b.container_statuses@[i],
        )
}

proof fn texts_are_told_apart(a: Option<String>, b: Option<String>)
    requires
        a.deep_view() == b.deep_view(),
    ensures
        same_text(a, b),
{
}

proof fn lists_are_told_apart<T: DeepView>(a: Vec<T>, b: Vec<T>)
    requires
        a.deep_view() == b.deep_view(),
    ensures
        a@.len() == b@.len(),
        forall|i: int|
            0 <= i < a@.len() ==> (#[trigger] a@[i]).deep_view() == b@[i].deep_view(),
{
    let (x, y) = (a.deep_view(), b.deep_view());
    assert(x.len() == a@.len() && y.len() == b@.len());
    assert forall|i: int| 0 <= i < a@.len() implies (#[trigger] a@[i]).deep_view()
        == b@[i].deep_view() by {
        assert(x[i] == a@[i].deep_view() && y[i] == b@[i].deep_view());
    }
}

/// Law: metadata of the same contents is the same in every field.
pub proof fn metadata_is_told_apart(a: ObjectMeta, b: ObjectMeta)
    requires
        a.deep_view() == b.deep_view(),
    ensures
        same_meta(a, b),
{
    texts_are_told_apart(a.uid, b.uid);
    texts_are_told_apart(a.resource_version, b.resource_version);
    texts_are_told_apart(a.creation_timestamp, b.creation_timestamp);
    lists_are_told_apart(a.owner_references, b.owner_references);
    assert forall|i: int| 0 <= i < a.owner_references@.len() implies same_owner(
        #[trigger] a.owner_references@[i],
        b.owner_references@[i],
    ) by {
        assert(a.owner_references@[i].deep_view() == b.owner_references@[i].deep_view());
    }
}

/// Law: Pod specs of the same contents are the same in every field of every
/// container.
pub proof fn pod_specs_are_told_apart(a: PodSpec, b: PodSpec)
    requires
        a.deep_view() == b.deep_view(),
    ensures
        same_pod_spec(a, b),
{
    texts_are_told_apart(a.node_name, b.node_name);
    lists_are_told_apart(a.containers, b.containers);
    assert forall|i: int| 0 <= i < a.containers@.len() implies same_container(
        #[trigger] a.containers@[i],
        b.containers@[i],
    ) by {
        let (x, y) = (a.containers@[i], b.containers@[i]);
        assert(a.containers@[i].deep_view() == b.containers@[i].deep_view());
        lists_are_told_apart(x.command, y.command);
        assert forall|k: int| 0 <= k < x.command@.len() implies (#[trigger] x.command@[k])@
            == y.command@[k]@ by {
            assert(x.command@[k].deep_view() == y.command@[k].deep_view());
        }
    }
}

/// Law: Pod statuses of the same contents are the same in every field.
pub proof fn pod_statuses_are_told_apart(a: PodStatus, b: PodStatus)
    requires
        a.deep_view() == b.deep_view(),
    ensures
        same_pod_status(a, b),
{
    texts_are_told_apart(a.pod_ip, b.pod_ip);
    lists_are_told_apart(a.container_statuses, b.container_statuses);
    assert forall|i: int| 0 <= i < a.container_statuses@.len() implies same_container_status(
        #[trigger] a.container_statuses@[i],
        b.container_statuses@[i],
    ) by {
        assert(a.container_statuses@[i].deep_view() == b.container_statuses@[i].deep_view());
    }
}

/// Law: a copy of a Pod is the Pod, field by field.
pub proof fn copied_pods_are_the_same(pod: &Pod, copy: Pod)
    requires
        call_ensures(<Pod as Duplicate>::duplicate, (pod,), copy),
    ensures
        copy.api_version@ == pod.api_version@,
        copy.kind@ == pod.kind@,
        same_meta(copy.metadata, pod.metadata),
        same_pod_spec(copy.spec, pod.spec),
        match (copy.status, pod.status) {
            (Some(a), Some(b)) => same_pod_status(a, b),
            (None, None) => true,
            _ => false,
        },
{
    metadata_is_told_apart(copy.metadata, pod.metadata);
    pod_specs_are_told_apart(copy.spec, pod.spec);
    if copy.status is Some && pod.status is Some {
        pod_statuses_are_told_apart(copy.status->0, pod.status->0);
    }
}

/// Law: a copy of a ReplicaSet is the ReplicaSet, field by field.
pub proof fn copied_replicasets_are_the_same(rs: &ReplicaSet, copy: ReplicaSet)
    requires
        call_ensures(<ReplicaSet as Duplicate>::duplicate, (rs,), copy),
    ensures
        copy.api_version@ == rs.api_version@,
        copy.kind@ == rs.kind@,
        same_meta(copy.metadata, rs.metadata),
        copy.spec.replicas == rs.spec.replicas,
        copy.spec.selector.match_labels@ == rs.spec.selector.match_labels@,
        copy.spec.template.metadata.labels@ == rs.spec.template.metadata.labels@,
        same_pod_spec(copy.spec.template.spec, rs.spec.template.spec),
        match (copy.status, rs.status) {
            (Some(a), Some(b)) => a.replicas == b.replicas && a.ready_replicas == b.ready_replicas
                && a.observed_generation == b.observed_generation,
            (None, None) => true,
            _ => false,
        },
{
    metadata_is_told_apart(copy.metadata, rs.metadata);
    pod_specs_are_told_apart(copy.spec.template.spec, rs.spec.template.spec);
}

/// Law: a copy of a node is the node, field by field.
pub proof fn copied_nodes_are_the_same(node: &Node, copy: Node)
    requires
        call_ensures(<Node as Duplicate>::duplicate, (node,), copy),
    ensures
        copy.api_version@ == node.api_version@,
        copy.kind@ == node.kind@,
        same_meta(copy.metadata, node.metadata),
        copy.spec.unschedulable == node.spec.unschedulable,
        same_text(copy.spec.pod_cidr, node.spec.pod_cidr),
        match (copy.status, node.status) {
            (Some(a), Some(b)) => a.ready == b.ready && same_text(
                a.last_heartbeat_time,
                b.last_heartbeat_time,
            ),
            (None, None) => true,
            _ => false,
        },
{
    metadata_is_told_apart(copy.metadata, node.metadata);
    texts_are_told_apart(copy.spec.pod_cidr, node.spec.pod_cidr);
}

/// Law: a copy of a Service is the Service, field by field.
pub proof fn copied_services_are_the_same(svc: &Service, copy: Service)
    requires
        call_ensures(<Service as Duplicate>::duplicate, (svc,), copy),
    ensures
        copy.api_version@ == svc.api_version@,
        copy.kind@ == svc.kind@,
        same_meta(copy.metadata, svc.metadata),
        copy.spec.selector@ == svc.spec.selector@,
        copy.spec.port == svc.spec.port,
        copy.spec.target_port == svc.spec.target_port,
        same_text(copy.spec.cluster_ip, svc.spec.cluster_ip),
{
    metadata_is_told_apart(copy.metadata, svc.metadata);
    texts_are_told_apart(copy.spec.cluster_ip, svc.spec.cluster_ip);
}

/// Law: a copy of a Service's backends holds the same backends in the same
/// order.
pub proof fn copied_endpoints_are_the_same(ep: &Endpoints, copy: Endpoints)
    requires
        call_ensures(<Endpoints as Duplicate>::duplicate, (ep,), copy),
    ensures
        copy.api_version@ == ep.api_version@,
        copy.kind@ == ep.kind@,
        same_meta(copy.metadata, ep.metadata),
        copy.addresses@.len() == ep.addresses@.len(),
        forall|i: int|
            0 <= i < copy.addresses@.len() ==> (#[trigger] copy.addresses@[i]).ip@
                == ep.addresses@[i].ip@ && copy.addresses@[i].port == ep.addresses@[i].port,
{
    metadata_is_told_apart(copy.metadata, ep.metadata);
    lists_are_told_apart(copy.addresses, ep.addresses);
    assert forall|i: int| 0 <= i < copy.addresses@.len() implies (
    #[trigger] copy.addresses@[i]).ip@ == ep.addresses@[i].ip@ && copy.addresses@[i].port
        == ep.addresses@[i].port by {
        assert(copy.addresses@[i].deep_view() == ep.addresses@[i].deep_view());
    }
}

} // verus!
