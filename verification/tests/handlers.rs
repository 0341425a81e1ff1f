//! Requests to the API server.

use my_k8s::apiserver::applier::Applier;
use my_k8s::apiserver::command::{KindOp, Object, Op};
use my_k8s::apiserver::handlers::{
    bind_pod, create_command, create_node, create_pod, create_replicaset, delete_node, delete_pod,
    delete_replicaset, get_node, get_pod, get_replicaset, list_or_watch_nodes,
    list_or_watch_pods, list_or_watch_replicasets, parse_node_name_selector, parse_rv, perform,
    replace_node_spec, replace_node_status, replace_pod_spec, replace_pod_status,
    replace_replicaset_spec, replace_replicaset_status, stamped_create_command, ApiError, AppState,
    Binding, ListOrWatch, ListWatchParams, RvParams,
};
use my_k8s::apiserver::services::{
    create_endpoints, create_service, delete_endpoints, delete_service, get_endpoints,
    get_service, list_endpoints, list_services, replace_endpoints, replace_service_spec,
};
use my_k8s::apiserver::watch::{catch_up, forward, Forward, Received, WatchEvent, WatchEventType};
use my_k8s::endpoints::{EndpointAddress, Endpoints};
use my_k8s::labels::Labels;
use my_k8s::meta::ObjectMeta;
use my_k8s::node::{Node, NodeSpec, NodeStatus};
use my_k8s::pod::{Container, Pod, PodMetadata, PodPhase, PodSpec, PodStatus};
use my_k8s::replicaset::{
    LabelSelector, PodTemplateSpec, ReplicaSet, ReplicaSetSpec, ReplicaSetStatus,
    TemplateObjectMeta,
};
use my_k8s::service::{Service, ServiceSpec};

fn setup() -> AppState {
    Applier::new()
}

fn make_pod(name: &str) -> Pod {
    Pod {
        api_version: "v1".into(),
        kind: "Pod".into(),
        metadata: PodMetadata {
            name: name.into(),
            ..Default::default()
        },
        spec: PodSpec {
            containers: vec![Container {
                name: "c".into(),
                image: "busybox".into(),
                command: vec!["sleep".into(), "1".into()],
            }],
            node_name: None,
        },
        status: None,
    }
}

fn make_replicaset(name: &str, replicas: u32) -> ReplicaSet {
    let mut labels = Labels::new();
    labels.insert("app".into(), name.into());
    ReplicaSet {
        api_version: "apps/v1".into(),
        kind: "ReplicaSet".into(),
        metadata: ObjectMeta {
            name: name.into(),
            ..Default::default()
        },
        spec: ReplicaSetSpec {
            replicas,
            selector: LabelSelector {
                match_labels: labels.clone(),
            },
            template: PodTemplateSpec {
                metadata: TemplateObjectMeta { labels },
                spec: make_pod("t").spec,
            },
        },
        status: None,
    }
}

fn make_node(name: &str) -> Node {
    Node {
        api_version: "v1".into(),
        kind: "Node".into(),
        metadata: ObjectMeta {
            name: name.into(),
            ..Default::default()
        },
        spec: NodeSpec::default(),
        status: None,
    }
}

fn make_status() -> PodStatus {
    PodStatus {
        phase: PodPhase::Running,
        container_statuses: vec![],
        observed_generation: Some(1),
        pod_ip: None,
    }
}

fn rv(v: &str) -> RvParams {
    RvParams {
        resource_version: Some(v.into()),
    }
}

fn as_pod(o: Object) -> Pod {
    match o {
        Object::Pod(p) => p,
        other => panic!("expected a pod, got {other:?}"),
    }
}

fn as_rs(o: Object) -> ReplicaSet {
    match o {
        Object::ReplicaSet(rs) => rs,
        other => panic!("expected a replica set, got {other:?}"),
    }
}

fn as_node(o: Object) -> Node {
    match o {
        Object::Node(n) => n,
        other => panic!("expected a node, got {other:?}"),
    }
}

fn as_service(o: Object) -> Service {
    match o {
        Object::Service(s) => s,
        other => panic!("expected a service, got {other:?}"),
    }
}

fn as_endpoints(o: Object) -> Endpoints {
    match o {
        Object::Endpoints(e) => e,
        other => panic!("expected endpoints, got {other:?}"),
    }
}

fn pods_listed(state: &AppState, params: &ListWatchParams) -> Vec<Pod> {
    match list_or_watch_pods(state, params) {
        ListOrWatch::List(list) => {
            assert_eq!(list.kind, "PodList");
            assert_eq!(list.api_version, "v1");
            list.items
        }
        ListOrWatch::Watch { .. } => panic!("asked for a list"),
    }
}

#[test]
fn list_empty_returns_empty_podlist() {
    let app = setup();
    assert_eq!(pods_listed(&app, &ListWatchParams::default()).len(), 0);
}

#[test]
fn list_returns_existing_pods_wrapped() {
    let mut app = setup();
    create_pod(&mut app, make_pod("a")).unwrap();
    create_pod(&mut app, make_pod("b")).unwrap();
    assert_eq!(pods_listed(&app, &ListWatchParams::default()).len(), 2);
}

#[test]
fn create_returns_201_with_assigned_apiserver_fields() {
    let mut app = setup();
    let pod = as_pod(create_pod(&mut app, make_pod("web")).unwrap());
    assert_eq!(pod.metadata.name, "web");
    assert!(pod.metadata.uid.is_some());
    assert_eq!(pod.metadata.resource_version.as_deref(), Some("1"));
}

#[test]
fn create_duplicate_returns_409_status_envelope() {
    let mut app = setup();
    create_pod(&mut app, make_pod("web")).unwrap();
    let body = create_pod(&mut app, make_pod("web")).unwrap_err().status();
    assert_eq!(body.kind, "Status");
    assert_eq!(body.api_version, "v1");
    assert_eq!(body.code, 409);
    assert_eq!(body.reason, "AlreadyExists");
    assert_eq!(body.message, "already exists: web");
}

#[test]
fn create_invalid_pod_returns_400() {
    let mut app = setup();
    let mut bad = make_pod("ignored");
    bad.metadata.name = String::new();
    let body = create_pod(&mut app, bad).unwrap_err().status();
    assert_eq!(body.code, 400);
    assert_eq!(body.reason, "BadRequest");

    let mut empty = make_pod("web");
    empty.spec.containers.clear();
    let e = create_pod(&mut app, empty).unwrap_err();
    assert_eq!(e, ApiError::BadRequest("spec.containers must not be empty".into()));
    assert_eq!(app.db.current_rv(), 0);
}

#[test]
fn get_existing_pod_returns_200() {
    let mut app = setup();
    create_pod(&mut app, make_pod("web")).unwrap();
    let pod = get_pod(&app, "web").unwrap();
    assert_eq!(pod.metadata.name, "web");
}

#[test]
fn get_missing_pod_returns_404_status_envelope() {
    let app = setup();
    let body = get_pod(&app, "nope").unwrap_err().status();
    assert_eq!(body.code, 404);
    assert_eq!(body.kind, "Status");
    assert_eq!(body.reason, "NotFound");
}

#[test]
fn replace_spec_returns_409_on_stale_rv() {
    let mut app = setup();
    create_pod(&mut app, make_pod("web")).unwrap();
    let mut stale = make_pod("web");
    stale.metadata.resource_version = Some("999".into());
    let body = replace_pod_spec(&mut app, "web", stale).unwrap_err().status();
    assert_eq!(body.code, 409);
    assert_eq!(body.reason, "Conflict");
    assert_eq!(body.message, "conflict: current rv 1, provided 999");
}

#[test]
fn replace_spec_name_mismatch_returns_400() {
    let mut app = setup();
    create_pod(&mut app, make_pod("web")).unwrap();
    let mut wrong = make_pod("other");
    wrong.metadata.resource_version = Some("1".into());
    let e = replace_pod_spec(&mut app, "web", wrong).unwrap_err();
    assert_eq!(e.status().code, 400);
    assert_eq!(
        e,
        ApiError::BadRequest("name in body (other) does not match URL path (web)".into())
    );
}

#[test]
fn delete_with_correct_rv_removes_pod() {
    let mut app = setup();
    create_pod(&mut app, make_pod("web")).unwrap();
    delete_pod(&mut app, "web", rv("1")).unwrap();
    assert!(app.pods.get("web").is_none(), "pod should be removed");
}

#[test]
fn delete_without_rv_returns_400() {
    let mut app = setup();
    create_pod(&mut app, make_pod("web")).unwrap();
    let e = delete_pod(&mut app, "web", RvParams::default()).unwrap_err();
    assert_eq!(e.status().code, 400);
    assert_eq!(
        e,
        ApiError::BadRequest("resourceVersion query param required".into())
    );
    assert!(app.pods.get("web").is_some(), "pod must not be deleted without rv");
}

#[test]
fn replace_status_updates_status_field() {
    let mut app = setup();
    create_pod(&mut app, make_pod("web")).unwrap();
    let pod = as_pod(replace_pod_status(&mut app, "web", rv("1"), make_status()).unwrap());
    assert!(pod.status.is_some());
    assert_eq!(pod.status.as_ref().unwrap().phase, PodPhase::Running);
    assert!(replace_pod_status(&mut app, "web", RvParams::default(), make_status()).is_err());
}

#[test]
fn rs_create_returns_201_with_apiserver_fields() {
    let mut app = setup();
    let rs = as_rs(create_replicaset(&mut app, make_replicaset("web", 3)).unwrap());
    assert_eq!(rs.metadata.name, "web");
    assert_eq!(rs.spec.replicas, 3);
    assert!(rs.metadata.uid.is_some());
    assert_eq!(rs.metadata.resource_version.as_deref(), Some("1"));
}

#[test]
fn rs_create_rejects_empty_selector() {
    let mut app = setup();
    let mut rs = make_replicaset("web", 3);
    rs.spec.selector.match_labels = Labels::new(); // would match everything
    let body = create_replicaset(&mut app, rs).unwrap_err().status();
    assert_eq!(body.code, 400);
    assert_eq!(body.reason, "BadRequest");
}

#[test]
fn rs_list_wraps_in_replicasetlist() {
    let mut app = setup();
    create_replicaset(&mut app, make_replicaset("a", 1)).unwrap();
    create_replicaset(&mut app, make_replicaset("b", 2)).unwrap();
    match list_or_watch_replicasets(&app, &ListWatchParams::default()) {
        ListOrWatch::List(list) => {
            assert_eq!(list.kind, "ReplicaSetList");
            assert_eq!(list.api_version, "apps/v1");
            assert_eq!(list.items.len(), 2);
        }
        ListOrWatch::Watch { .. } => panic!("asked for a list"),
    }
}

#[test]
fn rs_get_missing_returns_404() {
    let app = setup();
    assert_eq!(get_replicaset(&app, "nope").unwrap_err().status().code, 404);
}

#[test]
fn rs_replace_status_persists_replica_counts() {
    let mut app = setup();
    create_replicaset(&mut app, make_replicaset("web", 3)).unwrap();
    let status = ReplicaSetStatus {
        replicas: 3,
        ready_replicas: 2,
        observed_generation: 1,
    };
    let rs = as_rs(replace_replicaset_status(&mut app, "web", rv("1"), status).unwrap());
    let st = rs.status.expect("status set");
    assert_eq!(st.replicas, 3);
    assert_eq!(st.ready_replicas, 2);

    let mut newer = make_replicaset("web", 5);
    newer.metadata.resource_version = Some("2".into());
    let rs = as_rs(replace_replicaset_spec(&mut app, "web", newer).unwrap());
    assert_eq!(rs.spec.replicas, 5);
    assert_eq!(rs.metadata.generation, Some(2));
    assert_eq!(rs.status, Some(status));
    delete_replicaset(&mut app, "web", rv("3")).unwrap();
    assert!(get_replicaset(&app, "web").is_err());
}

/// All kinds share one version counter, so interleaved creates get strictly
/// increasing versions across kinds.
#[test]
fn pod_and_rs_share_global_resource_version() {
    let mut app = setup();
    let p = as_pod(create_pod(&mut app, make_pod("web")).unwrap());
    let rs = as_rs(create_replicaset(&mut app, make_replicaset("web", 1)).unwrap());
    assert_eq!(p.metadata.resource_version.as_deref(), Some("1"));
    assert_eq!(rs.metadata.resource_version.as_deref(), Some("2"));
}

#[test]
fn node_create_get_list() {
    let mut app = setup();
    let created = as_node(create_node(&mut app, make_node("node-a")).unwrap());
    assert_eq!(created.metadata.name, "node-a");
    assert_eq!(created.metadata.resource_version.as_deref(), Some("1"));
    assert_eq!(get_node(&app, "node-a").unwrap(), created);

    match list_or_watch_nodes(&app, &ListWatchParams::default()) {
        ListOrWatch::List(list) => {
            assert_eq!(list.kind, "NodeList");
            assert_eq!(list.items.len(), 1);
        }
        ListOrWatch::Watch { .. } => panic!("asked for a list"),
    }
}

#[test]
fn node_replace_status_sets_heartbeat() {
    let mut app = setup();
    create_node(&mut app, make_node("node-a")).unwrap();
    let status = NodeStatus {
        ready: true,
        last_heartbeat_time: Some("2026-06-04T10:00:00Z".into()),
    };
    let n = as_node(replace_node_status(&mut app, "node-a", rv("1"), status).unwrap());
    let st = n.status.expect("status set");
    assert!(st.ready);
    assert_eq!(st.last_heartbeat_time.as_deref(), Some("2026-06-04T10:00:00Z"));

    let mut cordoned = make_node("node-a");
    cordoned.spec.unschedulable = true;
    cordoned.metadata.resource_version = Some("2".into());
    assert!(as_node(replace_node_spec(&mut app, "node-a", cordoned).unwrap()).spec.unschedulable);
    delete_node(&mut app, "node-a", rv("3")).unwrap();
    assert!(get_node(&app, "node-a").is_err());
}

/// Two nodes that register get consecutive, disjoint /24 slices.
#[test]
fn create_node_assigns_distinct_pod_cidrs() {
    let mut app = setup();
    let a = as_node(create_node(&mut app, make_node("node-a")).unwrap());
    let b = as_node(create_node(&mut app, make_node("node-b")).unwrap());
    assert_eq!(a.spec.pod_cidr.as_deref(), Some("10.244.0.0/24"));
    assert_eq!(b.spec.pod_cidr.as_deref(), Some("10.244.1.0/24"));
}

/// A slice is not given out again, not even after its node is gone, and no other
/// write moves the count.
#[test]
fn address_slices_are_given_out_once() {
    let mut app = setup();
    let mut slices = Vec::new();
    for i in 0..4 {
        let node = as_node(create_node(&mut app, make_node("node")).unwrap());
        slices.push(node.spec.pod_cidr.unwrap());
        create_pod(&mut app, make_pod(&format!("p{i}"))).unwrap();
        create_service(&mut app, make_service(&format!("s{i}"))).unwrap();
        delete_node(&mut app, "node", rv(&node.metadata.resource_version.unwrap())).unwrap();
    }
    assert_eq!(slices, vec!["10.244.0.0/24", "10.244.1.0/24", "10.244.2.0/24", "10.244.3.0/24"]);
}

/// A kubelet that restarts registers its node again: that is refused, and does
/// not use up a slice.
#[test]
fn create_node_reregistration_does_not_burn_a_cidr() {
    let mut app = setup();
    let a = as_node(create_node(&mut app, make_node("node-a")).unwrap());
    assert_eq!(a.spec.pod_cidr.as_deref(), Some("10.244.0.0/24"));

    let e = create_node(&mut app, make_node("node-a")).unwrap_err();
    assert_eq!(e.status().code, 409);

    let b = as_node(create_node(&mut app, make_node("node-b")).unwrap());
    assert_eq!(b.spec.pod_cidr.as_deref(), Some("10.244.1.0/24"));
}

#[test]
fn create_node_preserves_explicit_pod_cidr() {
    let mut app = setup();
    let mut node = make_node("node-x");
    node.spec.pod_cidr = Some("10.244.7.0/24".into());
    let created = as_node(create_node(&mut app, node).unwrap());
    assert_eq!(created.spec.pod_cidr.as_deref(), Some("10.244.7.0/24"));
}

#[test]
fn slices_run_out_after_256_nodes() {
    let mut app = setup();
    for i in 0..256 {
        create_node(&mut app, make_node(&format!("n{i}"))).unwrap();
    }
    assert_eq!(
        get_node(&app, "n255").unwrap().spec.pod_cidr.as_deref(),
        Some("10.244.255.0/24")
    );
    let e = create_node(&mut app, make_node("late")).unwrap_err();
    assert_eq!(
        e,
        ApiError::Internal("pod CIDR space exhausted (node index 256 exceeds 255)".into())
    );
    assert_eq!(e.status().code, 500);
}

#[test]
fn node_create_rejects_empty_name() {
    let mut app = setup();
    let e = create_node(&mut app, make_node("")).unwrap_err();
    assert_eq!(e.status().code, 400);
}

fn bind_body(node_name: &str) -> Binding {
    Binding {
        node_name: node_name.into(),
    }
}

#[test]
fn binding_sets_node_name() {
    let mut app = setup();
    create_pod(&mut app, make_pod("web")).unwrap();
    assert!(app.pods.get("web").unwrap().spec.node_name.is_none());

    let bound = as_pod(bind_pod(&mut app, "web", bind_body("node-a")).unwrap());
    assert_eq!(bound.spec.node_name.as_deref(), Some("node-a"));
    // Persisted, not just echoed.
    assert_eq!(
        app.pods.get("web").unwrap().spec.node_name.as_deref(),
        Some("node-a"),
    );
}

#[test]
fn binding_missing_pod_returns_404() {
    let mut app = setup();
    let e = bind_pod(&mut app, "ghost", bind_body("node-a")).unwrap_err();
    assert_eq!(e.status().code, 404);
}

#[test]
fn binding_empty_node_name_returns_400() {
    let mut app = setup();
    create_pod(&mut app, make_pod("web")).unwrap();
    let e = bind_pod(&mut app, "web", bind_body("")).unwrap_err();
    assert_eq!(e.status().code, 400);
}

#[test]
fn binding_is_idempotent() {
    let mut app = setup();
    create_pod(&mut app, make_pod("web")).unwrap();
    for _ in 0..2 {
        bind_pod(&mut app, "web", bind_body("node-a")).unwrap();
    }
    assert_eq!(
        app.pods.get("web").unwrap().spec.node_name.as_deref(),
        Some("node-a"),
    );
}

/// Create a pod already bound to `node`.
fn make_pod_on(name: &str, node: &str) -> Pod {
    let mut p = make_pod(name);
    p.spec.node_name = Some(node.into());
    p
}

#[test]
fn list_filters_by_node_name() {
    let mut app = setup();
    create_pod(&mut app, make_pod_on("a", "node-a")).unwrap();
    create_pod(&mut app, make_pod_on("b", "node-b")).unwrap();
    create_pod(&mut app, make_pod("c")).unwrap();

    let params = ListWatchParams {
        field_selector: Some("spec.nodeName=node-a".into()),
        ..Default::default()
    };
    let items = pods_listed(&app, &params);
    assert_eq!(items.len(), 1);
    assert_eq!(items[0].metadata.name, "a");

    assert_eq!(pods_listed(&app, &ListWatchParams::default()).len(), 3);
}

#[test]
fn watch_filters_catch_up_and_live_by_node_name() {
    let mut app = setup();
    create_pod(&mut app, make_pod_on("a", "node-a")).unwrap();
    create_pod(&mut app, make_pod_on("b", "node-b")).unwrap();

    let node_filter = parse_node_name_selector(Some("spec.nodeName=node-a"));
    assert_eq!(node_filter.as_deref(), Some("node-a"));
    let params = ListWatchParams {
        watch: Some(true),
        resource_version: Some("0".into()),
        field_selector: Some("spec.nodeName=node-a".into()),
    };
    let (from_rv, filter) = match list_or_watch_pods(&app, &params) {
        ListOrWatch::Watch { from_rv, filter } => (from_rv, filter),
        ListOrWatch::List(_) => panic!("asked for a watch"),
    };
    assert_eq!(from_rv, 0);

    // Catch-up: exactly one event, for "a".
    app.pods.take_events();
    let (snapshot, snapshot_rv) = app.pods.list(&app.db);
    let caught = catch_up(snapshot, from_rv, &filter);
    let names: Vec<&str> = caught.iter().map(|e| e.object.metadata.name.as_str()).collect();
    assert_eq!(names, vec!["a"], "b must be filtered out");

    // Live: a new node-a pod is delivered; a node-b pod is not.
    create_pod(&mut app, make_pod_on("c", "node-b")).unwrap();
    create_pod(&mut app, make_pod_on("d", "node-a")).unwrap();
    let live: Vec<WatchEvent<Pod>> = app
        .pods
        .take_events()
        .into_iter()
        .filter_map(|e| match forward(Received::Event(e), snapshot_rv, &filter) {
            Forward::Yield(e) => Some(e),
            Forward::Skip => None,
            other => panic!("unexpected {other:?}"),
        })
        .collect();
    assert_eq!(live.len(), 1);
    assert_eq!(live[0].event_type, WatchEventType::Added);
    assert_eq!(live[0].object.metadata.name, "d", "only the node-a live pod arrives");
}

#[test]
fn query_parameters_are_read_leniently() {
    assert_eq!(parse_rv(Some("42")), 42);
    assert_eq!(parse_rv(Some("x")), 0);
    assert_eq!(parse_rv(Some("")), 0);
    assert_eq!(parse_rv(None), 0);
    assert_eq!(parse_node_name_selector(Some("metadata.name=x")), None);
    assert_eq!(parse_node_name_selector(Some("spec.nodeName=")).as_deref(), Some(""));
    assert_eq!(parse_node_name_selector(None), None);
}

#[test]
fn planned_writes_carry_their_stamp() {
    let plan = || stamped_create_command(make_pod("web"), "uid-1".into(), "now".into());
    match plan().unwrap() {
        KindOp::Pods(Op::Create { obj: Ok(p) }) => {
            assert_eq!(p.metadata.uid.as_deref(), Some("uid-1"));
            assert_eq!(p.metadata.creation_timestamp.as_deref(), Some("now"));
            assert_eq!(p.metadata.generation, Some(1));
        }
        other => panic!("unexpected {other:?}"),
    }
    // One plan comes to the same on every server.
    let (mut a, mut b) = (setup(), setup());
    assert_eq!(perform(&mut a, plan()), perform(&mut b, plan()));
    match create_command(make_pod("web")).unwrap() {
        KindOp::Pods(Op::Create { obj: Ok(p) }) => {
            let ts = p.metadata.creation_timestamp.unwrap();
            assert!(chrono::DateTime::parse_from_rfc3339(&ts).is_ok(), "{ts}");
        }
        other => panic!("unexpected {other:?}"),
    }
}

#[test]
fn identities_are_fresh_uuids() {
    let mut app = setup();
    let a = as_pod(create_pod(&mut app, make_pod("a")).unwrap());
    let b = as_pod(create_pod(&mut app, make_pod("b")).unwrap());
    let uid = a.metadata.uid.unwrap();
    assert_ne!(Some(&uid), b.metadata.uid.as_ref());
    let parsed = uuid::Uuid::parse_str(&uid).unwrap();
    assert_eq!(parsed.get_version_num(), 4);
    assert_eq!(parsed.hyphenated().to_string(), uid);
}

#[test]
fn each_refusal_has_its_code() {
    let all = [
        (ApiError::NotFound("x".into()), 404, "NotFound", "not found: x"),
        (ApiError::AlreadyExists("x".into()), 409, "AlreadyExists", "already exists: x"),
        (ApiError::BadRequest("x".into()), 400, "BadRequest", "bad request: x"),
        (ApiError::Internal("x".into()), 500, "Internal", "internal: x"),
        (ApiError::Redirect("http://h".into()), 307, "Redirect", "redirect to http://h"),
    ];
    for (e, code, reason, message) in all {
        let s = e.status();
        assert_eq!((s.code, s.reason.as_str(), s.message.as_str()), (code, reason, message));
    }
}

fn make_service(name: &str) -> Service {
    let mut selector = Labels::new();
    selector.insert("app".into(), name.into());
    Service {
        api_version: "v1".into(),
        kind: "Service".into(),
        metadata: PodMetadata {
            name: name.into(),
            ..Default::default()
        },
        spec: ServiceSpec {
            selector,
            port: 80,
            target_port: 8080,
            cluster_ip: None,
        },
    }
}

#[test]
fn service_create_assigns_clusterip_then_get_list() {
    let mut app = setup();
    let created = as_service(create_service(&mut app, make_service("web")).unwrap());
    assert!(created.spec.cluster_ip.is_some(), "expected assigned ClusterIP");
    assert_eq!(created.spec.cluster_ip.as_deref(), Some("10.96.0.1"));

    assert!(get_service(&app, "web").is_ok());
    assert!(get_service(&app, "nope").is_err());
    assert_eq!(list_services(&app).len(), 1);
}

#[test]
fn service_replace_spec_and_delete() {
    let mut app = setup();
    let created = as_service(create_service(&mut app, make_service("web")).unwrap());

    let mut updated = created.clone();
    updated.spec.port = 9090;
    let after = as_service(replace_service_spec(&mut app, "web", updated).unwrap());
    assert_eq!(after.spec.port, 9090);
    // The address is preserved across a replace, whatever the client sends.
    assert_eq!(after.spec.cluster_ip, created.spec.cluster_ip);
    let mut bare = make_service("web");
    bare.metadata.resource_version = after.metadata.resource_version.clone();
    let after = as_service(replace_service_spec(&mut app, "web", bare).unwrap());
    assert_eq!(after.spec.cluster_ip, created.spec.cluster_ip);

    let v = after.metadata.resource_version.unwrap();
    delete_service(&mut app, "web", rv(&v)).unwrap();
    assert!(get_service(&app, "web").is_err());
}

#[test]
fn service_addresses_differ_and_run_past_one_octet() {
    let mut app = setup();
    for i in 0..300 {
        create_service(&mut app, make_service(&format!("s{i}"))).unwrap();
    }
    let mut ips: Vec<String> = list_services(&app)
        .into_iter()
        .map(|s| s.spec.cluster_ip.unwrap())
        .collect();
    assert!(ips.contains(&"10.96.1.0".to_string()));
    ips.sort();
    ips.dedup();
    assert_eq!(ips.len(), 300);
    // A name that is taken does not use an address up.
    assert!(create_service(&mut app, make_service("s0")).is_err());
    let next = as_service(create_service(&mut app, make_service("t")).unwrap());
    assert_eq!(next.spec.cluster_ip.as_deref(), Some("10.96.1.45"));
}

#[test]
fn endpoints_create_replace_get() {
    let mut app = setup();
    let ep = Endpoints {
        api_version: "v1".into(),
        kind: "Endpoints".into(),
        metadata: PodMetadata {
            name: "web".into(),
            ..Default::default()
        },
        addresses: vec![EndpointAddress {
            ip: "10.244.0.2".into(),
            port: 8080,
        }],
    };
    let created = as_endpoints(create_endpoints(&mut app, ep).unwrap());
    assert_eq!(created.addresses.len(), 1);

    // Replace with a 2-address set; the version must be echoed.
    let mut updated = created.clone();
    updated.addresses.push(EndpointAddress {
        ip: "10.244.1.3".into(),
        port: 8080,
    });
    let after = as_endpoints(replace_endpoints(&mut app, "web", updated).unwrap());
    assert_eq!(after.addresses.len(), 2);

    let got = get_endpoints(&app, "web").unwrap();
    assert_eq!(got.addresses.len(), 2);
    assert_eq!(list_endpoints(&app).len(), 1);
    delete_endpoints(&mut app, "web", rv("2")).unwrap();
    assert_eq!(list_endpoints(&app).len(), 0);
}
