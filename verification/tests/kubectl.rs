//! What the command line shows.

use my_k8s::apiserver::watch::WatchEventType;
use my_k8s::clock::{parse_rfc3339, Timestamp};
use my_k8s::kubectl::{
    age_str, age_text, deleted_resource, manifest_kind, node_table, phase_str, pod_table, rs_table,
    shown_resource, upsert, watch_row, ManifestKind, Resource, Upsert,
};
use my_k8s::labels::Labels;
use my_k8s::meta::ObjectMeta;
use my_k8s::node::{Node, NodeSpec, NodeStatus};
use my_k8s::pod::{
    Container, ContainerStatus, ContainerStatusState, Pod, PodPhase, PodSpec, PodStatus,
};
use my_k8s::replicaset::{
    LabelSelector, PodTemplateSpec, ReplicaSet, ReplicaSetSpec, ReplicaSetStatus,
    TemplateObjectMeta,
};

const NOW: &str = "2026-06-04T10:00:00Z";

fn now() -> Timestamp {
    parse_rfc3339(NOW).unwrap()
}

fn meta(name: &str, created: Option<&str>) -> ObjectMeta {
    ObjectMeta {
        name: name.into(),
        creation_timestamp: created.map(String::from),
        ..Default::default()
    }
}

fn container(name: &str) -> Container {
    Container {
        name: name.into(),
        image: "busybox".into(),
        command: vec![],
    }
}

fn pod(name: &str) -> Pod {
    Pod {
        api_version: "v1".into(),
        kind: "Pod".into(),
        metadata: meta(name, Some("2026-06-04T09:58:00Z")),
        spec: PodSpec {
            containers: vec![container("a"), container("b")],
            node_name: None,
        },
        status: Some(PodStatus {
            phase: PodPhase::Running,
            container_statuses: vec![status("a", true, 2), status("b", false, 3)],
            observed_generation: None,
            pod_ip: None,
        }),
    }
}

fn status(name: &str, ready: bool, restart_count: u32) -> ContainerStatus {
    ContainerStatus {
        name: name.into(),
        state: ContainerStatusState::Running {
            started_at: NOW.into(),
        },
        restart_count,
        ready,
    }
}

#[test]
fn manifests_are_pods_or_replica_sets() {
    assert_eq!(manifest_kind("Pod"), Ok(ManifestKind::Pod));
    assert_eq!(manifest_kind("ReplicaSet"), Ok(ManifestKind::ReplicaSet));
    assert_eq!(
        manifest_kind("No\"de"),
        Err("unsupported kind \"No\\\"de\"; only Pod and ReplicaSet are supported".into())
    );
}

#[test]
fn resources_have_short_names() {
    for word in ["rs", "replicaset", "replicasets"] {
        assert_eq!(shown_resource(word), Ok(Resource::ReplicaSets));
        assert_eq!(deleted_resource(word), Ok(Resource::ReplicaSets));
    }
    for word in ["pod", "pods"] {
        assert_eq!(shown_resource(word), Ok(Resource::Pods));
        assert_eq!(deleted_resource(word), Ok(Resource::Pods));
    }
    assert_eq!(shown_resource("nodes"), Ok(Resource::Nodes));
    assert!(deleted_resource("nodes").is_err());
    assert!(shown_resource("services").is_err());
}

#[test]
fn an_object_that_exists_is_replaced_in_its_version() {
    let mut existing = pod("web");
    existing.metadata.resource_version = Some("7".into());
    match upsert(pod("web"), Some(existing)) {
        Upsert::Replace(p) => assert_eq!(p.metadata.resource_version.as_deref(), Some("7")),
        Upsert::Create(_) => panic!("it exists"),
    }
    match upsert(pod("web"), None) {
        Upsert::Create(p) => assert_eq!(p, pod("web")),
        Upsert::Replace(_) => panic!("it does not exist"),
    }
}

#[test]
fn ages_are_shown_in_one_unit() {
    for (ts, shown) in [
        ("2026-06-04T10:00:00Z", "0s"),
        ("2026-06-04T09:59:01Z", "59s"),
        ("2026-06-04T09:59:00Z", "1m"),
        ("2026-06-04T09:00:01Z", "59m"),
        ("2026-06-04T09:00:00Z", "1h"),
        ("2026-06-03T10:00:01Z", "23h"),
        ("2026-06-03T10:00:00Z", "1d"),
        ("2026-05-25T10:00:00Z", "10d"),
        ("nonsense", "<bad-ts>"),
    ] {
        assert_eq!(age_str(ts, now()), shown, "{ts}");
    }
    assert_eq!(age_text(Some(-5)), "0s");
    assert_eq!(age_text(Some(3599)), "59m");
    assert_eq!(age_text(Some(i64::MAX)), format!("{}d", i64::MAX / 86400));
    assert_eq!(age_text(None), "<bad-ts>");
}

#[test]
fn phases_are_shown_by_name() {
    let mut p = pod("web");
    assert_eq!(phase_str(&p), "Running");
    p.status.as_mut().unwrap().phase = PodPhase::Pending;
    assert_eq!(phase_str(&p), "Pending");
    p.status.as_mut().unwrap().phase = PodPhase::Succeeded;
    assert_eq!(phase_str(&p), "Succeeded");
    p.status.as_mut().unwrap().phase = PodPhase::Failed;
    assert_eq!(phase_str(&p), "Failed");
    p.status.as_mut().unwrap().phase = PodPhase::Unknown;
    assert_eq!(phase_str(&p), "Unknown");
}

#[test]
fn pods_are_shown_in_a_table() {
    let lines = pod_table(&vec![pod("web")], now());
    let line = |a, b, c, d, e| format!("{a:<20} {b:<10} {c:<8} {d:<10} {e}");
    assert_eq!(
        lines,
        vec![
            line("NAME", "PHASE", "READY", "RESTARTS", "AGE"),
            line("web", "Running", "1/2", "5", "2m"),
        ]
    );
}

#[test]
fn replica_sets_are_shown_in_a_table() {
    let rs = ReplicaSet {
        api_version: "apps/v1".into(),
        kind: "ReplicaSet".into(),
        metadata: meta("web", None),
        spec: ReplicaSetSpec {
            replicas: 3,
            selector: LabelSelector {
                match_labels: Labels::new(),
            },
            template: PodTemplateSpec {
                metadata: TemplateObjectMeta {
                    labels: Labels::new(),
                },
                spec: pod("t").spec,
            },
        },
        status: Some(ReplicaSetStatus {
            replicas: 2,
            ready_replicas: 1,
            observed_generation: 1,
        }),
    };
    let lines = rs_table(&vec![rs], now());
    let words: Vec<Vec<&str>> = lines.iter().map(|l| l.split_whitespace().collect()).collect();
    assert_eq!(words[0], vec!["NAME", "DESIRED", "CURRENT", "READY", "AGE"]);
    assert_eq!(words[1][..4], ["web", "3", "2", "1"]);
}

#[test]
fn nodes_are_shown_in_a_table() {
    let node = |name: &str, reported: &str| Node {
        api_version: "v1".into(),
        kind: "Node".into(),
        metadata: meta(name, Some("2026-06-04T07:00:00Z")),
        spec: NodeSpec::default(),
        status: Some(NodeStatus {
            ready: true,
            last_heartbeat_time: Some(reported.into()),
        }),
    };
    let lines = node_table(
        &vec![node("a", "2026-06-04T09:59:31Z"), node("b", "2026-06-04T09:59:30Z")],
        now(),
    );
    let words: Vec<Vec<&str>> = lines.iter().map(|l| l.split_whitespace().collect()).collect();
    assert_eq!(words[0], vec!["NAME", "READY", "AGE"]);
    assert_eq!(words[1], vec!["a", "True", "3h"]);
    assert_eq!(words[2], vec!["b", "False", "3h"]);
}

#[test]
fn a_watch_shows_one_line_for_each_event() {
    let line = watch_row(WatchEventType::Modified, &pod("web"), None).unwrap();
    assert_eq!(line, format!("{:<10} {:<10} {}", "Modified", "Running", "web"));
    assert_eq!(watch_row(WatchEventType::Added, &pod("web"), Some("db")), None);
    assert!(watch_row(WatchEventType::Deleted, &pod("web"), Some("web")).is_some());
}
