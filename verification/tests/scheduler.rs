//! Placing Pods, and the readiness of nodes.

use chrono::{DateTime, Utc};
use my_k8s::apiserver::applier::Applier;
use my_k8s::apiserver::handlers::{
    bind_pod, create_node, create_pod, get_pod, replace_node_status, AppState, Binding, RvParams,
};
use my_k8s::clock::Timestamp;
use my_k8s::controller::request::{Progress, Reply, Request};
use my_k8s::controller::workqueue::{settle, RateLimiter, WorkQueue};
use my_k8s::meta::ObjectMeta;
use my_k8s::node::{Node, NodeSpec, NodeStatus};
use my_k8s::pod::{Container, Pod, PodSpec};
use my_k8s::scheduler::{is_schedulable, schedule, start, Stage, STALENESS_WINDOW_SECS};

fn at(t: DateTime<Utc>) -> Timestamp {
    Timestamp {
        secs: t.timestamp(),
        nanos: t.timestamp_subsec_nanos(),
    }
}

fn node(name: &str) -> Node {
    Node {
        api_version: "v1".into(),
        kind: "Node".into(),
        metadata: ObjectMeta {
            name: name.into(),
            ..Default::default()
        },
        spec: NodeSpec::default(),
        status: None,
    }
}

#[test]
fn is_ready_requires_ready_bool_and_fresh_heartbeat() {
    let now = Utc::now();
    let window = 30;
    let fresh = now.to_rfc3339();
    let stale = (now - chrono::Duration::seconds(40)).to_rfc3339();

    let mut n = node("node-a");

    // No status: not ready.
    assert!(!n.is_ready(at(now), window));

    // Ready + fresh heartbeat: ready.
    n.status = Some(NodeStatus {
        ready: true,
        last_heartbeat_time: Some(fresh.clone()),
    });
    assert!(n.is_ready(at(now), window));

    // Ready but heartbeat stale (a dead kubelet): not ready.
    n.status = Some(NodeStatus {
        ready: true,
        last_heartbeat_time: Some(stale),
    });
    assert!(!n.is_ready(at(now), window));

    // ready=false even with a fresh heartbeat: not ready.
    n.status = Some(NodeStatus {
        ready: false,
        last_heartbeat_time: Some(fresh),
    });
    assert!(!n.is_ready(at(now), window));

    // Ready but no heartbeat recorded: not ready.
    n.status = Some(NodeStatus {
        ready: true,
        last_heartbeat_time: None,
    });
    assert!(!n.is_ready(at(now), window));

    // Nor with one that cannot be read.
    n.status = Some(NodeStatus {
        ready: true,
        last_heartbeat_time: Some("yesterday".into()),
    });
    assert!(!n.is_ready(at(now), window));
}

fn node_with(ready: bool, hb: Option<&str>, unschedulable: bool) -> Node {
    let mut n = node("n");
    n.spec.unschedulable = unschedulable;
    n.status = Some(NodeStatus {
        ready,
        last_heartbeat_time: hb.map(String::from),
    });
    n
}

#[test]
fn schedulable_predicate() {
    let now = Utc::now();
    let fresh = now.to_rfc3339();
    let stale = (now - chrono::Duration::seconds(STALENESS_WINDOW_SECS + 5)).to_rfc3339();

    assert!(is_schedulable(&node_with(true, Some(&fresh), false), at(now)));
    // not ready
    assert!(!is_schedulable(&node_with(false, Some(&fresh), false), at(now)));
    // cordoned
    assert!(!is_schedulable(&node_with(true, Some(&fresh), true), at(now)));
    // stale heartbeat
    assert!(!is_schedulable(&node_with(true, Some(&stale), false), at(now)));
    // no heartbeat
    assert!(!is_schedulable(&node_with(true, None, false), at(now)));
    // no status at all
    let mut no_status = node_with(true, None, false);
    no_status.status = None;
    assert!(!is_schedulable(&no_status, at(now)));
}

fn make_pod(name: &str) -> Pod {
    Pod {
        api_version: "v1".into(),
        kind: "Pod".into(),
        metadata: ObjectMeta {
            name: name.into(),
            ..Default::default()
        },
        spec: PodSpec {
            containers: vec![Container {
                name: "c".into(),
                image: "busybox".into(),
                command: vec!["sleep".into(), "1".into()],
            }],
            node_name: None,
        },
        status: None,
    }
}

/// Register a node that reported ready at a time.
fn register_node(app: &mut AppState, name: &str, reported: DateTime<Utc>) {
    create_node(app, node(name)).unwrap();
    let rv = app.nodes.get(name).unwrap().metadata.resource_version;
    let status = NodeStatus {
        ready: true,
        last_heartbeat_time: Some(reported.to_rfc3339()),
    };
    replace_node_status(app, name, RvParams { resource_version: rv }, status).unwrap();
}

fn bind(app: &mut AppState, pod: &str, node: &str) {
    bind_pod(app, pod, Binding { node_name: node.into() }).unwrap();
}

/// What the API server answers.
fn answer(app: &mut AppState, request: Request) -> Reply {
    match request {
        Request::GetPod(name) => Reply::Pod(app.pods.get(&name)),
        Request::ListPods => Reply::Pods(app.pods.list(&app.db).0),
        Request::ListNodes => Reply::Nodes(app.nodes.list(&app.db).0),
        Request::BindPod { name, node } => {
            match bind_pod(app, &name, Binding { node_name: node }) {
                Ok(_) => Reply::Done,
                Err(e) => Reply::Failed(e.message()),
            }
        }
        other => panic!("the scheduler asked for {other:?}"),
    }
}

/// One round of the scheduler.
fn place(pod_name: &str, app: &mut AppState) -> Result<(), String> {
    let mut progress = start(pod_name);
    loop {
        match progress {
            Progress::Ask(request, stage) => {
                let reply = answer(app, request);
                progress = schedule(pod_name, stage, reply, at(Utc::now()));
            }
            Progress::Finished => return Ok(()),
            Progress::Aborted(e) => return Err(e),
        }
    }
}

fn node_of(app: &AppState, pod: &str) -> Option<String> {
    get_pod(app, pod).unwrap().spec.node_name
}

#[test]
fn schedule_binds_to_ready_node() {
    let mut app = Applier::new();
    register_node(&mut app, "node-a", Utc::now());
    create_pod(&mut app, make_pod("web")).unwrap();
    place("web", &mut app).unwrap();
    assert_eq!(node_of(&app, "web").as_deref(), Some("node-a"));
}

#[test]
fn schedule_skips_already_bound_pod() {
    let mut app = Applier::new();
    register_node(&mut app, "node-a", Utc::now());
    create_pod(&mut app, make_pod("web")).unwrap();
    bind(&mut app, "web", "node-z"); // bound elsewhere

    place("web", &mut app).unwrap();
    assert_eq!(node_of(&app, "web").as_deref(), Some("node-z"));
    // Nor is there anything to do for a pod that is gone.
    place("ghost", &mut app).unwrap();
}

#[test]
fn schedule_errors_when_no_ready_node() {
    let mut app = Applier::new();
    create_pod(&mut app, make_pod("web")).unwrap();
    let err = place("web", &mut app).unwrap_err();
    assert!(err.contains("no Ready node"), "got: {err}");
    assert_eq!(err, "no Ready node available for pod web");
}

#[test]
fn schedule_picks_least_loaded_node() {
    let mut app = Applier::new();
    for n in ["node-a", "node-b", "node-c"] {
        register_node(&mut app, n, Utc::now());
    }
    // node-a has 2 pods, node-b has 1, node-c has 0.
    for (n, node) in [("p1", "node-a"), ("p2", "node-a"), ("p3", "node-b")] {
        create_pod(&mut app, make_pod(n)).unwrap();
        bind(&mut app, n, node);
    }
    create_pod(&mut app, make_pod("web")).unwrap();
    place("web", &mut app).unwrap();
    assert_eq!(node_of(&app, "web").as_deref(), Some("node-c"));
    // Of two with the same load the first one listed is taken.
    create_pod(&mut app, make_pod("next")).unwrap();
    place("next", &mut app).unwrap();
    assert_eq!(node_of(&app, "next").as_deref(), Some("node-b"));
}

#[test]
fn schedule_excludes_stale_node() {
    let mut app = Applier::new();
    let stale = Utc::now() - chrono::Duration::seconds(STALENESS_WINDOW_SECS + 10);
    register_node(&mut app, "node-a", stale);
    create_pod(&mut app, make_pod("web")).unwrap();
    let err = place("web", &mut app).unwrap_err();
    assert!(err.contains("no Ready node"), "got: {err}");
}

/// Pods that are created without a node are found by their events, and placed.
#[test]
fn run_schedules_unscheduled_pods_end_to_end() {
    let mut app = Applier::new();
    register_node(&mut app, "node-a", Utc::now());
    register_node(&mut app, "node-b", Utc::now());
    for i in 0..4 {
        create_pod(&mut app, make_pod(&format!("p{i}"))).unwrap();
    }
    let mut queue = WorkQueue::new();
    let mut limiter = RateLimiter::new();
    for event in app.pods.take_events() {
        if event.object.spec.node_name.is_none() {
            queue.add(event.object.metadata.name);
        }
    }
    while let Some(key) = queue.get() {
        let result = place(&key, &mut app);
        assert_eq!(settle(&mut queue, &mut limiter, &key, result.is_err()), None);
    }
    let pods = app.pods.list(&app.db).0;
    let bound = pods.iter().filter(|p| p.spec.node_name.is_some()).count();
    assert_eq!(bound, 4, "all 4 pods should get scheduled");
    let on_a = pods
        .iter()
        .filter(|p| p.spec.node_name.as_deref() == Some("node-a"))
        .count();
    assert_eq!(on_a, 2, "pods should spread across nodes");
}

#[test]
fn a_failed_call_ends_the_attempt() {
    let now = at(Utc::now());
    let failed = || Reply::Failed("down".into());
    let aborted = Progress::Aborted("down".to_string());
    assert_eq!(schedule("web", Stage::Reading, failed(), now), aborted);
    assert_eq!(schedule("web", Stage::Filtering { now }, failed(), now), aborted);
    assert_eq!(schedule("web", Stage::Scoring { able: vec![] }, failed(), now), aborted);
    assert_eq!(schedule("web", Stage::Binding, failed(), now), aborted);
    assert_eq!(
        schedule("web", Stage::Reading, Reply::Pods(vec![]), now),
        Progress::Aborted("unexpected reply".to_string())
    );
}
