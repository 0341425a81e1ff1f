//! The controllers.

use my_k8s::apiserver::applier::Applier;
use my_k8s::apiserver::command::Object;
use my_k8s::apiserver::handlers::{
    create_pod, create_replicaset, delete_pod, delete_replicaset, get_pod, get_replicaset,
    replace_pod_spec, replace_pod_status, replace_replicaset_status, ApiError, AppState, RvParams,
};
use my_k8s::apiserver::services::{
    create_endpoints, create_service, delete_endpoints, delete_service, get_endpoints,
    get_service, replace_endpoints,
};
use my_k8s::controller::endpoints;
use my_k8s::controller::endpoints::{pod_matches, services_for_pod};
use my_k8s::controller::replicaset;
use my_k8s::controller::replicaset::{
    can_adopt, claims, is_owned_by, is_ready, matches_selector, pod_from_template, pod_with_suffix,
    rs_key_for_pod, scale, update_status, Claim, Scaling,
};
use my_k8s::controller::request::{Progress, Reply, Request};
use my_k8s::controller::workqueue::{backoff_for, settle, RateLimiter, WorkQueue};
use my_k8s::labels::Labels;
use my_k8s::meta::{ObjectMeta, OwnerReference};
use my_k8s::pod::{
    Container, ContainerStatus, ContainerStatusState, Pod, PodPhase, PodSpec, PodStatus,
};
use my_k8s::replicaset::{
    LabelSelector, PodTemplateSpec, ReplicaSet, ReplicaSetSpec, TemplateObjectMeta,
};
use my_k8s::service::{Service, ServiceSpec};

fn labels(pairs: &[(&str, &str)]) -> Labels {
    let mut map = Labels::new();
    for (k, v) in pairs {
        map.insert(k.to_string(), v.to_string());
    }
    map
}

fn selector(pairs: &[(&str, &str)]) -> LabelSelector {
    LabelSelector {
        match_labels: labels(pairs),
    }
}

fn make_bare_pod(name: &str) -> Pod {
    Pod {
        api_version: "v1".into(),
        kind: "Pod".into(),
        metadata: ObjectMeta {
            name: name.into(),
            resource_version: Some("1".into()),
            ..Default::default()
        },
        spec: PodSpec {
            containers: vec![Container {
                name: "c".into(),
                image: "busybox".into(),
                command: vec!["sleep".into()],
            }],
            node_name: None,
        },
        status: None,
    }
}

fn make_rs(name: &str, replicas: u32) -> ReplicaSet {
    ReplicaSet {
        api_version: "apps/v1".into(),
        kind: "ReplicaSet".into(),
        metadata: ObjectMeta {
            name: name.into(),
            uid: Some("uid-1".into()),
            resource_version: Some("3".into()),
            generation: Some(2),
            ..Default::default()
        },
        spec: ReplicaSetSpec {
            replicas,
            selector: selector(&[("app", name)]),
            template: PodTemplateSpec {
                metadata: TemplateObjectMeta {
                    labels: labels(&[("app", name)]),
                },
                spec: make_bare_pod("t").spec,
            },
        },
        status: None,
    }
}

#[test]
fn selector_matching() {
    // An empty selector matches everything.
    assert!(matches_selector(&labels(&[]), &selector(&[])));
    assert!(matches_selector(&labels(&[("app", "web")]), &selector(&[])));

    // Subset match: the pod has the required label (plus extras).
    assert!(matches_selector(
        &labels(&[("app", "web"), ("tier", "fe")]),
        &selector(&[("app", "web")]),
    ));

    // Missing required label.
    assert!(!matches_selector(
        &labels(&[("tier", "fe")]),
        &selector(&[("app", "web")]),
    ));

    // Wrong value.
    assert!(!matches_selector(
        &labels(&[("app", "db")]),
        &selector(&[("app", "web")]),
    ));

    // Multiple required: all must match.
    assert!(matches_selector(
        &labels(&[("app", "web"), ("tier", "fe")]),
        &selector(&[("app", "web"), ("tier", "fe")]),
    ));
    assert!(!matches_selector(
        &labels(&[("app", "web")]),
        &selector(&[("app", "web"), ("tier", "fe")]),
    ));
}

#[test]
fn rs_key_for_pod_reads_controller_owner() {
    let mut pod = make_bare_pod("web-x");
    assert_eq!(rs_key_for_pod(&pod), None);

    pod.metadata.owner_references.push(OwnerReference {
        api_version: "apps/v1".into(),
        kind: "ReplicaSet".into(),
        name: "web".into(),
        uid: "u1".into(),
        controller: true,
    });
    assert_eq!(rs_key_for_pod(&pod), Some("web".into()));
}

fn pod(name: &str, app: &str, phase: PodPhase, ip: Option<&str>) -> Pod {
    let mut p = make_bare_pod(name);
    p.metadata.labels = labels(&[("app", app)]);
    p.status = Some(PodStatus {
        phase,
        pod_ip: ip.map(String::from),
        ..Default::default()
    });
    p
}

#[test]
fn pod_matches_requires_all_labels_and_nonempty_selector() {
    let sel = labels(&[("app", "web")]);
    assert!(pod_matches(&pod("p", "web", PodPhase::Running, None), &sel));
    assert!(!pod_matches(&pod("p", "api", PodPhase::Running, None), &sel));
    // Empty selector matches nothing.
    assert!(!pod_matches(
        &pod("p", "web", PodPhase::Running, None),
        &labels(&[])
    ));
}

fn rv(v: Option<String>) -> RvParams {
    RvParams { resource_version: v }
}

fn pod_reply(r: Result<Object, ApiError>) -> Reply {
    match r {
        Ok(Object::Pod(p)) => Reply::Pod(Some(p)),
        Ok(_) => Reply::Done,
        Err(e) => Reply::Failed(e.message()),
    }
}

/// What the API server answers.
fn answer(app: &mut AppState, request: Request) -> Reply {
    match request {
        Request::GetPod(name) => Reply::Pod(app.pods.get(&name)),
        Request::ListPods => Reply::Pods(app.pods.list(&app.db).0),
        Request::CreatePod(p) => pod_reply(create_pod(app, p)),
        Request::ReplacePodSpec(p) => {
            let name = p.metadata.name.clone();
            pod_reply(replace_pod_spec(app, &name, p))
        }
        Request::DeletePod { name, rv: v } => pod_reply(delete_pod(app, &name, rv(Some(v)))),
        Request::GetReplicaSet(name) => Reply::ReplicaSet(app.replicasets.get(&name)),
        Request::ReplaceReplicaSetStatus { name, status, rv: v } => {
            pod_reply(replace_replicaset_status(app, &name, rv(Some(v)), status))
        }
        Request::GetService(name) => Reply::Service(get_service(app, &name).ok()),
        Request::GetEndpoints(name) => Reply::Endpoints(get_endpoints(app, &name).ok()),
        Request::CreateEndpoints(e) => pod_reply(create_endpoints(app, e)),
        Request::ReplaceEndpoints(e) => {
            let name = e.metadata.name.clone();
            pod_reply(replace_endpoints(app, &name, e))
        }
        Request::DeleteEndpoints { name, rv: v } => {
            pod_reply(delete_endpoints(app, &name, rv(Some(v))))
        }
        Request::BindPod { .. } | Request::ListNodes => panic!("not for a controller"),
    }
}

/// One round over a ReplicaSet.
fn reconcile(rs_name: &str, app: &mut AppState) -> Result<(), String> {
    let mut progress = replicaset::start(rs_name);
    loop {
        match progress {
            Progress::Ask(request, stage) => {
                let reply = answer(app, request);
                progress = replicaset::reconcile(rs_name, stage, reply);
            }
            Progress::Finished => return Ok(()),
            Progress::Aborted(e) => return Err(e),
        }
    }
}

/// One round over a service.
fn reconcile_service(svc_name: &str, app: &mut AppState) -> Result<(), String> {
    let mut progress = endpoints::start(svc_name);
    loop {
        match progress {
            Progress::Ask(request, stage) => {
                let reply = answer(app, request);
                progress = endpoints::reconcile(svc_name, stage, reply);
            }
            Progress::Finished => return Ok(()),
            Progress::Aborted(e) => return Err(e),
        }
    }
}

fn pods_of(app: &AppState) -> Vec<Pod> {
    app.pods.list(&app.db).0
}

fn owned_pod_count(app: &AppState, rs_name: &str) -> usize {
    pods_of(app).iter().filter(|p| is_owned_by(p, rs_name)).count()
}

#[test]
fn reconcile_creates_deficit_pods() {
    let mut app = Applier::new();
    create_replicaset(&mut app, make_rs("web", 3)).unwrap();

    reconcile("web", &mut app).unwrap();

    let pods = pods_of(&app);
    assert_eq!(pods.len(), 3, "should create 3 pods to meet replicas");
    for p in &pods {
        assert!(is_owned_by(p, "web"), "pod {} missing ownerRef", p.metadata.name);
        assert_eq!(p.metadata.labels.get("app").map(|s| s.as_str()), Some("web"));
        assert!(p.metadata.name.starts_with("web-"));
    }
}

#[test]
fn reconcile_is_idempotent() {
    let mut app = Applier::new();
    create_replicaset(&mut app, make_rs("web", 2)).unwrap();

    reconcile("web", &mut app).unwrap();
    reconcile("web", &mut app).unwrap(); // must NOT over-create
    let written = app.db.current_rv();
    reconcile("web", &mut app).unwrap();

    assert_eq!(owned_pod_count(&app, "web"), 2);
    assert_eq!(app.db.current_rv(), written, "a settled set is not written again");
}

fn owner(name: &str, uid: &str) -> OwnerReference {
    OwnerReference {
        api_version: "apps/v1".into(),
        kind: "ReplicaSet".into(),
        name: name.into(),
        uid: uid.into(),
        controller: true,
    }
}

#[test]
fn reconcile_deletes_surplus_pods() {
    let mut app = Applier::new();
    create_replicaset(&mut app, make_rs("web", 1)).unwrap();
    let uid = get_replicaset(&app, "web").unwrap().metadata.uid.unwrap();

    for i in 0..3 {
        let mut pod = make_bare_pod(&format!("web-pre{i}"));
        pod.metadata.labels = labels(&[("app", "web")]);
        pod.metadata.owner_references.push(owner("web", &uid));
        create_pod(&mut app, pod).unwrap();
    }
    assert_eq!(owned_pod_count(&app, "web"), 3);

    reconcile("web", &mut app).unwrap();

    assert_eq!(
        owned_pod_count(&app, "web"),
        1,
        "should delete 2 surplus pods down to replicas=1",
    );
}

#[test]
fn reconcile_adopts_matching_orphan() {
    let mut app = Applier::new();
    create_replicaset(&mut app, make_rs("web", 1)).unwrap();

    let mut orphan = make_bare_pod("lonely");
    orphan.metadata.labels = labels(&[("app", "web")]);
    create_pod(&mut app, orphan).unwrap();

    reconcile("web", &mut app).unwrap();

    let pods = pods_of(&app);
    assert_eq!(pods.len(), 1, "orphan adopted, no extra pod created");
    assert!(is_owned_by(&pods[0], "web"));
    assert_eq!(pods[0].metadata.name, "lonely");
}

#[test]
fn reconcile_does_not_adopt_pod_owned_by_another_rs() {
    let mut app = Applier::new();
    create_replicaset(&mut app, make_rs("web", 1)).unwrap();

    let mut taken = make_bare_pod("taken");
    taken.metadata.labels = labels(&[("app", "web")]);
    taken.metadata.owner_references.push(owner("other", "other-uid"));
    create_pod(&mut app, taken).unwrap();

    reconcile("web", &mut app).unwrap();

    assert_eq!(owned_pod_count(&app, "web"), 1);
    let taken_now = get_pod(&app, "taken").unwrap();
    assert!(!is_owned_by(&taken_now, "web"), "must not steal another RS's pod");
}

#[test]
fn reconcile_cascade_deletes_when_rs_gone() {
    let mut app = Applier::new();
    create_replicaset(&mut app, make_rs("web", 2)).unwrap();
    reconcile("web", &mut app).unwrap();
    assert_eq!(owned_pod_count(&app, "web"), 2);

    let current = get_replicaset(&app, "web").unwrap();
    delete_replicaset(&mut app, "web", rv(current.metadata.resource_version)).unwrap();

    reconcile("web", &mut app).unwrap();

    assert_eq!(
        owned_pod_count(&app, "web"),
        0,
        "cascade delete should remove all owned pods",
    );
}

#[test]
fn reconcile_updates_status_replica_count() {
    let mut app = Applier::new();
    create_replicaset(&mut app, make_rs("web", 2)).unwrap();

    reconcile("web", &mut app).unwrap();

    let rs = get_replicaset(&app, "web").unwrap();
    let status = rs.status.expect("status should be set");
    assert_eq!(status.replicas, 2, "status.replicas reflects owned pods");
    assert_eq!(status.ready_replicas, 0, "no kubelet, so none is ready");
}

/// A ReplicaSet created while the controller runs gets its pods.
#[test]
fn controller_creates_pods_for_new_replicaset() {
    let mut app = Applier::new();
    let mut queue = WorkQueue::new();
    let mut limiter = RateLimiter::new();
    create_replicaset(&mut app, make_rs("web", 3)).unwrap();
    for event in app.replicasets.take_events() {
        queue.add(event.object.metadata.name);
    }
    while let Some(key) = queue.get() {
        let result = reconcile(&key, &mut app);
        assert_eq!(settle(&mut queue, &mut limiter, &key, result.is_err()), None);
    }
    assert_eq!(owned_pod_count(&app, "web"), 3);
}

/// A deleted pod's event leads back to its ReplicaSet, which makes another.
#[test]
fn controller_recreates_a_deleted_pod() {
    let mut app = Applier::new();
    let mut queue = WorkQueue::new();
    create_replicaset(&mut app, make_rs("web", 3)).unwrap();
    reconcile("web", &mut app).unwrap();
    app.pods.take_events();
    let victim = pods_of(&app)[0].clone();
    delete_pod(&mut app, &victim.metadata.name, rv(victim.metadata.resource_version)).unwrap();
    assert_eq!(owned_pod_count(&app, "web"), 2);
    for event in app.pods.take_events() {
        if let Some(key) = rs_key_for_pod(&event.object) {
            queue.add(key);
        }
    }
    assert_eq!(queue.get().as_deref(), Some("web"));
    reconcile("web", &mut app).unwrap();
    assert_eq!(owned_pod_count(&app, "web"), 3);
}

#[test]
fn a_failed_write_is_passed_over() {
    let rs = make_rs("web", 2);
    let mut progress = replicaset::start("web");
    let mut creations = 0;
    loop {
        match progress {
            Progress::Ask(request, stage) => {
                let reply = match request {
                    Request::GetReplicaSet(_) => Reply::ReplicaSet(Some(rs.clone())),
                    Request::ListPods => Reply::Pods(vec![]),
                    Request::CreatePod(_) => {
                        creations += 1;
                        Reply::Failed("full".into())
                    }
                    Request::ReplaceReplicaSetStatus { status, rv, .. } => {
                        assert_eq!(status.replicas, 0);
                        assert_eq!(status.observed_generation, 2);
                        assert_eq!(rv, "3");
                        Reply::Failed("conflict".into())
                    }
                    other => panic!("unexpected {other:?}"),
                };
                progress = replicaset::reconcile("web", stage, reply);
            }
            // Only reads and the status write can fail a round.
            other => {
                assert_eq!(other, Progress::Aborted("conflict".into()));
                break;
            }
        }
    }
    assert_eq!(creations, 2);
    assert_eq!(
        replicaset::reconcile("web", replicaset::Stage::Reading, Reply::Failed("down".into())),
        Progress::Aborted("down".into())
    );
}

#[test]
fn pods_are_made_from_the_template() {
    let rs = make_rs("web", 1);
    let a = pod_with_suffix(&rs, "abcde");
    assert_eq!(a.metadata.name, "web-abcde");
    assert_eq!(a.metadata.owner_references, vec![owner("web", "uid-1")]);
    assert_eq!(a.spec, rs.spec.template.spec);
    // The suffix is drawn anew: five hexadecimal digits.
    let (b, c) = (pod_from_template(&rs), pod_from_template(&rs));
    assert_ne!(b.metadata.name, c.metadata.name);
    let suffix = b.metadata.name.strip_prefix("web-").unwrap();
    assert_eq!(suffix.len(), 5);
    assert!(suffix.chars().all(|c| c.is_ascii_digit() || ('a'..='f').contains(&c)));
}

#[test]
fn the_oldest_pods_go_first() {
    let rs = make_rs("web", 1);
    let mut pods = vec![];
    for (name, created) in [("b", Some("2026-01-02")), ("c", None), ("a", Some("2026-01-01"))] {
        let mut p = make_bare_pod(name);
        p.metadata.creation_timestamp = created.map(String::from);
        pods.push(p);
    }
    let plan = scale(&rs, &pods);
    let names: Vec<&str> = plan
        .iter()
        .map(|w| match w {
            Scaling::Delete { name, .. } => name.as_str(),
            Scaling::Create(_) => panic!("nothing is missing"),
        })
        .collect();
    assert_eq!(names, vec!["c", "a"]);
}

#[test]
fn readiness_takes_a_running_pod_with_ready_containers() {
    let mut p = pod("p", "web", PodPhase::Running, None);
    assert!(!is_ready(&p), "no containers");
    let container = |ready| ContainerStatus {
        name: "c".into(),
        state: ContainerStatusState::Running {
            started_at: "2026-06-04T10:00:00Z".into(),
        },
        restart_count: 0,
        ready,
    };
    p.status.as_mut().unwrap().container_statuses = vec![container(true), container(true)];
    assert!(is_ready(&p));
    p.status.as_mut().unwrap().container_statuses.push(container(false));
    assert!(!is_ready(&p));
    p.status.as_mut().unwrap().container_statuses.pop();
    p.status.as_mut().unwrap().phase = PodPhase::Pending;
    assert!(!is_ready(&p));
    p.status = None;
    assert!(!is_ready(&p));
    assert!(!can_adopt(&make_bare_pod("x"), &make_rs("web", 1)));
}

fn svc(name: &str) -> Service {
    Service {
        api_version: "v1".into(),
        kind: "Service".into(),
        metadata: ObjectMeta {
            name: name.into(),
            ..Default::default()
        },
        spec: ServiceSpec {
            selector: labels(&[("app", "web")]),
            port: 80,
            target_port: 8080,
            cluster_ip: None,
        },
    }
}

/// Create a pod, then write its status (create strips status).
fn create_with_status(app: &mut AppState, p: Pod) {
    let (name, status) = (p.metadata.name.clone(), p.status.clone().unwrap());
    create_pod(app, p).unwrap();
    let v = get_pod(app, &name).unwrap().metadata.resource_version;
    replace_pod_status(app, &name, rv(v), status).unwrap();
}

#[test]
fn reconcile_populates_endpoints_from_running_pods_with_ip() {
    let mut app = Applier::new();
    create_service(&mut app, svc("web")).unwrap();
    create_with_status(&mut app, pod("p1", "web", PodPhase::Running, Some("10.244.0.2")));
    create_with_status(&mut app, pod("p2", "web", PodPhase::Running, Some("10.244.1.3")));
    // A matching pod that is Running but has NO IP yet: excluded.
    create_with_status(&mut app, pod("p3", "web", PodPhase::Running, None));
    // A matching pod that is Pending: excluded.
    create_with_status(&mut app, pod("p4", "web", PodPhase::Pending, Some("10.244.0.9")));
    // A non-matching pod: excluded.
    create_with_status(&mut app, pod("other", "api", PodPhase::Running, Some("10.244.0.7")));

    reconcile_service("web", &mut app).unwrap();

    let ep = get_endpoints(&app, "web").expect("endpoints created");
    let ips: Vec<&str> = ep.addresses.iter().map(|a| a.ip.as_str()).collect();
    assert_eq!(ips, vec!["10.244.0.2", "10.244.1.3"]);
    assert!(ep.addresses.iter().all(|a| a.port == 8080));
}

#[test]
fn reconcile_is_idempotent_no_rewrite_when_unchanged() {
    let mut app = Applier::new();
    create_service(&mut app, svc("web")).unwrap();
    create_with_status(&mut app, pod("p1", "web", PodPhase::Running, Some("10.244.0.2")));

    reconcile_service("web", &mut app).unwrap();
    let rv1 = get_endpoints(&app, "web").unwrap().metadata.resource_version;

    // Second reconcile with no change must NOT bump the rv (no write).
    reconcile_service("web", &mut app).unwrap();
    let rv2 = get_endpoints(&app, "web").unwrap().metadata.resource_version;
    assert_eq!(rv1, rv2, "unchanged endpoints should not be rewritten");

    // A change is written over what is stored.
    create_with_status(&mut app, pod("p0", "web", PodPhase::Running, Some("10.244.0.1")));
    reconcile_service("web", &mut app).unwrap();
    let ep = get_endpoints(&app, "web").unwrap();
    assert_eq!(ep.addresses[0].ip, "10.244.0.1");
    assert_eq!(ep.addresses.len(), 2);
}

#[test]
fn reconcile_deletes_endpoints_when_service_gone() {
    let mut app = Applier::new();
    create_service(&mut app, svc("web")).unwrap();
    create_with_status(&mut app, pod("p1", "web", PodPhase::Running, Some("10.244.0.2")));
    reconcile_service("web", &mut app).unwrap();
    assert!(get_endpoints(&app, "web").is_ok());

    // Delete the Service, then reconcile: Endpoints cleaned up.
    let v = get_service(&app, "web").unwrap().metadata.resource_version;
    delete_service(&mut app, "web", rv(v)).unwrap();

    reconcile_service("web", &mut app).unwrap();
    assert!(get_endpoints(&app, "web").is_err());
    // With nothing stored there is nothing to do.
    reconcile_service("web", &mut app).unwrap();
}

#[test]
fn a_pod_event_leads_to_its_services() {
    let mut other = svc("other");
    other.spec.selector = labels(&[("app", "api")]);
    let services = vec![svc("web"), other, svc("web2")];
    let p = pod("p", "web", PodPhase::Running, None);
    assert_eq!(services_for_pod(&p, &services), vec!["web", "web2"]);
}

#[test]
fn a_key_waits_once_and_is_worked_on_once() {
    let mut q = WorkQueue::new();
    q.add("a".into());
    q.add("b".into());
    q.add("a".into());
    assert_eq!(q.get().as_deref(), Some("a"));
    // Added while it is worked on: it waits again only afterwards.
    q.add("a".into());
    q.add("a".into());
    assert_eq!(q.get().as_deref(), Some("b"));
    assert_eq!(q.get(), None);
    q.done("a");
    assert_eq!(q.get().as_deref(), Some("a"));
    q.done("a");
    q.done("b");
    assert_eq!(q.get(), None);
}

#[test]
fn retries_wait_longer_and_longer() {
    assert_eq!(backoff_for(1), 5);
    assert_eq!(backoff_for(2), 10);
    assert_eq!(backoff_for(4), 40);
    assert_eq!(backoff_for(100), 900_000);
    let mut q = WorkQueue::new();
    let mut rl = RateLimiter::new();
    q.add("a".into());
    q.get();
    assert_eq!(settle(&mut q, &mut rl, "a", true), Some(5));
    assert_eq!(settle(&mut q, &mut rl, "a", true), Some(10));
    assert_eq!(settle(&mut q, &mut rl, "b", true), Some(5));
    assert_eq!(settle(&mut q, &mut rl, "a", false), None);
    assert_eq!(settle(&mut q, &mut rl, "a", true), Some(5));
}

/// One round over a ReplicaSet, with what it asked for.
fn asked_in_round(rs_name: &str, app: &mut AppState) -> Vec<Request> {
    let mut asked = Vec::new();
    let mut progress = replicaset::start(rs_name);
    while let Progress::Ask(request, stage) = progress {
        asked.push(request.clone());
        let reply = answer(app, request);
        assert!(!matches!(reply, Reply::Failed(_)));
        progress = replicaset::reconcile(rs_name, stage, reply);
    }
    assert_eq!(progress, Progress::Finished);
    asked
}

#[test]
fn a_round_reaches_the_number_and_a_second_one_only_reads() {
    for (replicas, made, gone) in [(0, 0, 3), (2, 0, 1), (3, 0, 0), (6, 3, 0)] {
        let mut app = Applier::new();
        create_replicaset(&mut app, make_rs("web", replicas)).unwrap();
        for i in 0..2 {
            let mut own = make_bare_pod(&format!("own{i}"));
            own.metadata.owner_references.push(owner("web", "u"));
            create_pod(&mut app, own).unwrap();
        }
        let mut orphan = make_bare_pod("orphan");
        orphan.metadata.labels = labels(&[("app", "web")]);
        create_pod(&mut app, orphan).unwrap();
        let mut taken = make_bare_pod("taken");
        taken.metadata.labels = labels(&[("app", "web")]);
        taken.metadata.owner_references.push(owner("other", "u"));
        create_pod(&mut app, taken).unwrap();
        let untouched = get_pod(&app, "taken").unwrap();

        let asked = asked_in_round("web", &mut app);
        let creations = asked.iter().filter(|r| matches!(r, Request::CreatePod(_))).count();
        let removals = asked.iter().filter(|r| matches!(r, Request::DeletePod { .. })).count();
        assert_eq!((creations, removals), (made, gone), "for {replicas} replicas");
        assert_eq!(owned_pod_count(&app, "web"), replicas as usize);
        assert_eq!(get_pod(&app, "taken").unwrap(), untouched);

        let asked = asked_in_round("web", &mut app);
        assert_eq!(
            asked,
            vec![Request::GetReplicaSet("web".into()), Request::ListPods, Request::ListPods]
        );
    }
}

#[test]
fn pods_count_for_the_key_of_a_replicaset() {
    let rs = {
        let mut rs = make_rs("inner", 1);
        rs.metadata.resource_version = Some("7".into());
        rs
    };
    let mut by_key = make_bare_pod("by-key");
    by_key.metadata.owner_references.push(owner("key", "u"));
    let mut by_name = make_bare_pod("by-name");
    by_name.metadata.owner_references.push(owner("inner", "u"));
    let pods = vec![by_key.clone(), by_name];
    assert_eq!(claims(&pods, "key", &rs), vec![Claim::Owned(by_key)]);
    let (status, rv) = update_status("key", &rs, &pods).unwrap();
    assert_eq!((status.replicas, rv.as_str()), (1, "7"));
    let (status, _) = update_status("none", &rs, &pods).unwrap();
    assert_eq!(status.replicas, 0);
}
