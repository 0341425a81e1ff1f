//! The object store behind the API server.

use my_k8s::apiserver::storage::{index_rv, object_key, Db, PodStore, ResourceStore, StoreError};
use my_k8s::apiserver::watch::WatchEventType;
use my_k8s::duplicate::{DeepView, Duplicate};
use my_k8s::meta::{MetaView, ObjectMeta, ResourceMeta};
use my_k8s::pod::{
    Container, ContainerStatus, ContainerStatusState, Pod, PodMetadata, PodPhase, PodSpec,
    PodStatus,
};
use my_k8s::text::Chars;

fn store() -> PodStore {
    PodStore::new()
}

fn with_running_status(mut p: Pod) -> Pod {
    p.status = Some(running_status());
    p
}

fn make_pod(name: &str) -> Pod {
    Pod {
        api_version: "v1".into(),
        kind: "Pod".into(),
        metadata: PodMetadata {
            name: name.into(),
            ..Default::default()
        },
        spec: PodSpec {
            containers: vec![Container {
                name: "c".into(),
                image: "busybox".into(),
                command: vec!["sleep".into(), "1".into()],
            }],
            node_name: None,
        },
        status: None,
    }
}

fn running_status() -> PodStatus {
    PodStatus {
        phase: PodPhase::Running,
        container_statuses: vec![ContainerStatus {
            name: "c".into(),
            ready: true,
            restart_count: 0,
            state: ContainerStatusState::Running {
                started_at: "2026-05-17T10:00:00Z".into(),
            },
        }],
        observed_generation: Some(1),
        pod_ip: None,
    }
}

#[test]
fn create_assigns_apiserver_fields_and_first_rv() {
    let mut db = Db::new();
    let mut store = store();
    let created = store.create(&mut db, make_pod("web")).expect("create");

    assert!(created.metadata.uid.is_some(), "uid must be assigned");
    assert_eq!(created.metadata.generation, Some(1));
    assert!(created.metadata.creation_timestamp.is_some());
    assert_eq!(created.metadata.resource_version.as_deref(), Some("1"));
    assert!(created.status.is_none(), "status not set on create");
}

#[test]
fn create_prestamped_preserves_uid_and_timestamp_but_assigns_rv() {
    let mut db = Db::new();
    let mut store = store();
    // The leader's pre-stamped object: uid + creationTimestamp already set.
    let mut pod = make_pod("web");
    pod.metadata.uid = Some("leader-uid-123".into());
    pod.metadata.creation_timestamp = Some("2026-06-12T10:00:00Z".into());

    let created = store.create_prestamped(&mut db, pod).expect("create_prestamped");

    // Determinism: the stamped fields are TRUSTED, not regenerated.
    assert_eq!(created.metadata.uid.as_deref(), Some("leader-uid-123"));
    assert_eq!(
        created.metadata.creation_timestamp.as_deref(),
        Some("2026-06-12T10:00:00Z")
    );
    // rv is still assigned here (deterministic - apply order is identical).
    assert_eq!(created.metadata.resource_version.as_deref(), Some("1"));
}

#[test]
fn create_prestamped_still_rejects_duplicates() {
    let mut db = Db::new();
    let mut store = store();
    store.create_prestamped(&mut db, make_pod("web")).unwrap();
    let err = store.create_prestamped(&mut db, make_pod("web")).unwrap_err();
    assert!(matches!(err, StoreError::AlreadyExists(ref n) if n == "web"));
}

#[test]
fn create_rejects_duplicate_name() {
    let mut db = Db::new();
    let mut store = store();
    store.create(&mut db, make_pod("web")).unwrap();
    let err = store.create(&mut db, make_pod("web")).unwrap_err();
    assert!(
        matches!(err, StoreError::AlreadyExists(ref n) if n == "web"),
        "expected AlreadyExists, got: {err:?}",
    );
}

#[test]
fn create_clobbers_client_provided_apiserver_fields() {
    let mut db = Db::new();
    let mut store = store();
    let mut pod = make_pod("web");
    pod.metadata.uid = Some("client-uid".into());
    pod.metadata.resource_version = Some("999".into());
    pod.metadata.generation = Some(42);
    pod.status = Some(running_status());

    let created = store.create(&mut db, pod).unwrap();
    assert_ne!(
        created.metadata.uid.as_deref(),
        Some("client-uid"),
        "apiserver must mint a fresh uid",
    );
    assert_eq!(created.metadata.resource_version.as_deref(), Some("1"));
    assert_eq!(created.metadata.generation, Some(1));
    assert!(created.status.is_none(), "client status must be discarded");
}

#[test]
fn get_returns_none_for_missing() {
    assert!(store().get("does-not-exist").is_none());
}

#[test]
fn get_returns_round_tripped_pod() {
    let mut db = Db::new();
    let mut store = store();
    let created = store.create(&mut db, make_pod("web")).unwrap();
    let fetched = store.get("web").expect("present");
    assert_eq!(fetched, created);
}

#[test]
fn list_returns_pods_and_current_rv_consistently() {
    let mut db = Db::new();
    let mut store = store();
    store.create(&mut db, make_pod("a")).unwrap();
    store.create(&mut db, make_pod("b")).unwrap();
    let (pods, rv) = store.list(&db);
    assert_eq!(pods.len(), 2);
    let names: Vec<&str> = pods.iter().map(|p| p.metadata.name.as_str()).collect();
    assert!(names.contains(&"a") && names.contains(&"b"));
    assert!(
        rv >= 2,
        "rv should be at-or-after the last write (got {rv})"
    );
}

#[test]
fn replace_spec_bumps_rv_and_generation_preserves_uid_and_status() {
    let mut db = Db::new();
    let mut store = store();
    let created = store.create(&mut db, make_pod("web")).unwrap();

    let with_status = store.replace_status(&mut db, "web", "1", with_running_status)
        .unwrap();
    assert_eq!(with_status.metadata.resource_version.as_deref(), Some("2"));
    assert_eq!(
        with_status.metadata.generation,
        Some(1),
        "status writes do NOT bump generation",
    );

    let mut new_pod = make_pod("web");
    new_pod.metadata.resource_version = Some("2".into());
    new_pod.spec.containers[0].command = vec!["echo".into(), "new".into()];
    let replaced = store.replace_spec(&mut db, "web", new_pod).unwrap();

    assert_eq!(replaced.metadata.uid, created.metadata.uid, "uid preserved");
    assert_eq!(
        replaced.metadata.creation_timestamp, created.metadata.creation_timestamp,
        "creationTimestamp preserved",
    );
    assert_eq!(
        replaced.metadata.generation,
        Some(2),
        "spec write bumps generation"
    );
    assert_eq!(replaced.metadata.resource_version.as_deref(), Some("3"));
    assert!(
        replaced.status.is_some(),
        "status preserved across spec write"
    );
    assert_eq!(replaced.spec.containers[0].command, vec!["echo", "new"]);
}

#[test]
fn replace_spec_rejects_stale_rv() {
    let mut db = Db::new();
    let mut store = store();
    store.create(&mut db, make_pod("web")).unwrap();

    let mut stale = make_pod("web");
    stale.metadata.resource_version = Some("999".into());
    let err = store.replace_spec(&mut db, "web", stale).unwrap_err();
    assert!(
        matches!(
            err,
            StoreError::Conflict { ref current, ref provided }
                if current == "1" && provided == "999"
        ),
        "expected Conflict {{1, 999}}, got: {err:?}",
    );
}

#[test]
fn replace_spec_missing_rv_is_rejected_as_conflict() {
    let mut db = Db::new();
    let mut store = store();
    store.create(&mut db, make_pod("web")).unwrap();
    // make_pod() leaves resource_version = None - simulates a client
    // that forgot to fetch-then-PUT.
    let err = store.replace_spec(&mut db, "web", make_pod("web")).unwrap_err();
    assert!(matches!(err, StoreError::Conflict { .. }));
}

#[test]
fn replace_status_bumps_rv_but_not_generation() {
    let mut db = Db::new();
    let mut store = store();
    store.create(&mut db, make_pod("web")).unwrap();
    let updated = store.replace_status(&mut db, "web", "1", with_running_status)
        .unwrap();

    assert_eq!(updated.metadata.resource_version.as_deref(), Some("2"));
    assert_eq!(
        updated.metadata.generation,
        Some(1),
        "status writes do NOT bump generation",
    );
    assert_eq!(updated.status.as_ref().unwrap().phase, PodPhase::Running);
}

#[test]
fn delete_rejects_stale_rv_then_removes_on_correct_rv() {
    let mut db = Db::new();
    let mut store = store();
    store.create(&mut db, make_pod("web")).unwrap();

    let err = store.delete(&mut db, "web", "999").unwrap_err();
    assert!(matches!(err, StoreError::Conflict { .. }));
    assert!(
        store.get("web").is_some(),
        "rejected delete must not remove",
    );

    let removed = store.delete(&mut db, "web", "1").unwrap();
    assert_eq!(removed.metadata.name, "web");
    assert_eq!(
        removed.metadata.resource_version.as_deref(),
        Some("2"),
        "delete bumps rv so DELETED event has fresh rv",
    );
    assert!(
        store.get("web").is_none(),
        "successful delete removes"
    );
}

#[test]
fn delete_missing_pod_returns_not_found() {
    let err = store().delete(&mut Db::new(), "nope", "1").unwrap_err();
    assert!(matches!(err, StoreError::NotFound(ref n) if n == "nope"));
}

#[test]
fn writes_emit_watch_events_in_order() {
    let mut db = Db::new();
    let mut store = store();
    let created = store.create(&mut db, make_pod("web")).unwrap();
    let updated = store.replace_status(&mut db, "web", "1", with_running_status)
        .unwrap();
    let deleted = store.delete(&mut db, "web", "2").unwrap();

    let mut rx = store.take_events().into_iter();
    let ev1 = rx.next().expect("ADDED event");
    assert_eq!(ev1.event_type, WatchEventType::Added);
    assert_eq!(ev1.object, created);

    let ev2 = rx.next().expect("MODIFIED event");
    assert_eq!(ev2.event_type, WatchEventType::Modified);
    assert_eq!(ev2.object, updated);

    let ev3 = rx.next().expect("DELETED event");
    assert_eq!(ev3.event_type, WatchEventType::Deleted);
    assert_eq!(ev3.object, deleted);

    // No more events queued.
    assert!(rx.next().is_none());
}

#[derive(Debug, Clone, PartialEq, Default)]
struct TestResource {
    metadata: ObjectMeta,
    payload: u32,
    status: Option<u32>,
}

impl DeepView for TestResource {
    type V = ();

    fn deep_view(&self) {
        unreachable!()
    }
}

impl Duplicate for TestResource {
    fn duplicate(&self) -> Self {
        self.clone()
    }
}

impl ResourceMeta for TestResource {
    fn prefix() -> Chars {
        unreachable!()
    }
    fn meta_of(_: ()) -> MetaView {
        unreachable!()
    }
    fn with_meta(_: (), _: MetaView) {
        unreachable!()
    }
    fn without_status(_: ()) {
        unreachable!()
    }
    fn with_status_of(_: (), _: ()) {
        unreachable!()
    }
    fn parts_are_independent(_: (), _: MetaView, _: ()) {
        unreachable!()
    }
    fn kind_prefix() -> &'static str {
        "tests/"
    }
    fn meta(&self) -> &ObjectMeta {
        &self.metadata
    }
    fn meta_mut(&mut self) -> &mut ObjectMeta {
        &mut self.metadata
    }
    fn clear_status(&mut self) {
        self.status = None;
    }
    fn inherit_status(&mut self, current: &Self) {
        self.status = current.status;
    }
}

fn tests_store() -> ResourceStore<TestResource> {
    ResourceStore::new()
}

fn make(name: &str, payload: u32) -> TestResource {
    TestResource {
        metadata: ObjectMeta {
            name: name.into(),
            ..Default::default()
        },
        payload,
        status: None,
    }
}

#[test]
fn create_get_list_roundtrip_for_arbitrary_type() {
    let mut db = Db::new();
    let mut store = tests_store();
    let created = store.create(&mut db, make("a", 7)).unwrap();
    assert_eq!(created.metadata.resource_version.as_deref(), Some("1"));
    assert_eq!(created.payload, 7);
    assert!(created.metadata.uid.is_some());

    assert_eq!(store.get("a"), Some(created));
    let (items, rv) = store.list(&db);
    assert_eq!(items.len(), 1);
    assert_eq!(rv, 1);
}

#[test]
fn stale_rv_replace_conflicts_for_arbitrary_type() {
    let mut db = Db::new();
    let mut store = tests_store();
    store.create(&mut db, make("a", 1)).unwrap(); // rv=1
    let mut stale = make("a", 2);
    stale.metadata.resource_version = Some("99".into());
    let err = store.replace_spec(&mut db, "a", stale).unwrap_err();
    assert!(matches!(err, StoreError::Conflict { .. }), "got: {err:?}");
}

#[test]
fn replace_status_closure_mutates_arbitrary_type() {
    let mut db = Db::new();
    let mut store = tests_store();
    store.create(&mut db, make("a", 1)).unwrap(); // rv=1
    let updated = store.replace_status(&mut db, "a", "1", |mut r: TestResource| {
            r.status = Some(42);
            r
        })
        .unwrap();
    assert_eq!(updated.status, Some(42));
    assert_eq!(updated.metadata.resource_version.as_deref(), Some("2"));
}

#[test]
fn prefix_isolates_kinds_sharing_one_db() {
    // Two stores over the SAME database but of different kinds must not
    // see each other's objects, yet must share the global rv_counter.
    let mut db = Db::new();
    let mut tests = ResourceStore::<TestResource>::new();
    let mut pods = ResourceStore::<Pod>::new();

    tests.create(&mut db, make("a", 1)).unwrap(); // global rv -> 1
    let p = pods
        .create(&mut db, Pod {
            api_version: "v1".into(),
            kind: "Pod".into(),
            metadata: ObjectMeta {
                name: "web".into(),
                ..Default::default()
            },
            spec: PodSpec {
                containers: vec![],
                node_name: None,
            },
            status: None,
        })
        .unwrap(); // global rv -> 2

    // Each store lists only its own kind...
    assert_eq!(tests.list(&db).0.len(), 1);
    assert_eq!(pods.list(&db).0.len(), 1);
    assert!(tests.get("web").is_none());
    assert!(pods.get("a").is_none());

    // ...but the rv counter is shared: the Pod got rv=2, not rv=1.
    assert_eq!(p.metadata.resource_version.as_deref(), Some("2"));
}

#[test]
fn keys_hold_kind_and_name() {
    assert_eq!(object_key::<Pod>("web"), "pods/web");
    let mut db = Db::new();
    let mut store = store();
    let created = store.create(&mut db, make_pod("web")).unwrap();
    let (key, name) = index_rv(&created.metadata).unwrap();
    assert_eq!(key, b"00000000000000000001".to_vec());
    assert_eq!(name, "web");
}

#[test]
fn a_restart_goes_on_where_it_stopped() {
    let mut db = Db::new();
    let mut before = store();
    before.create(&mut db, make_pod("a")).unwrap();
    before.create(&mut db, make_pod("b")).unwrap();

    let mut again = Db::new();
    again.restore_counter("rv_counter".into(), db.current_rv());
    let mut after = store();
    for p in before.list(&db).0 {
        after.restore(p.metadata.name.clone(), p);
    }
    assert_eq!(after.list(&again), before.list(&db));
    let c = after.create(&mut again, make_pod("c")).unwrap();
    assert_eq!(c.metadata.resource_version.as_deref(), Some("3"));
}

#[test]
fn counters_count_apart() {
    let mut db = Db::new();
    assert_eq!(db.next_index("x"), 0);
    assert_eq!(db.next_index("x"), 1);
    assert_eq!(db.next_index("y"), 0);
    assert_eq!(db.counter_value("x"), 2);
    assert_eq!(db.current_rv(), 0);
}

#[test]
fn identities_are_fresh() {
    let mut db = Db::new();
    let mut store = store();
    let a = store.create(&mut db, make_pod("a")).unwrap().metadata.uid.unwrap();
    let b = store.create(&mut db, make_pod("b")).unwrap().metadata.uid.unwrap();
    assert_ne!(a, b);
    assert_eq!(a.len(), 36);
    assert!(uuid::Uuid::parse_str(&a).is_ok());
}

#[test]
fn store_errors_in_words() {
    assert_eq!(StoreError::NotFound("web".into()).message(), "not found: web");
    assert_eq!(StoreError::AlreadyExists("web".into()).message(), "already exists: web");
}
