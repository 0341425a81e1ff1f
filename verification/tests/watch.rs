//! Watches.

use my_k8s::apiserver::storage::{Db, PodStore};
use my_k8s::apiserver::watch::{
    catch_up, forward, object_rv, Everything, Forward, Received, WatchError, WatchEventType,
};
use my_k8s::pod::{Container, Pod, PodMetadata, PodSpec};

fn make_pod(name: &str) -> Pod {
    Pod {
        api_version: "v1".into(),
        kind: "Pod".into(),
        metadata: PodMetadata {
            name: name.into(),
            ..Default::default()
        },
        spec: PodSpec {
            containers: vec![Container {
                name: "c".into(),
                image: "busybox".into(),
                command: vec!["sleep".into(), "1".into()],
            }],
            node_name: None,
        },
        status: None,
    }
}

#[test]
fn empty_store_catch_up_emits_nothing() {
    let db = Db::new();
    let store = PodStore::new();
    assert!(catch_up(store.list(&db).0, 0, &Everything).is_empty());
}

#[test]
fn catch_up_from_zero_emits_added_for_each_existing_pod() {
    let mut db = Db::new();
    let mut store = PodStore::new();
    store.create(&mut db, make_pod("a")).unwrap();
    store.create(&mut db, make_pod("b")).unwrap();
    store.create(&mut db, make_pod("c")).unwrap();

    let events = catch_up(store.list(&db).0, 0, &Everything);
    assert_eq!(events.len(), 3);
    assert!(events.iter().all(|e| e.event_type == WatchEventType::Added));
    let names: Vec<&str> = events
        .iter()
        .map(|e| e.object.metadata.name.as_str())
        .collect();
    assert!(names.contains(&"a"));
    assert!(names.contains(&"b"));
    assert!(names.contains(&"c"));
}

#[test]
fn catch_up_filters_by_from_rv() {
    let mut db = Db::new();
    let mut store = PodStore::new();
    store.create(&mut db, make_pod("a")).unwrap(); // rv=1
    store.create(&mut db, make_pod("b")).unwrap(); // rv=2
    store.create(&mut db, make_pod("c")).unwrap(); // rv=3

    // from_rv=2: only "c" (rv=3).
    let events = catch_up(store.list(&db).0, 2, &Everything);
    assert_eq!(events.len(), 1);
    assert_eq!(events[0].event_type, WatchEventType::Added);
    assert_eq!(events[0].object.metadata.name, "c");
}

#[test]
fn live_events_after_catch_up_are_delivered() {
    let mut db = Db::new();
    let mut store = PodStore::new();
    store.create(&mut db, make_pod("a")).unwrap(); // rv=1
    let (snapshot, snapshot_rv) = store.list(&db);
    let caught = catch_up(snapshot, 0, &Everything);
    assert_eq!(caught[0].object.metadata.name, "a");

    store.create(&mut db, make_pod("b")).unwrap();
    // The receiver holds both events: the one from before the snapshot is
    // passed over.
    let mut live = store.take_events().into_iter();
    let first = forward(Received::Event(live.next().unwrap()), snapshot_rv, &Everything);
    assert_eq!(first, Forward::Skip);
    match forward(Received::Event(live.next().unwrap()), snapshot_rv, &Everything) {
        Forward::Yield(ev) => {
            assert_eq!(ev.event_type, WatchEventType::Added);
            assert_eq!(ev.object.metadata.name, "b");
            assert!(object_rv(&ev.object) > 1, "live event rv must exceed snapshot_rv");
        }
        other => panic!("unexpected {other:?}"),
    }
}

#[test]
fn lagged_receiver_terminates_stream_with_error() {
    let item = forward::<Pod, Everything>(Received::Lagged(44), 0, &Everything);
    assert!(matches!(item, Forward::Fail(WatchError::Lagged(44))), "got: {item:?}");
    assert_eq!(
        WatchError::Lagged(44).message(),
        "watcher lagged behind, skipped 44 events"
    );
    assert_eq!(
        forward::<Pod, Everything>(Received::Closed, 0, &Everything),
        Forward::End
    );
}
