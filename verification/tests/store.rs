//! What a node agent knows about its Pods.

use my_k8s::pod::{Pod, PodMetadata, PodSpec};
use my_k8s::runtime::sandbox::PodSandbox;
use my_k8s::store::{PodState, Store};

/// A minimal state with just enough structure for these tests.
fn make_pod_state(name: &str) -> PodState {
    let pod = Pod {
        api_version: "v1".into(),
        kind: "Pod".into(),
        metadata: PodMetadata {
            name: name.into(),
            ..Default::default()
        },
        spec: PodSpec {
            containers: vec![],
            node_name: None,
        },
        status: None,
    };
    let sandbox = PodSandbox::new(
        name.into(),
        "/tmp/store-test-pods".into(),
        "/tmp/store-test-rootfs".into(),
    );
    PodState { pod, sandbox }
}

#[test]
fn new_store_is_empty() {
    let store = Store::new();
    assert!(store.is_empty());
    assert_eq!(store.len(), 0);
}

#[test]
fn insert_then_get_returns_same_pod() {
    let mut store = Store::new();
    store.insert(make_pod_state("web"));
    let name = "web".to_string();
    let state = store
        .get(&name)
        .expect("inserted pod should be retrievable");
    assert_eq!(state.pod.metadata.name, "web");
    assert!(store.contains(&name));
    assert_eq!(store.len(), 1);
}

#[test]
fn remove_returns_state_and_clears_entry() {
    let mut store = Store::new();
    store.insert(make_pod_state("web"));
    let name = "web".to_string();
    let removed = store.remove(&name).expect("should remove");
    assert_eq!(removed.pod.metadata.name, "web");
    assert!(!store.contains(&name));
    assert!(store.is_empty());
}

#[test]
fn remove_missing_returns_none() {
    let mut store = Store::new();
    assert!(store.remove("nonexistent").is_none());
}

#[test]
fn names_returns_all_inserted_pods() {
    let mut store = Store::new();
    store.insert(make_pod_state("web"));
    store.insert(make_pod_state("worker"));
    let mut names = store.names();
    names.sort();
    assert_eq!(names, vec!["web".to_string(), "worker".to_string()]);
}

#[test]
fn drain_empties_store_and_returns_all_entries() {
    let mut store = Store::new();
    store.insert(make_pod_state("web"));
    store.insert(make_pod_state("worker"));
    let drained = store.drain();
    assert_eq!(drained.len(), 2);
    assert!(store.is_empty(), "drain should leave store empty");
}

#[test]
fn insert_replaces_and_get_mut_changes_in_place() {
    let mut store = Store::new();
    store.insert(make_pod_state("web"));
    store.insert(make_pod_state("worker"));
    let mut newer = make_pod_state("web");
    newer.sandbox.pause_pid = Some(7);
    store.insert(newer);
    assert_eq!(store.len(), 2);
    assert_eq!(store.get("web").unwrap().sandbox.pause_pid(), Some(7));

    store.get_mut("worker").unwrap().sandbox.pause_pid = Some(9);
    assert_eq!(store.get("worker").unwrap().sandbox.pause_pid(), Some(9));
    assert_eq!(store.get("web").unwrap().sandbox.pause_pid(), Some(7));
    assert!(store.get_mut("nope").is_none());
}
