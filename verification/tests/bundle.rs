//! The container bundle.

use my_k8s::pod::Container;
use my_k8s::runtime::bundle::{build_spec, BundleSpec, NamespaceKind, NamespaceSpec};

fn sample_container() -> Container {
    Container {
        name: "test".into(),
        image: "busybox".into(),
        command: vec!["/bin/echo".into(), "hello".into()],
    }
}

/// Find a namespace by kind in the bundle.
fn find_ns(spec: &BundleSpec, kind: NamespaceKind) -> NamespaceSpec {
    spec.namespaces
        .iter()
        .find(|n| n.kind == kind)
        .unwrap_or_else(|| panic!("namespace {kind:?} not found"))
        .clone()
}

#[test]
fn pause_container_creates_all_new_namespaces() {
    let spec = build_spec(&sample_container(), "/rootfs", None);
    let nss = &spec.namespaces;
    for ns in nss {
        assert_eq!(
            ns.path,
            None,
            "pause container should not join any existing namespace ({:?})",
            ns.kind,
        );
    }
}

#[test]
fn app_container_joins_pauses_net_ipc_uts() {
    let spec = build_spec(&sample_container(), "/rootfs", Some(1234));
    assert_eq!(
        find_ns(&spec, NamespaceKind::Network).path,
        Some("/proc/1234/ns/net".to_string()),
    );
    assert_eq!(
        find_ns(&spec, NamespaceKind::Ipc).path,
        Some("/proc/1234/ns/ipc".to_string()),
    );
    assert_eq!(
        find_ns(&spec, NamespaceKind::Uts).path,
        Some("/proc/1234/ns/uts".to_string()),
    );
}

#[test]
fn app_container_keeps_pid_and_mount_per_container() {
    let spec = build_spec(&sample_container(), "/rootfs", Some(1234));
    assert_eq!(
        find_ns(&spec, NamespaceKind::Pid).path,
        None,
        "PID ns should NOT be shared by default (matches K8s shareProcessNamespace=false)",
    );
    assert_eq!(
        find_ns(&spec, NamespaceKind::Mount).path,
        None,
        "Mount ns is always per-container",
    );
}

#[test]
fn process_args_match_container_command() {
    let spec = build_spec(&sample_container(), "/rootfs", None);
    assert_eq!(
        spec.process.args,
        vec!["/bin/echo", "hello"],
    );
}

#[test]
fn the_rest_of_a_bundle() {
    let spec = build_spec(&sample_container(), "/rootfs", None);
    assert_eq!(spec.version, "1.0.2");
    assert_eq!(spec.hostname, "test");
    assert_eq!(spec.root.path, "/rootfs");
    assert!(spec.root.readonly);
    assert!(!spec.process.terminal);
    assert!(spec.process.no_new_privileges);
    assert_eq!((spec.process.uid, spec.process.gid), (0, 0));
    assert_eq!(spec.process.env, vec!["PATH=/bin", "HOME=/"]);
    assert_eq!(spec.process.cwd, "/");
    let where_to: Vec<&str> = spec.mounts.iter().map(|m| m.destination.as_str()).collect();
    assert_eq!(where_to, vec!["/proc", "/dev", "/sys", "/tmp"]);
    assert_eq!(spec.mounts[0].options, None);
    assert_eq!(
        spec.mounts[3].options,
        Some(vec!["nosuid".into(), "nodev".into(), "mode=1777".into(), "size=16m".into()])
    );
}
