//! One Pod on a node.

use std::collections::HashMap;

use my_k8s::pod::Container;
use my_k8s::runtime::bundle::{BundleSpec, NamespaceKind};
use my_k8s::runtime::sandbox::{
    ensure_bridge, host_veth_name, peer_veth_name, veth_name, PodSandbox, SandboxError, SIGTERM,
};
use my_k8s::runtime::{
    tolerable, CommandError, ContainerState, RecoveredContainer, RuntimeClient, RuntimeError,
    Trace,
};


/// Records every trait call and serves canned responses. Lets us drive
/// PodSandbox through every state without libcontainer or root.
#[derive(Default)]
struct MockRuntime {
    /// Every call, appended in order. e.g. "create(test-pod__pause)".
    calls: Vec<String>,
    /// FIFO sequence of states per id. Empty means "default to Running."
    state_seq: HashMap<String, Vec<ContainerState>>,
    /// PIDs returned by container_pid(). Missing -> returns Ok(None).
    pids: HashMap<String, u32>,
    /// IDs that should produce NotFound on kill_container.
    kill_not_found: Vec<String>,
    /// Bundles that were written, with their directories.
    bundles: Vec<(String, BundleSpec)>,
    /// Directories that were removed.
    removed: Vec<String>,
    /// Commands that were run on the host.
    commands: Vec<String>,
    /// Commands that fail, by words they hold.
    refuse: Vec<(String, CommandError)>,
    clock: u64,
    naps: u32,
}

impl RuntimeClient for MockRuntime {
    fn trace(&self) -> Trace {
        unreachable!()
    }
    fn write_bundle(&mut self, dir: &str, spec: &BundleSpec) -> Result<(), String> {
        self.bundles.push((dir.to_string(), spec.clone()));
        Ok(())
    }
    fn remove_dir(&mut self, dir: &str) {
        self.removed.push(dir.to_string());
    }
    fn run_command(&mut self, argv: &Vec<String>) -> Result<(), CommandError> {
        self.commands.push(argv.join(" "));
        match self.refuse.iter().find(|(words, _)| argv.join(" ").contains(words.as_str())) {
            Some((_, e)) => Err(e.clone()),
            None => Ok(()),
        }
    }
    fn now_millis(&mut self) -> u64 {
        self.clock
    }
    fn sleep_millis(&mut self, millis: u64) {
        self.clock += millis;
        self.naps += 1;
    }
    fn create_container(&mut self, id: &str, _bundle_path: &str) -> Result<(), RuntimeError> {
        self.calls.push(format!("create({id})"));
        Ok(())
    }
    fn start_container(&mut self, id: &str) -> Result<(), RuntimeError> {
        self.calls.push(format!("start({id})"));
        Ok(())
    }
    fn kill_container(&mut self, id: &str, signal: i32) -> Result<(), RuntimeError> {
        self.calls.push(format!("kill({id},{signal})"));
        if self.kill_not_found.iter().any(|x| x == id) {
            return Err(RuntimeError::NotFound(id.to_string()));
        }
        Ok(())
    }
    fn delete_container(&mut self, id: &str, force: bool) -> Result<(), RuntimeError> {
        self.calls.push(format!("delete({id},force={force})"));
        Ok(())
    }
    fn container_state(&mut self, id: &str) -> Result<ContainerState, RuntimeError> {
        self.calls.push(format!("state({id})"));
        let seq = self.state_seq.entry(id.to_string()).or_default();
        if seq.is_empty() {
            return Ok(ContainerState::Running);
        }
        Ok(seq.remove(0))
    }
    fn container_pid(&mut self, id: &str) -> Result<Option<u32>, RuntimeError> {
        self.calls.push(format!("pid({id})"));
        Ok(self.pids.get(id).copied())
    }
    fn recover_all(&mut self) -> Result<Vec<RecoveredContainer>, RuntimeError> {
        // Sandbox tests never recover; nothing to enumerate.
        Ok(Vec::new())
    }
}

fn sample_app_container() -> Container {
    Container {
        name: "web".into(),
        image: "busybox".into(),
        command: vec!["/bin/busybox".into(), "httpd".into(), "-f".into()],
    }
}

/// Standard fixture: a fresh sandbox + a mock runtime that already has a
/// canned PID for the pause container, so `create()` can complete.
fn make_sandbox(label: &str) -> (PodSandbox, MockRuntime) {
    let pods_dir = format!("/pods/{label}");
    let rootfs = "/nonexistent-rootfs".to_string();
    let mut runtime = MockRuntime::default();
    runtime.pids.insert("test-pod__pause".into(), 4242);
    let sandbox = PodSandbox::new("test-pod".into(), pods_dir, rootfs);
    (sandbox, runtime)
}

#[test]
fn create_calls_runtime_in_order_and_captures_pause_pid() {
    let (mut sandbox, mut runtime) = make_sandbox("create");
    sandbox
        .create(&mut runtime, None)
        .expect("create should succeed");
    assert_eq!(sandbox.pause_pid(), Some(4242));
    // No IP passed -> loopback-only path; pod_ip stays None.
    assert_eq!(sandbox.pod_ip(), None);
    assert_eq!(
        runtime.calls,
        vec![
            "create(test-pod__pause)",
            "start(test-pod__pause)",
            "pid(test-pod__pause)",
        ],
    );
}

#[test]
fn create_with_ip_records_pod_ip() {
    let (mut sandbox, mut runtime) = make_sandbox("create-ip");
    sandbox
        .create(&mut runtime, Some("10.244.1.5".into()))
        .expect("create should succeed");
    // The IP bookkeeping is NOT cfg-gated, so it runs in tests even though
    // the veth/bridge shell-outs are compiled out.
    assert_eq!(sandbox.pod_ip(), Some("10.244.1.5"));
}

#[test]
fn add_container_fails_before_create() {
    let (mut sandbox, mut runtime) = make_sandbox("add-no-create");
    let result = sandbox.add_container(&mut runtime, &sample_app_container());
    assert!(result.is_err(), "add without prior create should fail");
    assert!(
        runtime.calls.is_empty(),
        "no runtime calls should have happened"
    );
}

#[test]
fn add_container_creates_and_starts_after_create() {
    let (mut sandbox, mut runtime) = make_sandbox("add-after-create");
    sandbox.create(&mut runtime, None).unwrap();
    let pre = runtime.calls.len();
    sandbox
        .add_container(&mut runtime, &sample_app_container())
        .expect("add should succeed");
    assert_eq!(
        &runtime.calls[pre..],
        &["create(test-pod__web)", "start(test-pod__web)"],
    );
    assert!(sandbox.contains_container("web"));
}

#[test]
fn remove_container_does_graceful_term_then_delete() {
    let (mut sandbox, mut runtime) = make_sandbox("remove-graceful");
    sandbox.create(&mut runtime, None).unwrap();
    sandbox
        .add_container(&mut runtime, &sample_app_container())
        .unwrap();
    // First state poll returns Stopped -> we exit the wait loop immediately,
    // so the test runs in milliseconds, not the full 5-second grace period.
    runtime
        .state_seq
        .insert("test-pod__web".into(), vec![ContainerState::Stopped]);
    let pre = runtime.calls.len();
    sandbox
        .remove_container(&mut runtime, "web")
        .expect("remove should succeed");
    let post = &runtime.calls[pre..];
    assert_eq!(post[0], format!("kill(test-pod__web,{})", 15));
    assert_eq!(post[1], "state(test-pod__web)");
    assert_eq!(post[2], "delete(test-pod__web,force=true)");
    assert!(!sandbox.contains_container("web"));
}

#[test]
fn remove_container_tolerates_already_gone() {
    let (mut sandbox, mut runtime) = make_sandbox("remove-gone");
    sandbox.create(&mut runtime, None).unwrap();
    sandbox
        .add_container(&mut runtime, &sample_app_container())
        .unwrap();
    runtime.kill_not_found.push("test-pod__web".into());
    let pre = runtime.calls.len();
    sandbox
        .remove_container(&mut runtime, "web")
        .expect("remove should tolerate NotFound on kill");
    let post = &runtime.calls[pre..];
    assert_eq!(post[0], format!("kill(test-pod__web,{})", 15));
    assert_eq!(post[1], "delete(test-pod__web,force=true)");
    assert!(
        !post.iter().any(|c| c.starts_with("state(")),
        "no state polling should occur after NotFound on kill",
    );
}

#[test]
fn from_recovered_populates_fields_without_touching_runtime() {
    let pods_dir = "/pods/from-recovered".to_string();
    let rootfs = "/nonexistent-rootfs".to_string();

    let sandbox = PodSandbox::from_recovered(
        "test-pod".into(),
        9999,
        vec!["web".into(), "log-tail".into()],
        pods_dir,
        rootfs,
        Some("10.244.1.5".into()),
    );

    // pause_id is derived from pod_name; restart-recovery must reconstruct
    // the same id the original create() would have produced.
    assert_eq!(sandbox.pod_name(), "test-pod");
    assert_eq!(sandbox.pause_pid(), Some(9999));
    // The recovered IP (read from the apiserver's persisted status) is
    // carried through so the kubelet can re-reserve it in IPAM.
    assert_eq!(sandbox.pod_ip(), Some("10.244.1.5"));
    assert_eq!(
        sandbox.app_container_names(),
        &["web".to_string(), "log-tail".to_string()],
    );
    assert!(sandbox.contains_container("web"));
    assert!(sandbox.contains_container("log-tail"));
    assert!(!sandbox.contains_container("nope"));
}

#[test]
fn destroy_removes_app_containers_before_pause() {
    let (mut sandbox, mut runtime) = make_sandbox("destroy");
    sandbox.create(&mut runtime, None).unwrap();
    sandbox
        .add_container(&mut runtime, &sample_app_container())
        .unwrap();
    runtime
        .state_seq
        .insert("test-pod__web".into(), vec![ContainerState::Stopped]);

    sandbox
        .destroy(&mut runtime)
        .expect("destroy should succeed");

    let web_delete_idx = runtime
        .calls
        .iter()
        .position(|c| c == "delete(test-pod__web,force=true)")
        .expect("web container should be deleted");
    let pause_delete_idx = runtime
        .calls
        .iter()
        .position(|c| c == "delete(test-pod__pause,force=true)")
        .expect("pause container should be deleted");
    assert!(
        web_delete_idx < pause_delete_idx,
        "app containers must be removed before pause (so they don't lose their netns mid-flight)",
    );
}

#[test]
fn veth_names_fit_ifnamsiz_and_are_deterministic() {
    // Even an absurdly long pod name must yield a <=15-byte interface name.
    let long = "a-really-long-pod-name-that-exceeds-ifnamsiz-by-a-lot";
    let host = host_veth_name(long);
    let peer = peer_veth_name(long);
    assert!(host.len() <= 15, "host veth {host:?} exceeds IFNAMSIZ");
    assert!(peer.len() <= 15, "peer veth {peer:?} exceeds IFNAMSIZ");

    // Host vs peer differ (distinct prefixes), so the pair can't clash.
    assert_ne!(host, peer);
    assert!(host.starts_with('v'));
    assert!(peer.starts_with('p'));

    // Deterministic: the SAME pod name always maps to the SAME name, so
    // `destroy` (which recomputes it) targets the link `create` made.
    assert_eq!(host, host_veth_name(long));
    // Different pod names map to different host veths (no collision).
    assert_ne!(host_veth_name("pod-a"), host_veth_name("pod-b"));
}

#[test]
fn the_signal_is_the_systems() {
    assert_eq!(SIGTERM, libc::SIGTERM);
}

#[test]
fn create_writes_the_pause_bundle_and_the_network() {
    let (mut sandbox, mut runtime) = make_sandbox("net");
    sandbox.create(&mut runtime, Some("10.244.1.5".into())).unwrap();
    assert_eq!(runtime.bundles[0].0, "/pods/net/test-pod/__pause");
    assert_eq!(runtime.bundles[0].1.process.args, vec!["/bin/busybox", "sleep", "infinity"]);
    assert_eq!(runtime.bundles[0].1.root.path, "/nonexistent-rootfs");
    let (v, p) = (host_veth_name("test-pod"), peer_veth_name("test-pod"));
    assert_eq!(
        runtime.commands,
        vec![
            format!("ip link add {v} type veth peer name {p}"),
            format!("ip link set {v} master mykube0"),
            format!("ip link set {v} up"),
            format!("ip link set {p} netns 4242"),
            format!("nsenter -t 4242 -n ip link set {p} name eth0"),
            "nsenter -t 4242 -n ip addr add 10.244.1.5/16 dev eth0".to_string(),
            "nsenter -t 4242 -n ip link set eth0 up".to_string(),
            "nsenter -t 4242 -n ip link set lo up".to_string(),
            "nsenter -t 4242 -n ip route add default via 10.244.0.1".to_string(),
        ]
    );
}

#[test]
fn create_without_an_address_only_has_loopback() {
    let (mut sandbox, mut runtime) = make_sandbox("lo");
    sandbox.create(&mut runtime, None).unwrap();
    assert_eq!(runtime.commands, vec!["nsenter -t 4242 -n ip link set lo up"]);
}

#[test]
fn create_stops_at_the_first_failure() {
    let (mut sandbox, mut runtime) = make_sandbox("stop");
    runtime.pids.clear();
    let e = sandbox.create(&mut runtime, None).unwrap_err();
    assert_eq!(e, SandboxError::NoPausePid);
    assert!(runtime.commands.is_empty());
    assert_eq!(sandbox.pause_pid(), None);

    let (mut sandbox, mut runtime) = make_sandbox("stop-net");
    let broken = CommandError::Failed { status: "1".into(), stderr: "no such bridge".into() };
    runtime.refuse.push(("master".into(), broken.clone()));
    match sandbox.create(&mut runtime, Some("10.244.1.5".into())).unwrap_err() {
        SandboxError::Command { what, cause, .. } => {
            assert_eq!(what, "configure pod network");
            assert_eq!(cause, broken);
        }
        other => panic!("unexpected {other:?}"),
    }
    assert_eq!(runtime.commands.len(), 2);
}

#[test]
fn containers_join_the_pause_containers_namespaces() {
    let (mut sandbox, mut runtime) = make_sandbox("join");
    sandbox.create(&mut runtime, None).unwrap();
    sandbox.add_container(&mut runtime, &sample_app_container()).unwrap();
    let (dir, spec) = &runtime.bundles[1];
    assert_eq!(dir, "/pods/join/test-pod/web");
    let net = spec.namespaces.iter().find(|n| n.kind == NamespaceKind::Network).unwrap();
    assert_eq!(net.path.as_deref(), Some("/proc/4242/ns/net"));
}

#[test]
fn a_container_that_does_not_exit_is_deleted_after_the_grace_period() {
    let (mut sandbox, mut runtime) = make_sandbox("grace");
    sandbox.create(&mut runtime, None).unwrap();
    sandbox.add_container(&mut runtime, &sample_app_container()).unwrap();
    // It keeps on running: fifty looks, a tenth of a second apart.
    sandbox.remove_container(&mut runtime, "web").unwrap();
    assert_eq!(runtime.naps, 50);
    assert_eq!(runtime.clock, 5000);
    assert_eq!(runtime.calls.last().unwrap(), "delete(test-pod__web,force=true)");
    assert_eq!(runtime.removed, vec!["/pods/grace/test-pod/web"]);
}

#[test]
fn destroy_cleans_up_the_host() {
    let (mut sandbox, mut runtime) = make_sandbox("clean");
    sandbox.create(&mut runtime, Some("10.244.1.5".into())).unwrap();
    sandbox.destroy(&mut runtime).unwrap();
    assert_eq!(runtime.removed, vec!["/pods/clean/test-pod"]);
    assert_eq!(
        runtime.commands.last().unwrap(),
        &format!("ip link del {}", host_veth_name("test-pod"))
    );
    assert_eq!(sandbox.pause_pid(), None);
    assert_eq!(sandbox.pod_ip(), None);
}

#[test]
fn the_bridge_may_exist_already() {
    let mut runtime = MockRuntime::default();
    let exists = CommandError::Failed {
        status: "2".into(),
        stderr: "RTNETLINK answers: File exists".into(),
    };
    runtime.refuse.push(("ip link add".into(), exists.clone()));
    runtime.refuse.push(("ip addr add".into(), exists.clone()));
    ensure_bridge(&mut runtime).unwrap();
    assert_eq!(
        runtime.commands,
        vec![
            "ip link add mykube0 type bridge",
            "ip addr add 10.244.0.1/16 dev mykube0",
            "ip link set mykube0 up",
            "sysctl -w net.ipv4.ip_forward=1",
        ]
    );
    assert!(tolerable(&exists, "File exists"));
    assert!(!tolerable(&CommandError::NotRun("File exists".into()), "File exists"));

    // Only the first two may find their work done.
    let mut runtime = MockRuntime::default();
    runtime.refuse.push(("sysctl".into(), exists));
    assert!(ensure_bridge(&mut runtime).is_err());
    let mut runtime = MockRuntime::default();
    let denied = CommandError::Failed { status: "1".into(), stderr: "denied".into() };
    runtime.refuse.push(("ip link add".into(), denied));
    assert!(ensure_bridge(&mut runtime).is_err());
    assert_eq!(runtime.commands.len(), 1);
}

#[test]
fn runtime_errors_in_words() {
    assert_eq!(RuntimeError::NotFound("a\"b".into()).message(), "container \"a\\\"b\" not found");
    assert_eq!(RuntimeError::AlreadyExists("a".into()).message(), "container \"a\" already exists");
    assert_eq!(
        RuntimeError::InvalidBundle { path: "/x".into(), reason: "empty".into() }.message(),
        "invalid bundle at \"/x\": empty"
    );
    assert_eq!(RuntimeError::Other("boom".into()).message(), "runtime error: boom");
}

#[test]
fn interface_names_are_a_prefix_and_hexadecimal_digits() {
    for pod in ["", "web", "a-really-long-pod-name-that-exceeds-ifnamsiz-by-a-lot"] {
        for prefix in ['v', 'p', 'x'] {
            let name = veth_name(prefix, pod);
            assert_eq!(name.len(), 15);
            assert!(name.starts_with(prefix));
            assert!(name.chars().skip(1).all(|c| matches!(c, '0'..='9' | 'a'..='f')));
            assert_eq!(name, veth_name(prefix, pod));
        }
        assert_eq!(veth_name('v', pod), host_veth_name(pod));
        assert_eq!(veth_name('p', pod), peer_veth_name(pod));
    }
}
