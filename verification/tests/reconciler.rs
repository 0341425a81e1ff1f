//! The node agent's loop.

use std::collections::{HashMap, HashSet};

use my_k8s::names::NameMap;
use my_k8s::pod::{Container, Pod, PodMetadata, PodSpec};
use my_k8s::reconciler::{
    compute_backoff, AgentError, BackoffPolicy, Reconciler, RestartTracker,
};
use my_k8s::runtime::bundle::BundleSpec;
use my_k8s::runtime::sandbox::SandboxError;
use my_k8s::runtime::{
    CommandError, ContainerState, RecoveredContainer, RuntimeClient, RuntimeError, Trace,
};


/// Mock runtime. Records every call. Killed containers automatically
/// report Stopped on subsequent state queries (simulates termination)
/// so tests don't have to manually set up state sequences for the
/// sandbox's grace-period polling.
#[derive(Default)]
struct MockRuntime {
    calls: Vec<String>,
    /// Explicit FIFO state overrides per container_id. Consumed before
    /// the killed/default logic kicks in.
    state_seq: HashMap<String, Vec<ContainerState>>,
    pids: HashMap<String, u32>,
    /// IDs whose create_container should return Err (for rollback tests).
    create_should_fail: HashSet<String>,
    /// Containers that have been killed but not yet recreated. They
    /// report Stopped on state queries until delete+create cycles them.
    killed: HashSet<String>,
    /// Bundles that were written, with their directories.
    bundles: Vec<(String, BundleSpec)>,
    /// Directories that were removed.
    removed: Vec<String>,
    /// Commands that were run on the host.
    commands: Vec<String>,
    /// Commands that fail, by words they hold.
    refuse: Vec<(String, CommandError)>,
    clock: u64,
    naps: u32,
}

impl RuntimeClient for MockRuntime {
    fn trace(&self) -> Trace {
        unreachable!()
    }
    fn write_bundle(&mut self, dir: &str, spec: &BundleSpec) -> Result<(), String> {
        self.bundles.push((dir.to_string(), spec.clone()));
        Ok(())
    }
    fn remove_dir(&mut self, dir: &str) {
        self.removed.push(dir.to_string());
    }
    fn run_command(&mut self, argv: &Vec<String>) -> Result<(), CommandError> {
        self.commands.push(argv.join(" "));
        match self.refuse.iter().find(|(words, _)| argv.join(" ").contains(words.as_str())) {
            Some((_, e)) => Err(e.clone()),
            None => Ok(()),
        }
    }
    fn now_millis(&mut self) -> u64 {
        self.clock
    }
    fn sleep_millis(&mut self, millis: u64) {
        self.clock += millis;
        self.naps += 1;
    }
    fn recover_all(&mut self) -> Result<Vec<RecoveredContainer>, RuntimeError> {
        Ok(Vec::new())
    }
    fn create_container(&mut self, id: &str, _bundle_path: &str) -> Result<(), RuntimeError> {
        self.calls.push(format!("create({id})"));
        if self.create_should_fail.contains(id) {
            return Err(RuntimeError::Other(
                "injected create failure".into()
            ));
        }
        self.killed.remove(id); // fresh container - no longer "killed"
        Ok(())
    }

    fn start_container(&mut self, id: &str) -> Result<(), RuntimeError> {
        self.calls.push(format!("start({id})"));
        Ok(())
    }

    fn kill_container(&mut self, id: &str, signal: i32) -> Result<(), RuntimeError> {
        self.calls.push(format!("kill({id},{signal})"));
        self.killed.insert(id.to_string());
        Ok(())
    }

    fn delete_container(&mut self, id: &str, force: bool) -> Result<(), RuntimeError> {
        self.calls.push(format!("delete({id},force={force})"));
        self.killed.remove(id); // gone
        Ok(())
    }

    fn container_state(&mut self, id: &str) -> Result<ContainerState, RuntimeError> {
        self.calls.push(format!("state({id})"));
        let seq = self.state_seq.entry(id.to_string()).or_default();
        if !seq.is_empty() {
            return Ok(seq.remove(0));
        }
        if self.killed.contains(id) {
            return Ok(ContainerState::Stopped);
        }
        Ok(ContainerState::Running)
    }

    fn container_pid(&mut self, id: &str) -> Result<Option<u32>, RuntimeError> {
        self.calls.push(format!("pid({id})"));
        Ok(self.pids.get(id).copied())
    }
}

fn make_pod(name: &str, containers: Vec<(&str, Vec<&str>)>) -> Pod {
    Pod {
        api_version: "v1".into(),
        kind: "Pod".into(),
        metadata: PodMetadata {
            name: name.into(),
            ..Default::default()
        },
        spec: PodSpec {
            containers: containers
                .into_iter()
                .map(|(cname, cmd)| Container {
                    name: cname.into(),
                    image: "busybox".into(),
                    command: cmd.into_iter().map(String::from).collect(),
                })
                .collect(),
            node_name: None,
        },
        status: None,
    }
}

fn make_reconciler(label: &str) -> Reconciler<MockRuntime> {
    let mut r = Reconciler::new(
        format!("/{label}-manifests"),
        format!("/pods/{label}"),
        "/nonexistent-rootfs".to_string(),
        MockRuntime::default(),
        None,
    );
    r.backoff = BackoffPolicy {
        base_millis: 50,
        max_millis: 500,
    };
    r
}

fn desired_map(pods: Vec<Pod>) -> NameMap<Pod> {
    let mut map = NameMap::new();
    for p in pods {
        map.insert(p.metadata.name.clone(), p);
    }
    map
}

/// Count how many times a specific call string appears in the recorded log.
fn count_calls(r: &Reconciler<MockRuntime>, needle: &str) -> usize {
    r.runtime.calls.iter().filter(|c| *c == needle).count()
}

#[test]
fn empty_desired_with_empty_store_is_noop() {
    let mut r = make_reconciler("empty");
    r.apply_diff(&desired_map(vec![]));
    assert!(r.runtime.calls.is_empty());
    assert!(r.store.is_empty());
}

#[test]
fn new_pod_creates_sandbox_then_containers() {
    let mut r = make_reconciler("new-pod");
    r.runtime.pids.insert("web__pause".into(), 4242);
    let pod = make_pod("web", vec![("server", vec!["httpd", "-f"])]);

    r.apply_diff(&desired_map(vec![pod]));

    assert!(r.store.contains("web"));
    // Verify lifecycle order: pause must be created+started+pid'd before app.
    let calls = &r.runtime.calls;
    let create_pause = calls
        .iter()
        .position(|c| c == "create(web__pause)")
        .unwrap();
    let start_pause = calls.iter().position(|c| c == "start(web__pause)").unwrap();
    let pid_pause = calls.iter().position(|c| c == "pid(web__pause)").unwrap();
    let create_app = calls
        .iter()
        .position(|c| c == "create(web__server)")
        .unwrap();
    let start_app = calls
        .iter()
        .position(|c| c == "start(web__server)")
        .unwrap();
    assert!(create_pause < start_pause);
    assert!(start_pause < pid_pause);
    assert!(pid_pause < create_app);
    assert!(create_app < start_app);
}

#[test]
fn removed_pod_destroys_sandbox() {
    let mut r = make_reconciler("remove");
    r.runtime.pids.insert("web__pause".into(), 4242);
    let pod = make_pod("web", vec![("server", vec!["httpd"])]);
    r.apply_diff(&desired_map(vec![pod]));
    assert!(r.store.contains("web"));

    // Tick 2: pod no longer in desired.
    r.apply_diff(&desired_map(vec![]));
    assert!(!r.store.contains("web"), "pod should be removed");
    // Pause must have been deleted as part of sandbox.destroy.
    assert!(
        r.runtime
            .calls
            .contains(&"delete(web__pause,force=true)".to_string()),
        "expected pause delete; got calls: {:?}",
        r.runtime.calls,
    );
}

#[test]
fn stopped_container_triggers_restart() {
    let mut r = make_reconciler("restart");
    r.runtime.pids.insert("web__pause".into(), 4242);
    let pod = make_pod("web", vec![("server", vec!["httpd"])]);
    r.apply_diff(&desired_map(vec![pod.clone()]));

    r.runtime.calls.clear();
    // First call after clear: container is observed Stopped.
    r.runtime
        .state_seq
        .insert("web__server".into(), vec![ContainerState::Stopped]);

    r.apply_diff(&desired_map(vec![pod]));

    // Liveness saw Stopped -> restart path: delete + create + start.
    assert_eq!(count_calls(&r, "delete(web__server,force=true)"), 1);
    assert_eq!(count_calls(&r, "create(web__server)"), 1);
    assert_eq!(count_calls(&r, "start(web__server)"), 1);
    // Tracker should now exist.
    assert!(r.restart_state.contains_key("web__server"));
}

#[test]
fn backoff_skips_restart_within_window_then_fires_after_expiry() {
    let mut r = make_reconciler("backoff");
    r.runtime.pids.insert("web__pause".into(), 4242);
    let pod = make_pod("web", vec![("server", vec!["httpd"])]);
    r.apply_diff(&desired_map(vec![pod.clone()]));

    // Stays stopped across many ticks.
    r.runtime.state_seq.insert(
        "web__server".into(),
        std::iter::repeat_n(ContainerState::Stopped, 20).collect(),
    );

    // Tick A: first observation -> restart (count=1, next backoff = 50ms in test mode).
    r.apply_diff(&desired_map(vec![pod.clone()]));
    let restarts_after_a = count_calls(&r, "create(web__server)");

    // Tick B: immediately again - still in backoff, NO additional restart.
    r.apply_diff(&desired_map(vec![pod.clone()]));
    let restarts_after_b = count_calls(&r, "create(web__server)");
    assert_eq!(
        restarts_after_a, restarts_after_b,
        "tick within backoff window must NOT trigger an additional restart",
    );

    // Sleep past the backoff window (BACKOFF_BASE in test = 50ms).
    r.runtime.clock += 80;

    // Tick C: backoff expired -> restart fires again.
    r.apply_diff(&desired_map(vec![pod]));
    let restarts_after_c = count_calls(&r, "create(web__server)");
    assert_eq!(
        restarts_after_c,
        restarts_after_b + 1,
        "after backoff expires, restart should fire exactly once more",
    );
}

#[test]
fn running_container_clears_backoff_tracker() {
    let mut r = make_reconciler("clear");
    r.runtime.pids.insert("web__pause".into(), 4242);
    let pod = make_pod("web", vec![("server", vec!["httpd"])]);
    r.apply_diff(&desired_map(vec![pod.clone()]));

    // Trigger a restart so a tracker exists.
    r.runtime
        .state_seq
        .insert("web__server".into(), vec![ContainerState::Stopped]);
    r.apply_diff(&desired_map(vec![pod.clone()]));
    assert!(r.restart_state.contains_key("web__server"));

    // Now container is back to Running.
    r.runtime
        .state_seq
        .insert("web__server".into(), vec![ContainerState::Running]);
    r.apply_diff(&desired_map(vec![pod]));
    assert!(
        !r.restart_state.contains_key("web__server"),
        "tracker should be cleared after observing Running",
    );
}

#[test]
fn partial_create_failure_rolls_back_sandbox() {
    let mut r = make_reconciler("rollback");
    r.runtime.pids.insert("web__pause".into(), 4242);
    // Second app container's create fails - first one will have already started.
    r.runtime.create_should_fail.insert("web__second".into());
    let pod = make_pod(
        "web",
        vec![("first", vec!["ok"]), ("second", vec!["fails"])],
    );

    r.apply_diff(&desired_map(vec![pod]));

    assert!(
        !r.store.contains("web"),
        "pod must NOT be in store after partial-failure rollback",
    );
    // Rollback destroys the sandbox: pause container deleted.
    assert!(
        r.runtime
            .calls
            .contains(&"delete(web__pause,force=true)".to_string()),
        "rollback should delete pause; got calls: {:?}",
        r.runtime.calls,
    );
    // And the partially-added "first" container also got cleaned up.
    assert!(
        r.runtime
            .calls
            .contains(&"delete(web__first,force=true)".to_string()),
        "rollback should delete the successfully-added container too",
    );
}

#[test]
fn remove_pod_clears_restart_trackers() {
    let mut r = make_reconciler("clear-trackers");
    r.runtime.pids.insert("web__pause".into(), 4242);
    let pod = make_pod("web", vec![("server", vec!["httpd"])]);
    r.apply_diff(&desired_map(vec![pod.clone()]));

    // Trigger a restart so a tracker exists.
    r.runtime
        .state_seq
        .insert("web__server".into(), vec![ContainerState::Stopped]);
    r.apply_diff(&desired_map(vec![pod]));
    assert!(r.restart_state.contains_key("web__server"));

    // Now remove the pod from desired.
    r.apply_diff(&desired_map(vec![]));
    assert!(
        !r.restart_state.contains_key("web__server"),
        "tracker must be removed when its pod is removed",
    );
}

#[test]
fn shutdown_destroys_all_pods_and_clears_trackers() {
    let mut r = make_reconciler("shutdown");
    r.runtime.pids.insert("a__pause".into(), 1);
    r.runtime.pids.insert("b__pause".into(), 2);
    let a = make_pod("a", vec![("server", vec!["httpd"])]);
    let b = make_pod("b", vec![("server", vec!["httpd"])]);
    r.apply_diff(&desired_map(vec![a, b]));
    assert_eq!(r.store.len(), 2);
    // Synthesize a tracker so we can verify it's cleared too.
    r.restart_state.insert(
        "a__server".into(),
        RestartTracker {
            restart_count: 1,
            next_retry_at: 0,
        },
    );

    r.shutdown();

    assert!(r.store.is_empty());
    assert!(r.restart_state.is_empty());
    assert!(
        r.runtime
            .calls
            .contains(&"delete(a__pause,force=true)".to_string())
    );
    assert!(
        r.runtime
            .calls
            .contains(&"delete(b__pause,force=true)".to_string())
    );
}

#[test]
fn waiting_doubles_up_to_five_minutes() {
    let policy = BackoffPolicy::default();
    let millis: Vec<u64> = (0..9).map(|n| compute_backoff(policy, n)).collect();
    assert_eq!(
        millis,
        vec![10_000, 10_000, 20_000, 40_000, 80_000, 160_000, 300_000, 300_000, 300_000]
    );
    assert_eq!(compute_backoff(policy, u32::MAX), 300_000);
    let slow = BackoffPolicy { base_millis: 1, max_millis: u64::MAX };
    assert_eq!(compute_backoff(slow, 21), 1 << 20);
    assert_eq!(compute_backoff(slow, 22), 1 << 20);
    let huge = BackoffPolicy { base_millis: u64::MAX, max_millis: u64::MAX };
    assert_eq!(compute_backoff(huge, 9), u64::MAX);
}

#[test]
fn the_snapshot_shows_restarts_and_waits() {
    let mut r = make_reconciler("snapshot");
    r.runtime.pids.insert("web__pause".into(), 4242);
    let pod = make_pod("web", vec![("server", vec!["httpd", "-f"])]);
    r.apply_diff(&desired_map(vec![pod]));
    r.restart_state.insert(
        "web__server".into(),
        RestartTracker { restart_count: 3, next_retry_at: 7_999 },
    );
    let pods = r.snapshot(1_000);
    assert_eq!(pods.len(), 1);
    assert_eq!(pods[0].name, "web");
    assert_eq!(pods[0].pause_pid, Some(4242));
    assert_eq!(pods[0].containers[0].name, "server");
    assert_eq!(pods[0].containers[0].command, vec!["httpd", "-f"]);
    assert_eq!(pods[0].containers[0].restart_count, 3);
    assert_eq!(pods[0].containers[0].backoff_remaining_secs, 6);
    assert_eq!(r.snapshot(9_000)[0].containers[0].backoff_remaining_secs, 0);
}

#[test]
fn a_failed_restart_counts_too() {
    let mut r = make_reconciler("failed-restart");
    r.runtime.pids.insert("web__pause".into(), 4242);
    let pod = make_pod("web", vec![("server", vec!["httpd"])]);
    r.apply_diff(&desired_map(vec![pod.clone()]));
    r.runtime
        .state_seq
        .insert("web__server".into(), vec![ContainerState::Stopped]);
    r.runtime.create_should_fail.insert("web__server".into());
    let e = r.reconcile_liveness("web", &pod).unwrap_err();
    assert_eq!(told(&e), "restart container server");
    let t = *r.restart_state.get("web__server").unwrap();
    assert_eq!(t.restart_count, 1);
    assert_eq!(t.next_retry_at, 50);
}

/// What an error says was tried.
fn told(e: &AgentError) -> &str {
    match e {
        AgentError::Sandbox { what, .. } => what,
        AgentError::Runtime { what, .. } => what,
    }
}

#[test]
fn a_round_hands_back_what_failed_and_at_what() {
    let mut r = make_reconciler("failures");
    for name in ["a", "b", "c"] {
        r.runtime.pids.insert(format!("{name}__pause"), 4242);
    }
    r.runtime.create_should_fail.insert("a__pause".into());
    r.runtime.create_should_fail.insert("b__second".into());
    let pods = vec![
        make_pod("c", vec![("only", vec!["sleep"])]),
        make_pod("b", vec![("first", vec!["sleep"]), ("second", vec!["sleep"])]),
        make_pod("a", vec![("only", vec!["sleep"])]),
    ];
    let failures = r.apply_diff(&desired_map(pods));
    let words: Vec<&str> = failures.iter().map(told).collect();
    assert_eq!(words, vec!["create sandbox", "add container second"]);
    match &failures[0] {
        AgentError::Sandbox { cause: SandboxError::Runtime { cause, .. }, .. } => {
            assert_eq!(*cause, RuntimeError::Other("injected create failure".into()));
        }
        other => panic!("{other:?}"),
    }
    assert!(r.store.contains("c"));
    assert!(!r.store.contains("a") && !r.store.contains("b"));
}
