//! The node agent's loop: what it does each time to bring the Pods on its node
//! closer to the manifests it was given.

use vstd::prelude::*;

use crate::duplicate::Duplicate;
use crate::names;
use crate::names::NameMap;
use crate::pod::{Container, ContainerView, Pod, PodView};
use crate::runtime;
use crate::runtime::sandbox;
use crate::runtime::sandbox::{PodSandbox, SandboxError, SandboxErrorView, SandboxView};
use crate::runtime::{CallView, ContainerState, RuntimeClient, RuntimeError, RuntimeErrorView};
use crate::store::{PodState, PodStateView, Store};

pub mod laws;

verus! {

/// How long the loop rests between two rounds, in milliseconds.
pub const TICK_MILLIS: u64 = 2000;

/// How long a container that keeps failing is left alone: a base time that
/// doubles with each restart, up to a limit. In milliseconds.
#[derive(Debug, Clone, Copy, PartialEq, Eq, Structural)]
pub struct BackoffPolicy {
    pub base_millis: u64,
    pub max_millis: u64,
}

impl Default for BackoffPolicy {
    /// Ten seconds, up to five minutes.
    fn default() -> (policy: Self)
        ensures
            policy.base_millis == 10_000,
            policy.max_millis == 300_000,
    {
        BackoffPolicy { base_millis: 10_000, max_millis: 300_000 }
    }
}

/// How often the base time is doubled before a restart.
pub open spec fn doublings(restart_count: u32) -> nat {
    if restart_count == 0 {
        0
    } else if restart_count > 21 {
        20
    } else {
        (restart_count - 1) as nat
    }
}

/// The time that a container is left alone after so many restarts.
pub open spec fn backoff_after(policy: BackoffPolicy, restart_count: u32) -> u64 {
    let millis = policy.base_millis * vstd::arithmetic::power2::pow2(doublings(restart_count));
    if millis < policy.max_millis {
        millis as u64
    } else {
        policy.max_millis
    }
}

/// The time that a container is left alone after so many restarts.
pub fn compute_backoff(policy: BackoffPolicy, restart_count: u32) -> (millis: u64)
    ensures
        millis == backoff_after(policy, restart_count),
{
    let exp: u32 = if restart_count == 0 {
        0
    } else if restart_count > 21 {
        20
    } else {
        restart_count - 1
    };
    let mut factor: u64 = 1;
    proof {
        vstd::arithmetic::power2::lemma2_to64();
    }
    for i in 0..exp
        invariant
            exp <= 20,
            factor == vstd::arithmetic::power2::pow2(i as nat),
            factor <= 0x10_0000,
    {
        proof {
            vstd::arithmetic::power2::lemma_pow2_unfold((i + 1) as nat);
            vstd::arithmetic::power2::lemma2_to64();
            if i < 19 {
                vstd::arithmetic::power2::lemma_pow2_strictly_increases((i + 1) as nat, 20);
            }
        }
        factor = factor * 2;
    }
    assert(policy.base_millis * factor <= u64::MAX * 0x10_0000) by (nonlinear_arith)
        requires
            policy.base_millis <= u64::MAX,
            factor <= 0x10_0000,
    ;
    let millis: u128 = policy.base_millis as u128 * factor as u128;
    if millis < policy.max_millis as u128 {
        millis as u64
    } else {
        policy.max_millis
    }
}

/// How a container has fared: how often it was restarted since it last ran,
/// and when it may be restarted next, on the host's clock.
#[derive(Debug, Clone, Copy, PartialEq, Eq, Structural)]
pub struct RestartTracker {
    pub restart_count: u32,
    pub next_retry_at: u64,
}

impl DeepView for RestartTracker {
    type V = RestartTracker;

    open spec fn deep_view(&self) -> RestartTracker {
        *self
    }
}

pub type Trackers = Map<Seq<char>, RestartTracker>;

pub open spec fn container_id(pod: Seq<char>, container: Seq<char>) -> Seq<char> {
    pod + "__"@ + container
}

fn container_id_text(pod: &str, container: &str) -> (id: String)
    ensures
        id@ == container_id(pod@, container@),
{
    let mut id = pod.to_owned();
    id.append("__");
    id.append(container);
    id
}

/// What a Pod's containers and their trackers are like.
#[verifier::ext_equal]
pub ghost struct LiveView {
    pub sandbox: SandboxView,
    pub trackers: Trackers,
}

/// The tracker of a container after one more restart.
pub open spec fn restarted(policy: BackoffPolicy, t: RestartTracker, now: u64) -> RestartTracker {
    let count = if t.restart_count == u32::MAX {
        t.restart_count
    } else {
        (t.restart_count + 1) as u32
    };
    let next = now + backoff_after(policy, count);
    RestartTracker {
        restart_count: count,
        next_retry_at: if next > u64::MAX {
            u64::MAX
        } else {
            next as u64
        },
    }
}

/// Why work on a Pod stopped, and at what.
#[derive(Debug, Clone, PartialEq)]
pub enum AgentError {
    /// The Pod's sandbox refused.
    Sandbox { what: String, cause: SandboxError },
    /// The runtime did not say how a container is.
    Runtime { what: String, cause: RuntimeError },
}

#[verifier::ext_equal]
pub enum AgentErrorView {
    Sandbox { what: Seq<char>, cause: SandboxErrorView },
    Runtime { what: Seq<char>, cause: RuntimeErrorView },
}

impl DeepView for AgentError {
    type V = AgentErrorView;

    open spec fn deep_view(&self) -> AgentErrorView {
        match self {
            AgentError::Sandbox { what, cause } => AgentErrorView::Sandbox {
                what: what@,
                cause: cause.deep_view(),
            },
            AgentError::Runtime { what, cause } => AgentErrorView::Runtime {
                what: what@,
                cause: cause.deep_view(),
            },
        }
    }
}

/// A result, as a model.
pub open spec fn outcome(r: Result<(), AgentError>) -> Result<(), AgentErrorView> {
    match r {
        Ok(_) => Ok(()),
        Err(e) => Err(e.deep_view()),
    }
}

/// A sandbox's result, with what was tried where it is an error.
pub open spec fn within(what: Seq<char>, r: Result<(), SandboxErrorView>) -> Result<
    (),
    AgentErrorView,
> {
    match r {
        Ok(_) => Ok(()),
        Err(cause) => Err(AgentErrorView::Sandbox { what, cause }),
    }
}

/// A restart: the container is removed, however that goes, and added again.
/// `cut` calls are made for the removal.
pub open spec fn replaced(
    before: SandboxView,
    c: ContainerView,
    calls: Seq<CallView>,
    cut: int,
    middle: SandboxView,
    gone: Result<(), SandboxErrorView>,
    after: SandboxView,
    r: Result<(), SandboxErrorView>,
) -> bool {
    &&& 0 <= cut <= calls.len()
    &&& sandbox::removed(before, c.name, calls.take(cut), middle, gone)
    &&& sandbox::added(middle, c, calls.skip(cut), after, r)
}

/// What looking after one container does. One that runs has its tracker
/// dropped. One that has stopped is restarted, unless its time has not come;
/// the tracker is moved on before the restart is tried, so that a failing
/// restart counts too.
pub open spec fn container_checked(
    policy: BackoffPolicy,
    pod: Seq<char>,
    before: LiveView,
    c: ContainerView,
    calls: Seq<CallView>,
    after: LiveView,
    r: Result<(), AgentErrorView>,
) -> bool {
    let id = container_id(pod, c.name);
    &&& calls.len() > 0
    &&& match calls[0] {
        CallView::State { id: asked, reply } => {
            &&& asked == id
            &&& match reply {
                Err(cause) => {
                    &&& calls.len() == 1
                    &&& after == before
                    &&& r == Err::<(), AgentErrorView>(
                        AgentErrorView::Runtime { what: "read state for "@ + id, cause },
                    )
                },
                Ok(ContainerState::Created) => calls.len() == 1 && after == before && r is Ok,
                Ok(ContainerState::Running) => {
                    &&& calls.len() == 1
                    &&& after == (LiveView { trackers: before.trackers.remove(id), ..before })
                    &&& r is Ok
                },
                Ok(_) => {
                    &&& calls.len() > 1
                    &&& match calls[1] {
                        CallView::Clock { millis: now } => {
                            let tracker = if before.trackers.contains_key(id) {
                                before.trackers[id]
                            } else {
                                RestartTracker { restart_count: 0, next_retry_at: now }
                            };
                            if now < tracker.next_retry_at {
                                calls.len() == 2 && after == before && r is Ok
                            } else {
                                &&& after.trackers == before.trackers.insert(
                                    id,
                                    restarted(policy, tracker, now),
                                )
                                &&& exists|
                                    cut: int,
                                    middle: SandboxView,
                                    gone: Result<(), SandboxErrorView>,
                                    put: Result<(), SandboxErrorView>,
                                |
                                    #[trigger] replaced(
                                        before.sandbox,
                                        c,
                                        calls.skip(2),
                                        cut,
                                        middle,
                                        gone,
                                        after.sandbox,
                                        put,
                                    ) && r == within("restart container "@ + c.name, put)
                            }
                        },
                        _ => false,
                    }
                },
            }
        },
        _ => false,
    }
}

/// Looks after one container.
fn check_container<R: RuntimeClient>(
    runtime: &mut R,
    trackers: &mut NameMap<RestartTracker>,
    sandbox: &mut PodSandbox,
    policy: BackoffPolicy,
    pod: &str,
    container: &Container,
) -> (r: Result<(), AgentError>)
    ensures
        old(runtime).trace().is_prefix_of(final(runtime).trace()),
        container_checked(
            policy,
            pod@,
            (LiveView { sandbox: old(sandbox).deep_view(), trackers: old(trackers)@ }),
            container.deep_view(),
            runtime::since(old(runtime).trace(), final(runtime).trace()),
            (LiveView { sandbox: final(sandbox).deep_view(), trackers: final(trackers)@ }),
            outcome(r),
        ),
{
    let ghost start = runtime.trace();
    let ghost before = LiveView { sandbox: sandbox.deep_view(), trackers: trackers@ };
    let id = container_id_text(pod, container.name.as_str());
    let state = runtime.container_state(id.as_str());
    let ghost c0 = runtime.trace().last();
    proof {
        assert(runtime.trace() =~= start + seq![c0]);
        runtime::since_is_the_rest(start, seq![c0]);
    }
    match state {
        Err(cause) => Err(
            AgentError::Runtime {
                what: "read state for ".to_owned().concat(id.as_str()),
                cause,
            },
        ),
        Ok(ContainerState::Created) => Ok(()),
        Ok(ContainerState::Running) => {
            trackers.remove(id.as_str());
            Ok(())
        },
        Ok(_) => {
            let now: u64 = runtime.now_millis();
            let ghost c1 = runtime.trace().last();
            let ghost middle = runtime.trace();
            proof {
                assert(middle =~= start + seq![c0, c1]);
                runtime::since_is_the_rest(start, seq![c0, c1]);
            }
            let tracker = match trackers.get(id.as_str()) {
                Some(t) => *t,
                None => RestartTracker { restart_count: 0, next_retry_at: now },
            };
            if now < tracker.next_retry_at {
                return Ok(());
            }
            let count: u32 = tracker.restart_count.saturating_add(1);
            let wait: u64 = compute_backoff(policy, count);
            let next = RestartTracker {
                restart_count: count,
                next_retry_at: now.saturating_add(wait),
            };
            assert(next == restarted(policy, tracker, now));
            trackers.insert(id, next);
            let gone = sandbox.remove_container(runtime, container.name.as_str());
            let ghost removal = runtime::since(middle, runtime.trace());
            let ghost without = sandbox.deep_view();
            proof {
                runtime::calls_add_up(start, seq![c0, c1], middle, runtime.trace());
            }
            let ghost then = runtime.trace();
            let r = sandbox.add_container(runtime, container);
            proof {
                let addition = runtime::since(then, runtime.trace());
                runtime::calls_add_up(start, seq![c0, c1] + removal, then, runtime.trace());
                let all = seq![c0, c1] + removal + addition;
                assert(all.skip(2) =~= removal + addition);
                let cut = removal.len() as int;
                assert((removal + addition).take(cut) =~= removal);
                assert((removal + addition).skip(cut) =~= addition);
                assert(replaced(
                    before.sandbox,
                    container.deep_view(),
                    all.skip(2),
                    cut,
                    without,
                    sandbox::outcome(gone),
                    sandbox.deep_view(),
                    sandbox::outcome(r),
                ));
            }
            match r {
                Ok(_) => Ok(()),
                Err(cause) => Err(
                    AgentError::Sandbox {
                        what: "restart container ".to_owned().concat(container.name.as_str()),
                        cause,
                    },
                ),
            }
        },
    }
}

/// Looks after one container without an error.
pub open spec fn checking(policy: BackoffPolicy, pod: Seq<char>) -> spec_fn(
    LiveView,
    ContainerView,
    Seq<CallView>,
    LiveView,
) -> bool {
    |before: LiveView, c: ContainerView, calls: Seq<CallView>, after: LiveView|
        container_checked(policy, pod, before, c, calls, after, Ok::<(), AgentErrorView>(()))
}

/// The containers before number `i` were looked after, and that one led to an
/// error.
pub open spec fn stopped_at(
    policy: BackoffPolicy,
    pod: Seq<char>,
    before: LiveView,
    containers: Seq<ContainerView>,
    calls: Seq<CallView>,
    i: int,
    cut: int,
    middle: LiveView,
    after: LiveView,
    r: Result<(), AgentErrorView>,
) -> bool {
    &&& 0 <= i < containers.len()
    &&& 0 <= cut <= calls.len()
    &&& runtime::chained(
        containers.take(i),
        checking(policy, pod),
        before,
        calls.take(cut),
        middle,
    )
    &&& container_checked(policy, pod, middle, containers[i], calls.skip(cut), after, r)
}

/// What looking after a Pod's containers does: they are taken in turn, and the
/// first error ends it.
pub open spec fn containers_checked(
    policy: BackoffPolicy,
    pod: Seq<char>,
    before: LiveView,
    containers: Seq<ContainerView>,
    calls: Seq<CallView>,
    after: LiveView,
    r: Result<(), AgentErrorView>,
) -> bool {
    match r {
        Ok(_) => runtime::chained(containers, checking(policy, pod), before, calls, after),
        Err(_) => exists|i: int, cut: int, middle: LiveView|
            #[trigger] stopped_at(
                policy,
                pod,
                before,
                containers,
                calls,
                i,
                cut,
                middle,
                after,
                r,
            ),
    }
}

fn check_containers<R: RuntimeClient>(
    runtime: &mut R,
    trackers: &mut NameMap<RestartTracker>,
    sandbox: &mut PodSandbox,
    policy: BackoffPolicy,
    pod: &str,
    containers: &Vec<Container>,
) -> (r: Result<(), AgentError>)
    ensures
        old(runtime).trace().is_prefix_of(final(runtime).trace()),
        containers_checked(
            policy,
            pod@,
            (LiveView { sandbox: old(sandbox).deep_view(), trackers: old(trackers)@ }),
            containers.deep_view(),
            runtime::since(old(runtime).trace(), final(runtime).trace()),
            (LiveView { sandbox: final(sandbox).deep_view(), trackers: final(trackers)@ }),
            outcome(r),
        ),
{
    let ghost start = runtime.trace();
    let ghost before = LiveView { sandbox: sandbox.deep_view(), trackers: trackers@ };
    let ghost all = containers.deep_view();
    let ghost mut calls = Seq::<CallView>::empty();
    assert(start + calls =~= start);
    assert(all.take(0) =~= Seq::<ContainerView>::empty());
    for i in 0..containers.len()
        invariant
            start == old(runtime).trace(),
            before == (LiveView { sandbox: old(sandbox).deep_view(), trackers: old(trackers)@ }),
            all == containers.deep_view(),
            runtime.trace() == start + calls,
            runtime::chained(
                all.take(i as int),
                checking(policy, pod@),
                before,
                calls,
                (LiveView { sandbox: sandbox.deep_view(), trackers: trackers@ }),
            ),
    {
        let ghost middle = LiveView { sandbox: sandbox.deep_view(), trackers: trackers@ };
        let ghost then = runtime.trace();
        let r = check_container(runtime, trackers, sandbox, policy, pod, &containers[i]);
        let ghost after = LiveView { sandbox: sandbox.deep_view(), trackers: trackers@ };
        let ghost more = runtime::since(then, runtime.trace());
        proof {
            runtime::calls_add_up(start, calls, then, runtime.trace());
            assert(all[i as int] == containers@[i as int].deep_view());
        }
        if let Err(e) = r {
            proof {
                let whole = calls + more;
                let cut = calls.len() as int;
                assert(whole.take(cut) =~= calls);
                assert(whole.skip(cut) =~= more);
                assert(stopped_at(
                    policy,
                    pod@,
                    before,
                    all,
                    whole,
                    i as int,
                    cut,
                    middle,
                    after,
                    outcome(r),
                ));
            }
            return Err(e);
        }
        proof {
            let items = all.take(i + 1);
            assert(items.drop_last() =~= all.take(i as int));
            assert(items.last() == all[i as int]);
            runtime::chain_grows(
                items,
                checking(policy, pod@),
                before,
                calls,
                middle,
                more,
                after,
            );
            calls = calls + more;
        }
    }
    proof {
        assert(all.take(all.len() as int) =~= all);
        runtime::since_is_the_rest(start, calls);
    }
    Ok(())
}

/// The node agent.
pub struct Reconciler<R: RuntimeClient> {
    pub manifests_dir: String,
    pub pods_dir: String,
    pub rootfs_base: String,
    pub store: Store,
    pub runtime: R,
    pub restart_state: NameMap<RestartTracker>,
    pub debug_dump_path: Option<String>,
    pub backoff: BackoffPolicy,
}

/// What a node agent was told at its start.
#[verifier::ext_equal]
pub ghost struct SettingsView {
    pub manifests_dir: Seq<char>,
    pub pods_dir: Seq<char>,
    pub rootfs_base: Seq<char>,
    pub debug_dump_path: Option<Seq<char>>,
    pub backoff: BackoffPolicy,
}

/// What a node agent knows.
#[verifier::ext_equal]
pub ghost struct AgentView {
    pub settings: SettingsView,
    pub pods: Map<Seq<char>, PodStateView>,
    pub trackers: Trackers,
}

/// Adds a container without an error.
pub open spec fn joining() -> spec_fn(
    SandboxView,
    ContainerView,
    Seq<CallView>,
    SandboxView,
) -> bool {
    |before: SandboxView, c: ContainerView, calls: Seq<CallView>, after: SandboxView|
        sandbox::added(before, c, calls, after, Ok::<(), SandboxErrorView>(()))
}

/// The containers before number `i` were added, that one was refused, and the
/// Pod was torn down again.
pub open spec fn rolled_back(
    containers: Seq<ContainerView>,
    before: SandboxView,
    calls: Seq<CallView>,
    i: int,
    cut: int,
    middle: SandboxView,
    cut2: int,
    broken: SandboxView,
    put: Result<(), SandboxErrorView>,
    end: SandboxView,
    r: Result<(), AgentErrorView>,
) -> bool {
    &&& 0 <= i < containers.len()
    &&& 0 <= cut <= cut2 <= calls.len()
    &&& runtime::chained(containers.take(i), joining(), before, calls.take(cut), middle)
    &&& sandbox::added(middle, containers[i], calls.subrange(cut, cut2), broken, put)
    &&& r == within("add container "@ + containers[i].name, put)
    &&& sandbox::destroyed(broken, calls.skip(cut2), end)
}

/// What filling a Pod with its containers does. Either all are added and the
/// Pod is kept, or nothing of it is left.
pub open spec fn populated(
    before: AgentView,
    pod: PodView,
    sb: SandboxView,
    calls: Seq<CallView>,
    after: AgentView,
    r: Result<(), AgentErrorView>,
) -> bool {
    match r {
        Ok(_) => exists|end: SandboxView|
            #[trigger] runtime::chained(pod.spec.containers, joining(), sb, calls, end) && after
                == (AgentView {
                pods: before.pods.insert(pod.metadata.name, PodStateView { pod, sandbox: end }),
                ..before
            }),
        Err(_) => after == before && exists|
            i: int,
            cut: int,
            middle: SandboxView,
            cut2: int,
            broken: SandboxView,
            put: Result<(), SandboxErrorView>,
            end: SandboxView,
        |
            #[trigger] rolled_back(
                pod.spec.containers,
                sb,
                calls,
                i,
                cut,
                middle,
                cut2,
                broken,
                put,
                end,
                r,
            ),
    }
}

/// The Pod's pause container was started in `cut` calls, and what followed.
pub open spec fn started_then_populated(
    before: AgentView,
    pod: PodView,
    calls: Seq<CallView>,
    cut: int,
    sb: SandboxView,
    first: Result<(), SandboxErrorView>,
    after: AgentView,
    r: Result<(), AgentErrorView>,
) -> bool {
    let fresh = SandboxView::fresh(
        pod.metadata.name,
        before.settings.pods_dir,
        before.settings.rootfs_base,
    );
    &&& 0 <= cut <= calls.len()
    &&& sandbox::created(fresh, None, calls.take(cut), sb, first)
    &&& match first {
        Ok(_) => populated(before, pod, sb, calls.skip(cut), after, r),
        Err(_) => cut == calls.len() && after == before && r == within("create sandbox"@, first),
    }
}

/// What creating a Pod does.
pub open spec fn pod_created(
    before: AgentView,
    pod: PodView,
    calls: Seq<CallView>,
    after: AgentView,
    r: Result<(), AgentErrorView>,
) -> bool {
    exists|cut: int, sb: SandboxView, first: Result<(), SandboxErrorView>|
        #[trigger] started_then_populated(before, pod, calls, cut, sb, first, after, r)
}

/// The trackers without those of a Pod's containers.
pub open spec fn forgotten(
    trackers: Trackers,
    pod: Seq<char>,
    containers: Seq<ContainerView>,
) -> Trackers
    decreases containers.len(),
{
    if containers.len() == 0 {
        trackers
    } else {
        forgotten(trackers, pod, containers.drop_last()).remove(
            container_id(pod, containers.last().name),
        )
    }
}

/// What removing a Pod does: it is forgotten, with its trackers, and torn
/// down. A Pod that is not known is left alone.
pub open spec fn pod_removed(
    before: AgentView,
    name: Seq<char>,
    calls: Seq<CallView>,
    after: AgentView,
) -> bool {
    if before.pods.contains_key(name) {
        let state = before.pods[name];
        &&& after == (AgentView {
            pods: before.pods.remove(name),
            trackers: forgotten(before.trackers, name, state.pod.spec.containers),
            ..before
        })
        &&& exists|end: SandboxView| #[trigger] sandbox::destroyed(state.sandbox, calls, end)
    } else {
        calls.len() == 0 && after == before
    }
}

/// What looking after a Pod does, given what is asked for. A Pod that is not
/// known is left alone.
pub open spec fn pod_checked(
    before: AgentView,
    name: Seq<char>,
    pod: PodView,
    calls: Seq<CallView>,
    after: AgentView,
    r: Result<(), AgentErrorView>,
) -> bool {
    if before.pods.contains_key(name) {
        let state = before.pods[name];
        exists|end: LiveView|
            #[trigger] containers_checked(
                before.settings.backoff,
                name,
                (LiveView { sandbox: state.sandbox, trackers: before.trackers }),
                pod.spec.containers,
                calls,
                end,
                r,
            ) && after == (AgentView {
                pods: before.pods.insert(
                    name,
                    PodStateView { sandbox: end.sandbox, ..state },
                ),
                trackers: end.trackers,
                ..before
            })
    } else {
        calls.len() == 0 && after == before && r is Ok
    }
}

/// An agent in the middle of a round, with the errors so far.
#[verifier::ext_equal]
pub struct RoundView {
    pub agent: AgentView,
    pub failures: Seq<AgentErrorView>,
}

/// The errors so far, with one more if there is one.
pub open spec fn noted(failures: Seq<AgentErrorView>, r: Result<(), AgentErrorView>) -> Seq<
    AgentErrorView,
> {
    match r {
        Ok(_) => failures,
        Err(e) => failures.push(e),
    }
}

/// Creates a Pod that is asked for and not there, however that goes.
pub open spec fn creating() -> spec_fn(
    RoundView,
    (Seq<char>, PodView),
    Seq<CallView>,
    RoundView,
) -> bool {
    |before: RoundView, asked: (Seq<char>, PodView), calls: Seq<CallView>, after: RoundView|
        if before.agent.pods.contains_key(asked.0) {
            calls.len() == 0 && after == before
        } else {
            exists|r: Result<(), AgentErrorView>|
                #[trigger] pod_created(before.agent, asked.1, calls, after.agent, r)
                    && after.failures == noted(before.failures, r)
        }
}

pub open spec fn removing() -> spec_fn(AgentView, Seq<char>, Seq<CallView>, AgentView) -> bool {
    |before: AgentView, name: Seq<char>, calls: Seq<CallView>, after: AgentView|
        pod_removed(before, name, calls, after)
}

/// Looks after a Pod that is asked for, however that goes.
pub open spec fn caring() -> spec_fn(
    RoundView,
    (Seq<char>, PodView),
    Seq<CallView>,
    RoundView,
) -> bool {
    |before: RoundView, asked: (Seq<char>, PodView), calls: Seq<CallView>, after: RoundView|
        exists|r: Result<(), AgentErrorView>|
            #[trigger] pod_checked(before.agent, asked.0, asked.1, calls, after.agent, r)
                && after.failures == noted(before.failures, r)
}

/// Whether a list names each Pod that is there and not asked for, once.
pub open spec fn lists_gone(
    gone: Seq<Seq<char>>,
    there: Map<Seq<char>, PodStateView>,
    desired: Map<Seq<char>, PodView>,
) -> bool {
    gone.no_duplicates() && forall|name: Seq<char>| #[trigger]
        gone.contains(name) <==> there.contains_key(name) && !desired.contains_key(name)
}

/// One round in its three parts: missing Pods are created, Pods that are no
/// longer asked for are removed, all others are looked after.
pub open spec fn three_parts(
    before: AgentView,
    asked: Seq<(Seq<char>, PodView)>,
    calls: Seq<CallView>,
    cut: int,
    filled: RoundView,
    gone: Seq<Seq<char>>,
    cut2: int,
    cleared: AgentView,
    after: AgentView,
    failures: Seq<AgentErrorView>,
) -> bool {
    &&& 0 <= cut <= cut2 <= calls.len()
    &&& runtime::chained(
        asked,
        creating(),
        (RoundView { agent: before, failures: Seq::empty() }),
        calls.take(cut),
        filled,
    )
    &&& lists_gone(gone, filled.agent.pods, names::as_map(asked))
    &&& runtime::chained(gone, removing(), filled.agent, calls.subrange(cut, cut2), cleared)
    &&& runtime::chained(
        asked,
        caring(),
        (RoundView { agent: cleared, failures: filled.failures }),
        calls.skip(cut2),
        (RoundView { agent: after, failures }),
    )
}

/// What one round does, given the Pods that are asked for, in name order, and
/// the errors in it, in the order in which they came.
pub open spec fn diff_applied(
    before: AgentView,
    asked: Seq<(Seq<char>, PodView)>,
    calls: Seq<CallView>,
    after: AgentView,
    failures: Seq<AgentErrorView>,
) -> bool {
    exists|cut: int, filled: RoundView, gone: Seq<Seq<char>>, cut2: int, cleared: AgentView|
        #[trigger] three_parts(
            before,
            asked,
            calls,
            cut,
            filled,
            gone,
            cut2,
            cleared,
            after,
            failures,
        )
}

/// Tears down one Pod.
pub open spec fn ending() -> spec_fn(
    int,
    (Seq<char>, PodStateView),
    Seq<CallView>,
    int,
) -> bool {
    |before: int, pod: (Seq<char>, PodStateView), calls: Seq<CallView>, after: int|
        after == before + 1 && exists|end: SandboxView|
            #[trigger] sandbox::destroyed(pod.1.sandbox, calls, end)
}

/// Whether a list holds each known Pod once.
pub open spec fn lists_all(
    list: Seq<(Seq<char>, PodStateView)>,
    pods: Map<Seq<char>, PodStateView>,
) -> bool {
    &&& crate::store::keys(list).no_duplicates()
    &&& crate::store::keys(list).to_set() == pods.dom()
    &&& forall|i: int| 0 <= i < list.len() ==> pods[(#[trigger] list[i]).0] == list[i].1
}

/// What ending the agent does: each Pod is torn down, and nothing is known any
/// more.
pub open spec fn shut_down(before: AgentView, calls: Seq<CallView>, after: AgentView) -> bool {
    &&& after == (AgentView { pods: Map::empty(), trackers: Map::empty(), ..before })
    &&& exists|list: Seq<(Seq<char>, PodStateView)>|
        lists_all(list, before.pods) && #[trigger] runtime::chained(
            list,
            ending(),
            0,
            calls,
            list.len() as int,
        )
}

impl<R: RuntimeClient> Reconciler<R> {
    pub open spec fn wf(self) -> bool {
        self.store.wf()
    }

    pub open spec fn state(self) -> AgentView {
        AgentView {
            settings: SettingsView {
                manifests_dir: self.manifests_dir@,
                pods_dir: self.pods_dir@,
                rootfs_base: self.rootfs_base@,
                debug_dump_path: self.debug_dump_path.deep_view(),
                backoff: self.backoff,
            },
            pods: self.store@,
            trackers: self.restart_state@,
        }
    }

    pub fn new(
        manifests_dir: String,
        pods_dir: String,
        rootfs_base: String,
        runtime: R,
        debug_dump_path: Option<String>,
    ) -> (agent: Self)
        ensures
            agent.wf(),
            agent.runtime == runtime,
            agent.state() == (AgentView {
                settings: SettingsView {
                    manifests_dir: manifests_dir@,
                    pods_dir: pods_dir@,
                    rootfs_base: rootfs_base@,
                    debug_dump_path: debug_dump_path.deep_view(),
                    backoff: BackoffPolicy { base_millis: 10_000, max_millis: 300_000 },
                },
                pods: Map::empty(),
                trackers: Map::empty(),
            }),
    {
        Reconciler {
            manifests_dir,
            pods_dir,
            rootfs_base,
            store: Store::new(),
            runtime,
            restart_state: NameMap::new(),
            debug_dump_path,
            backoff: BackoffPolicy::default(),
        }
    }

    /// Creates a Pod. If one of its containers cannot be added, what was made
    /// is torn down again.
    pub fn create_pod(&mut self, pod: &Pod) -> (r: Result<(), AgentError>)
        requires
            old(self).wf(),
        ensures
            final(self).wf(),
            old(self).runtime.trace().is_prefix_of(final(self).runtime.trace()),
            pod_created(
                old(self).state(),
                pod.deep_view(),
                runtime::since(old(self).runtime.trace(), final(self).runtime.trace()),
                final(self).state(),
                outcome(r),
            ),
    {
        let ghost start = self.runtime.trace();
        let ghost before = self.state();
        let ghost asked = pod.deep_view();
        let mut sb = PodSandbox::new(
            pod.metadata.name.clone(),
            self.pods_dir.clone(),
            self.rootfs_base.clone(),
        );
        let first = sb.create(&mut self.runtime, None);
        let ghost head = runtime::since(start, self.runtime.trace());
        let ghost cut = head.len() as int;
        let ghost sb1 = sb.deep_view();
        let ghost middle = self.runtime.trace();
        proof {
            assert(start + Seq::<CallView>::empty() =~= start);
            runtime::calls_add_up(start, Seq::<CallView>::empty(), start, middle);
            assert(Seq::<CallView>::empty() + head =~= head);
            assert(head.take(cut) =~= head);
        }
        if let Err(cause) = first {
            let e = AgentError::Sandbox { what: "create sandbox".to_owned(), cause };
            assert(started_then_populated(
                before,
                asked,
                head,
                cut,
                sb1,
                sandbox::outcome(first),
                self.state(),
                outcome(Err::<(), AgentError>(e)),
            ));
            return Err(e);
        }
        let ghost all = asked.spec.containers;
        let ghost mut calls = Seq::<CallView>::empty();
        assert(middle + calls =~= middle);
        assert(all.take(0) =~= Seq::<ContainerView>::empty());
        for i in 0..pod.spec.containers.len()
            invariant
                self.wf(),
                self.state() == before,
                before == old(self).state(),
                start == old(self).runtime.trace(),
                asked == pod.deep_view(),
                all == asked.spec.containers,
                all == pod.spec.containers.deep_view(),
                cut == head.len(),
                middle == start + head,
                sandbox::created(
                    SandboxView::fresh(
                        asked.metadata.name,
                        before.settings.pods_dir,
                        before.settings.rootfs_base,
                    ),
                    None,
                    head,
                    sb1,
                    Ok::<(), SandboxErrorView>(()),
                ),
                self.runtime.trace() == middle + calls,
                runtime::chained(all.take(i as int), joining(), sb1, calls, sb.deep_view()),
        {
            let ghost here = sb.deep_view();
            let ghost then = self.runtime.trace();
            let r = sb.add_container(&mut self.runtime, &pod.spec.containers[i]);
            let ghost more = runtime::since(then, self.runtime.trace());
            let ghost broken = sb.deep_view();
            proof {
                runtime::calls_add_up(middle, calls, then, self.runtime.trace());
                assert(all[i as int] == pod.spec.containers@[i as int].deep_view());
            }
            if let Err(cause) = r {
                let e = AgentError::Sandbox {
                    what: "add container ".to_owned().concat(pod.spec.containers[i].name.as_str()),
                    cause,
                };
                let ghost fallen = self.runtime.trace();
                let _ = sb.destroy(&mut self.runtime);
                proof {
                    let last = runtime::since(fallen, self.runtime.trace());
                    runtime::calls_add_up(middle, calls + more, fallen, self.runtime.trace());
                    let tail = calls + more + last;
                    let (a, b) = (calls.len() as int, (calls.len() + more.len()) as int);
                    assert(tail.take(a) =~= calls);
                    assert(tail.subrange(a, b) =~= more);
                    assert(tail.skip(b) =~= last);
                    assert(rolled_back(
                        all,
                        sb1,
                        tail,
                        i as int,
                        a,
                        here,
                        b,
                        broken,
                        sandbox::outcome(r),
                        sb.deep_view(),
                        outcome(Err::<(), AgentError>(e)),
                    ));
                    let whole = head + tail;
                    assert(self.runtime.trace() =~= start + whole);
                    runtime::since_is_the_rest(start, whole);
                    assert(whole.take(cut) =~= head);
                    assert(whole.skip(cut) =~= tail);
                    assert(started_then_populated(
                        before,
                        asked,
                        whole,
                        cut,
                        sb1,
                        Ok::<(), SandboxErrorView>(()),
                        self.state(),
                        outcome(Err::<(), AgentError>(e)),
                    ));
                }
                return Err(e);
            }
            proof {
                let items = all.take(i + 1);
                assert(items.drop_last() =~= all.take(i as int));
                assert(items.last() == all[i as int]);
                runtime::chain_grows(items, joining(), sb1, calls, here, more, sb.deep_view());
                calls = calls + more;
            }
        }
        let ghost end = sb.deep_view();
        self.store.insert(PodState { pod: pod.duplicate(), sandbox: sb });
        proof {
            assert(all.take(all.len() as int) =~= all);
            let whole = head + calls;
            assert(self.runtime.trace() =~= start + whole);
            runtime::since_is_the_rest(start, whole);
            assert(whole.take(cut) =~= head);
            assert(whole.skip(cut) =~= calls);
            assert(runtime::chained(all, joining(), sb1, calls, end));
            assert(started_then_populated(
                before,
                asked,
                whole,
                cut,
                sb1,
                Ok::<(), SandboxErrorView>(()),
                self.state(),
                Ok::<(), AgentErrorView>(()),
            ));
        }
        Ok(())
    }

    /// Removes a Pod, with all that is known about it.
    pub fn remove_pod(&mut self, name: &str)
        requires
            old(self).wf(),
        ensures
            final(self).wf(),
            old(self).runtime.trace().is_prefix_of(final(self).runtime.trace()),
            pod_removed(
                old(self).state(),
                name@,
                runtime::since(old(self).runtime.trace(), final(self).runtime.trace()),
                final(self).state(),
            ),
    {
        let ghost start = self.runtime.trace();
        let ghost before = self.state();
        proof {
            assert(start + Seq::<CallView>::empty() =~= start);
            runtime::since_is_the_rest(start, Seq::<CallView>::empty());
        }
        if let Some(removed) = self.store.remove(name) {
            let mut state = removed;
            let ghost known = state.deep_view();
            let ghost all = known.pod.spec.containers;
            assert(all.take(0) =~= Seq::<ContainerView>::empty());
            for i in 0..state.pod.spec.containers.len()
                invariant
                    self.wf(),
                    self.state() == (AgentView {
                        pods: before.pods.remove(name@),
                        trackers: self.restart_state@,
                        ..before
                    }),
                    self.runtime.trace() == start,
                    state.deep_view() == known,
                    all == state.pod.spec.containers.deep_view(),
                    self.restart_state@ == forgotten(
                        before.trackers,
                        name@,
                        all.take(i as int),
                    ),
            {
                proof {
                    assert(all.take(i + 1).drop_last() =~= all.take(i as int));
                    assert(all.take(i + 1).last()
                        == state.pod.spec.containers@[i as int].deep_view());
                }
                let id = container_id_text(name, state.pod.spec.containers[i].name.as_str());
                self.restart_state.remove(id.as_str());
            }
            assert(all.take(all.len() as int) =~= all);
            let _ = state.sandbox.destroy(&mut self.runtime);
        } else {
            assert(before.pods.remove(name@) =~= before.pods);
        }
    }

    /// Looks after the containers of a Pod.
    pub fn reconcile_liveness(&mut self, name: &str, pod: &Pod) -> (r: Result<(), AgentError>)
        requires
            old(self).wf(),
        ensures
            final(self).wf(),
            old(self).runtime.trace().is_prefix_of(final(self).runtime.trace()),
            pod_checked(
                old(self).state(),
                name@,
                pod.deep_view(),
                runtime::since(old(self).runtime.trace(), final(self).runtime.trace()),
                final(self).state(),
                outcome(r),
            ),
    {
        let ghost start = self.runtime.trace();
        let ghost before = self.state();
        proof {
            assert(start + Seq::<CallView>::empty() =~= start);
            runtime::since_is_the_rest(start, Seq::<CallView>::empty());
        }
        match self.store.remove(name) {
            Some(known) => {
                let mut state = known;
                let ghost was = state.deep_view();
                let r = check_containers(
                    &mut self.runtime,
                    &mut self.restart_state,
                    &mut state.sandbox,
                    self.backoff,
                    name,
                    &pod.spec.containers,
                );
                let ghost now = state.deep_view();
                self.store.put(name.to_owned(), state);
                proof {
                    let end = LiveView {
                        sandbox: now.sandbox,
                        trackers: self.restart_state@,
                    };
                    assert(before.pods.remove(name@).insert(name@, now) =~= before.pods.insert(
                        name@,
                        now,
                    ));
                    assert(containers_checked(
                        before.settings.backoff,
                        name@,
                        (LiveView { sandbox: was.sandbox, trackers: before.trackers }),
                        pod.deep_view().spec.containers,
                        runtime::since(start, self.runtime.trace()),
                        end,
                        outcome(r),
                    ));
                }
                r
            },
            None => {
                assert(before.pods.remove(name@) =~= before.pods);
                Ok(())
            },
        }
    }

    /// One round. What fails for one Pod does not keep the others from their
    /// turn: the errors are handed back.
    pub fn apply_diff(&mut self, desired: &NameMap<Pod>) -> (failures: Vec<AgentError>)
        requires
            old(self).wf(),
        ensures
            final(self).wf(),
            old(self).runtime.trace().is_prefix_of(final(self).runtime.trace()),
            exists|asked: Seq<(Seq<char>, PodView)>|
                {
                    &&& names::in_key_order(asked)
                    &&& names::as_map(asked) == desired@
                    &&& #[trigger] diff_applied(
                        old(self).state(),
                        asked,
                        runtime::since(old(self).runtime.trace(), final(self).runtime.trace()),
                        final(self).state(),
                        failures.deep_view(),
                    )
                },
    {
        let ghost start = self.runtime.trace();
        let ghost before = self.state();
        let mut failures: Vec<AgentError> = Vec::new();
        let ghost opening = RoundView { agent: before, failures: Seq::empty() };
        assert(failures.deep_view() =~= Seq::<AgentErrorView>::empty());
        let pairs = desired.pairs();
        let ghost asked = pairs.deep_view();
        let ghost mut calls = Seq::<CallView>::empty();
        assert(start + calls =~= start);
        assert(asked.take(0) =~= Seq::<(Seq<char>, PodView)>::empty());
        for i in 0..pairs.len()
            invariant
                self.wf(),
                asked == pairs.deep_view(),
                self.runtime.trace() == start + calls,
                runtime::chained(
                    asked.take(i as int),
                    creating(),
                    opening,
                    calls,
                    (RoundView { agent: self.state(), failures: failures.deep_view() }),
                ),
        {
            let ghost here = RoundView { agent: self.state(), failures: failures.deep_view() };
            let ghost then = self.runtime.trace();
            let ghost item = asked[i as int];
            assert(item == (pairs@[i as int].0@, pairs@[i as int].1.deep_view()));
            let ghost mut more = Seq::<CallView>::empty();
            if !self.store.contains(pairs[i].0.as_str()) {
                let r = self.create_pod(&pairs[i].1);
                proof {
                    more = runtime::since(then, self.runtime.trace());
                    runtime::calls_add_up(start, calls, then, self.runtime.trace());
                    assert(pod_created(here.agent, item.1, more, self.state(), outcome(r)));
                }
                if let Err(e) = r {
                    failures.push(e);
                    assert(failures.deep_view() =~= here.failures.push(e.deep_view()));
                }
                assert(failures.deep_view() == noted(here.failures, outcome(r)));
            } else {
                assert(calls + more =~= calls);
            }
            proof {
                let items = asked.take(i + 1);
                assert(items.drop_last() =~= asked.take(i as int));
                assert(items.last() == item);
                let now = RoundView { agent: self.state(), failures: failures.deep_view() };
                runtime::chain_grows(items, creating(), opening, calls, here, more, now);
                calls = calls + more;
            }
        }
        assert(asked.take(asked.len() as int) =~= asked);
        let ghost created = calls;
        let ghost filled = RoundView { agent: self.state(), failures: failures.deep_view() };

        let names = self.store.names();
        let ghost there = names.deep_view();
        let mut gone: Vec<String> = Vec::new();
        assert(gone.deep_view() =~= Seq::<Seq<char>>::empty());
        for i in 0..names.len()
            invariant
                there == names.deep_view(),
                there.no_duplicates(),
                gone.deep_view().no_duplicates(),
                forall|n: Seq<char>| #[trigger]
                    gone.deep_view().contains(n) <==> there.take(i as int).contains(n)
                        && !desired@.contains_key(n),
        {
            let ghost kept = gone.deep_view();
            let ghost name = there[i as int];
            assert(name == names@[i as int]@);
            if !desired.contains_key(names[i].as_str()) {
                gone.push(names[i].clone());
                assert(gone.deep_view() =~= kept.push(name));
            }
            proof {
                let (short, long) = (there.take(i as int), there.take(i + 1));
                assert(long =~= short.push(name));
                assert(!short.contains(name)) by {
                    if short.contains(name) {
                        let j = choose|j: int| 0 <= j < short.len() && short[j] == name;
                        assert(there[j] == there[i as int]);
                    }
                }
                assert(!kept.contains(name));
                assert forall|n: Seq<char>| #[trigger] gone.deep_view().contains(n)
                    <==> long.contains(n) && !desired@.contains_key(n) by {
                    member_of_push(short, name, n);
                    member_of_push(kept, name, n);
                }
            }
        }
        assert(there.take(there.len() as int) =~= there);
        let ghost leaving = gone.deep_view();
        proof {
            assert forall|n: Seq<char>| #[trigger] leaving.contains(n)
                <==> filled.agent.pods.contains_key(n) && !desired@.contains_key(n) by {
                assert(there.to_set().contains(n) <==> there.contains(n));
            }
            assert(lists_gone(leaving, filled.agent.pods, names::as_map(asked)));
        }

        let ghost middle = self.runtime.trace();
        let ghost mut calls = Seq::<CallView>::empty();
        assert(middle + calls =~= middle);
        assert(leaving.take(0) =~= Seq::<Seq<char>>::empty());
        for i in 0..gone.len()
            invariant
                self.wf(),
                leaving == gone.deep_view(),
                self.runtime.trace() == middle + calls,
                runtime::chained(
                    leaving.take(i as int),
                    removing(),
                    filled.agent,
                    calls,
                    self.state(),
                ),
        {
            let ghost here = self.state();
            let ghost then = self.runtime.trace();
            self.remove_pod(gone[i].as_str());
            proof {
                let more = runtime::since(then, self.runtime.trace());
                runtime::calls_add_up(middle, calls, then, self.runtime.trace());
                let items = leaving.take(i + 1);
                assert(items.drop_last() =~= leaving.take(i as int));
                assert(items.last() == gone@[i as int]@);
                runtime::chain_grows(
                    items,
                    removing(),
                    filled.agent,
                    calls,
                    here,
                    more,
                    self.state(),
                );
                calls = calls + more;
            }
        }
        assert(leaving.take(leaving.len() as int) =~= leaving);
        let ghost removed = calls;
        let ghost cleared = self.state();
        let ghost closing = RoundView { agent: cleared, failures: filled.failures };

        let ghost last = self.runtime.trace();
        let ghost mut calls = Seq::<CallView>::empty();
        assert(last + calls =~= last);
        for i in 0..pairs.len()
            invariant
                self.wf(),
                asked == pairs.deep_view(),
                self.runtime.trace() == last + calls,
                runtime::chained(
                    asked.take(i as int),
                    caring(),
                    closing,
                    calls,
                    (RoundView { agent: self.state(), failures: failures.deep_view() }),
                ),
        {
            let ghost here = RoundView { agent: self.state(), failures: failures.deep_view() };
            let ghost then = self.runtime.trace();
            let ghost item = asked[i as int];
            assert(item == (pairs@[i as int].0@, pairs@[i as int].1.deep_view()));
            let r = self.reconcile_liveness(pairs[i].0.as_str(), &pairs[i].1);
            proof {
                let more = runtime::since(then, self.runtime.trace());
                runtime::calls_add_up(last, calls, then, self.runtime.trace());
                assert(pod_checked(
                    here.agent,
                    item.0,
                    item.1,
                    more,
                    self.state(),
                    outcome(r),
                ));
            }
            if let Err(e) = r {
                failures.push(e);
                assert(failures.deep_view() =~= here.failures.push(e.deep_view()));
            }
            proof {
                let more = runtime::since(then, self.runtime.trace());
                let items = asked.take(i + 1);
                assert(items.drop_last() =~= asked.take(i as int));
                assert(items.last() == item);
                let now = RoundView { agent: self.state(), failures: failures.deep_view() };
                assert(now.failures == noted(here.failures, outcome(r)));
                runtime::chain_grows(items, caring(), closing, calls, here, more, now);
                calls = calls + more;
            }
        }
        proof {
            let whole = created + removed + calls;
            assert(self.runtime.trace() =~= start + whole);
            runtime::since_is_the_rest(start, whole);
            let (cut, cut2) = (created.len() as int, (created.len() + removed.len()) as int);
            assert(whole.take(cut) =~= created);
            assert(whole.subrange(cut, cut2) =~= removed);
            assert(whole.skip(cut2) =~= calls);
            assert(three_parts(
                before,
                asked,
                whole,
                cut,
                filled,
                leaving,
                cut2,
                cleared,
                self.state(),
                failures.deep_view(),
            ));
            assert(diff_applied(before, asked, whole, self.state(), failures.deep_view()));
        }
        failures
    }

    /// Tears down all Pods and forgets them.
    pub fn shutdown(&mut self)
        requires
            old(self).wf(),
        ensures
            final(self).wf(),
            old(self).runtime.trace().is_prefix_of(final(self).runtime.trace()),
            shut_down(
                old(self).state(),
                runtime::since(old(self).runtime.trace(), final(self).runtime.trace()),
                final(self).state(),
            ),
    {
        let ghost start = self.runtime.trace();
        let ghost before = self.state();
        let mut pods = self.store.drain();
        let ghost list = pods.deep_view();
        let ghost mut calls = Seq::<CallView>::empty();
        assert(start + calls =~= start);
        assert(list.take(0) =~= Seq::<(Seq<char>, PodStateView)>::empty());
        let count: usize = pods.len();
        for i in 0..count
            invariant
                self.wf(),
                self.state() == (AgentView { pods: Map::empty(), ..before }),
                count == list.len(),
                pods@.len() == count - i,
                pods.deep_view() == list.skip(i as int),
                self.runtime.trace() == start + calls,
                runtime::chained(list.take(i as int), ending(), 0, calls, i as int),
        {
            let ghost then = self.runtime.trace();
            let ghost item = list[i as int];
            assert(pods.deep_view()[0] == item);
            let ghost was = pods;
            let (_name, known) = pods.remove(0);
            proof {
                assert forall|j: int| 0 <= j < pods@.len() implies #[trigger] pods.deep_view()[j]
                    == list.skip(i + 1)[j] by {
                    assert(pods@[j] == was@[j + 1]);
                    assert(was.deep_view()[j + 1] == list.skip(i as int)[j + 1]);
                }
                assert(pods.deep_view() =~= list.skip(i + 1));
            }
            let mut state = known;
            let _ = state.sandbox.destroy(&mut self.runtime);
            proof {
                let more = runtime::since(then, self.runtime.trace());
                runtime::calls_add_up(start, calls, then, self.runtime.trace());
                let items = list.take(i + 1);
                assert(items.drop_last() =~= list.take(i as int));
                assert(items.last() == item);
                runtime::chain_grows(items, ending(), 0, calls, i as int, more, i + 1);
                calls = calls + more;
            }
        }
        self.restart_state = NameMap::new();
        proof {
            assert(list.take(list.len() as int) =~= list);
            runtime::since_is_the_rest(start, calls);
            assert(lists_all(list, before.pods));
            assert(runtime::chained(list, ending(), 0, calls, list.len() as int));
        }
    }
}

proof fn member_of_push(s: Seq<Seq<char>>, last: Seq<char>, x: Seq<char>)
    ensures
        s.push(last).contains(x) <==> s.contains(x) || x == last,
{
    if s.contains(x) {
        let i = choose|i: int| 0 <= i < s.len() && s[i] == x;
        assert(s.push(last)[i] == x);
    }
    if x == last {
        assert(s.push(last)[s.len() as int] == x);
    }
    if s.push(last).contains(x) {
        let i = choose|i: int| 0 <= i < s.push(last).len() && s.push(last)[i] == x;
        if i < s.len() {
            assert(s[i] == x);
        }
    }
}

proof fn creating_keeps_pods(
    asked: Seq<(Seq<char>, PodView)>,
    before: RoundView,
    calls: Seq<CallView>,
    after: RoundView,
    name: Seq<char>,
)
    requires
        runtime::chained(asked, creating(), before, calls, after),
        before.agent.pods.contains_key(name),
    ensures
        after.agent.pods.contains_key(name),
    decreases asked.len(),
{
    if asked.len() > 0 {
        let (cut, middle) = choose|cut: int, middle: RoundView|
            #[trigger] runtime::passes(cut, middle) && 0 <= cut <= calls.len() && runtime::chained(
                asked.drop_last(),
                creating(),
                before,
                calls.take(cut),
                middle,
            ) && creating()(middle, asked.last(), calls.skip(cut), after);
        creating_keeps_pods(asked.drop_last(), before, calls.take(cut), middle, name);
        let rest = calls.skip(cut);
        if !middle.agent.pods.contains_key(asked.last().0) {
            let r = choose|r: Result<(), AgentErrorView>|
                #[trigger] pod_created(middle.agent, asked.last().1, rest, after.agent, r)
                    && after.failures == noted(middle.failures, r);
            let (c, sb, first) = choose|c: int, sb: SandboxView, first: Result<(), SandboxErrorView>|
                #[trigger] started_then_populated(
                    middle.agent,
                    asked.last().1,
                    rest,
                    c,
                    sb,
                    first,
                    after.agent,
                    r,
                );
            assert(started_then_populated(
                middle.agent,
                asked.last().1,
                rest,
                c,
                sb,
                first,
                after.agent,
                r,
            ));
        }
    }
}

proof fn removing_clears_pods(
    gone: Seq<Seq<char>>,
    before: AgentView,
    calls: Seq<CallView>,
    after: AgentView,
    name: Seq<char>,
)
    requires
        runtime::chained(gone, removing(), before, calls, after),
    ensures
        after.pods.contains_key(name) <==> before.pods.contains_key(name) && !gone.contains(name),
    decreases gone.len(),
{
    if gone.len() > 0 {
        let (cut, middle) = choose|cut: int, middle: AgentView|
            #[trigger] runtime::passes(cut, middle) && 0 <= cut <= calls.len() && runtime::chained(
                gone.drop_last(),
                removing(),
                before,
                calls.take(cut),
                middle,
            ) && removing()(middle, gone.last(), calls.skip(cut), after);
        removing_clears_pods(gone.drop_last(), before, calls.take(cut), middle, name);
        assert(gone =~= gone.drop_last().push(gone.last()));
        member_of_push(gone.drop_last(), gone.last(), name);
    }
}

proof fn caring_keeps_names(
    asked: Seq<(Seq<char>, PodView)>,
    before: RoundView,
    calls: Seq<CallView>,
    after: RoundView,
    name: Seq<char>,
)
    requires
        runtime::chained(asked, caring(), before, calls, after),
    ensures
        after.agent.pods.contains_key(name) <==> before.agent.pods.contains_key(name),
    decreases asked.len(),
{
    if asked.len() > 0 {
        let (cut, middle) = choose|cut: int, middle: RoundView|
            #[trigger] runtime::passes(cut, middle) && 0 <= cut <= calls.len() && runtime::chained(
                asked.drop_last(),
                caring(),
                before,
                calls.take(cut),
                middle,
            ) && caring()(middle, asked.last(), calls.skip(cut), after);
        caring_keeps_names(asked.drop_last(), before, calls.take(cut), middle, name);
        let r = choose|r: Result<(), AgentErrorView>|
            #[trigger] pod_checked(
                middle.agent,
                asked.last().0,
                asked.last().1,
                calls.skip(cut),
                after.agent,
                r,
            ) && after.failures == noted(middle.failures, r);
        assert(pod_checked(
            middle.agent,
            asked.last().0,
            asked.last().1,
            calls.skip(cut),
            after.agent,
            r,
        ));
    }
}

/// Law: after a round, whatever failed in it, no Pod is kept that is not asked
/// for, and no Pod is lost that is.
pub proof fn rounds_keep_what_is_asked_for(
    before: AgentView,
    asked: Seq<(Seq<char>, PodView)>,
    calls: Seq<CallView>,
    after: AgentView,
    failures: Seq<AgentErrorView>,
    name: Seq<char>,
)
    requires
        diff_applied(before, asked, calls, after, failures),
    ensures
        after.pods.contains_key(name) ==> names::as_map(asked).contains_key(name),
        before.pods.contains_key(name) && names::as_map(asked).contains_key(name)
            ==> after.pods.contains_key(name),
{
    let (cut, filled, gone, cut2, cleared) = choose|
        cut: int,
        filled: RoundView,
        gone: Seq<Seq<char>>,
        cut2: int,
        cleared: AgentView,
    |
        #[trigger] three_parts(
            before,
            asked,
            calls,
            cut,
            filled,
            gone,
            cut2,
            cleared,
            after,
            failures,
        );
    assert(three_parts(before, asked, calls, cut, filled, gone, cut2, cleared, after, failures));
    if before.pods.contains_key(name) {
        let opening = RoundView { agent: before, failures: Seq::empty() };
        creating_keeps_pods(asked, opening, calls.take(cut), filled, name);
    }
    removing_clears_pods(gone, filled.agent, calls.subrange(cut, cut2), cleared, name);
    caring_keeps_names(
        asked,
        RoundView { agent: cleared, failures: filled.failures },
        calls.skip(cut2),
        RoundView { agent: after, failures },
        name,
    );
    assert(gone.contains(name) <==> filled.agent.pods.contains_key(name) && !names::as_map(
        asked,
    ).contains_key(name));
}

/// Law: a Pod that failed while it was created is not kept, and one that was
/// created is.
pub proof fn half_made_pods_are_not_kept(
    before: AgentView,
    pod: PodView,
    calls: Seq<CallView>,
    after: AgentView,
    r: Result<(), AgentErrorView>,
)
    requires
        pod_created(before, pod, calls, after, r),
    ensures
        r is Err ==> after == before,
        r is Ok ==> after.pods.contains_key(pod.metadata.name)
            && after.pods[pod.metadata.name].pod == pod,
{
    let (cut, sb, first) = choose|cut: int, sb: SandboxView, first: Result<(), SandboxErrorView>|
        #[trigger] started_then_populated(before, pod, calls, cut, sb, first, after, r);
    assert(started_then_populated(before, pod, calls, cut, sb, first, after, r));
}

/// Law: no tracker of a removed Pod is left, and no other one is touched.
pub proof fn removed_pods_leave_no_trackers(
    trackers: Trackers,
    pod: Seq<char>,
    containers: Seq<ContainerView>,
    id: Seq<char>,
)
    ensures
        (exists|i: int|
            0 <= i < containers.len() && id == container_id(pod, (#[trigger] containers[i]).name))
            ==> !forgotten(trackers, pod, containers).contains_key(id),
        !(exists|i: int|
            0 <= i < containers.len() && id == container_id(pod, (#[trigger] containers[i]).name))
            ==> (forgotten(trackers, pod, containers).contains_key(id) <==> trackers.contains_key(
            id,
        )),
    decreases containers.len(),
{
    if containers.len() > 0 {
        let front = containers.drop_last();
        removed_pods_leave_no_trackers(trackers, pod, front, id);
        assert(containers[containers.len() - 1] == containers.last());
        if exists|i: int|
            0 <= i < containers.len() && id == container_id(pod, (#[trigger] containers[i]).name) {
            let i = choose|i: int|
                0 <= i < containers.len() && id == container_id(
                    pod,
                    (#[trigger] containers[i]).name,
                );
            if i < front.len() {
                assert(front[i] == containers[i]);
            }
        } else {
            assert forall|i: int| 0 <= i < front.len() implies id != container_id(
                pod,
                (#[trigger] front[i]).name,
            ) by {
                assert(front[i] == containers[i]);
            }
        }
    }
}

/// Law: each restart doubles the time a container is left alone, until the
/// limit is reached, which is never passed.
pub proof fn waiting_doubles_up_to_the_limit(policy: BackoffPolicy, restart_count: u32)
    requires
        1 <= restart_count <= 20,
    ensures
        backoff_after(policy, restart_count) <= policy.max_millis,
        backoff_after(policy, (restart_count + 1) as u32) == if 2 * backoff_after(
            policy,
            restart_count,
        ) < policy.max_millis {
            2 * backoff_after(policy, restart_count)
        } else {
            policy.max_millis as int
        },
        restart_count == 1 && policy.base_millis < policy.max_millis ==> backoff_after(
            policy,
            restart_count,
        ) == policy.base_millis,
{
    let n = doublings(restart_count);
    vstd::arithmetic::power2::lemma_pow2_unfold((n + 1) as nat);
    vstd::arithmetic::power2::lemma2_to64();
    let p = vstd::arithmetic::power2::pow2(n);
    let q = vstd::arithmetic::power2::pow2((n + 1) as nat);
    let base = policy.base_millis as int;
    assert(base * q == 2 * (base * p)) by (nonlinear_arith)
        requires
            q == 2 * p,
    ;
    if restart_count == 1 {
        assert(p == 1);
        assert(base * p == base) by (nonlinear_arith)
            requires
                p == 1,
        ;
    }
}

/// How long a container is left alone after its k-th restart in a row, told from
/// the policy: the base time doubles with each restart, twenty times at most, and
/// never passes the limit.
pub open spec fn wait_of_restart(policy: BackoffPolicy, k: nat) -> int {
    let times = vstd::math::min(k - 1, 20) as nat;
    vstd::math::min(
        policy.base_millis * vstd::arithmetic::power2::pow2(times),
        policy.max_millis as int,
    )
}

/// A container was found neither running nor about to, at a time at which it may
/// be restarted.
pub open spec fn found_due(before: Trackers, id: Seq<char>, calls: Seq<CallView>) -> bool {
    &&& calls.len() > 1
    &&& calls[0] matches CallView::State { reply: Ok(state), .. } && (state
        == ContainerState::Stopped || state == ContainerState::NotFound)
    &&& calls[1] matches CallView::Clock { millis } && (before.contains_key(id)
        ==> before[id].next_retry_at <= millis)
}

/// Law: a restart is counted, once, up to the largest number there is. The
/// container is then left alone for the time that its restarts in a row give, and
/// no other container's count is touched.
pub proof fn restarts_are_counted(
    policy: BackoffPolicy,
    pod: Seq<char>,
    before: LiveView,
    c: ContainerView,
    calls: Seq<CallView>,
    after: LiveView,
    r: Result<(), AgentErrorView>,
    other: Seq<char>,
)
    requires
        container_checked(policy, pod, before, c, calls, after, r),
        found_due(before.trackers, pod + "__"@ + c.name, calls),
    ensures
        ({
            let id = pod + "__"@ + c.name;
            let had = if before.trackers.contains_key(id) {
                before.trackers[id].restart_count as int
            } else {
                0
            };
            let now = calls[1]->Clock_millis;
            let t = after.trackers[id];
            &&& after.trackers.contains_key(id)
            &&& t.restart_count == vstd::math::min(had + 1, u32::MAX as int)
            &&& t.next_retry_at == vstd::math::min(
                now + wait_of_restart(policy, t.restart_count as nat),
                u64::MAX as int,
            )
            &&& other != id ==> {
                &&& after.trackers.contains_key(other) == before.trackers.contains_key(other)
                &&& after.trackers[other] == before.trackers[other]
            }
        }),
{
}

/// Law: a container that has stopped is left alone, and its count with it, until
/// its time has come. One that runs starts to count anew; one that was created
/// and one whose state is not known keep their count.
pub proof fn containers_wait_their_turn(
    policy: BackoffPolicy,
    pod: Seq<char>,
    before: LiveView,
    c: ContainerView,
    calls: Seq<CallView>,
    after: LiveView,
    r: Result<(), AgentErrorView>,
)
    requires
        container_checked(policy, pod, before, c, calls, after, r),
    ensures
        ({
            let id = pod + "__"@ + c.name;
            &&& calls.len() > 0
            &&& calls[0] matches CallView::State { id: asked, reply } && asked == id && match reply {
                Ok(ContainerState::Running) => {
                    &&& !after.trackers.contains_key(id)
                    &&& calls.len() == 1
                    &&& after.sandbox == before.sandbox
                    &&& r is Ok
                },
                Ok(ContainerState::Created) => after == before && calls.len() == 1 && r is Ok,
                Ok(_) => {
                    &&& calls.len() > 1
                    &&& calls[1] is Clock
                    &&& before.trackers.contains_key(id) && calls[1]->Clock_millis
                        < before.trackers[id].next_retry_at ==> after == before && calls.len() == 2
                        && r is Ok
                    &&& !found_due(before.trackers, id, calls) ==> after == before && calls.len()
                        == 2 && r is Ok
                },
                Err(_) => after == before && calls.len() == 1 && r is Err,
            }
        }),
{
}

/// One look at a container after the other, at each of which it is due.
pub open spec fn restarts_in_a_row(
    policy: BackoffPolicy,
    pod: Seq<char>,
    c: ContainerView,
    lives: Seq<LiveView>,
    calls: Seq<Seq<CallView>>,
) -> bool {
    &&& lives.len() == calls.len() + 1
    &&& forall|i: int|
        0 <= i < calls.len() ==> found_due(
            lives[i].trackers,
            pod + "__"@ + c.name,
            #[trigger] calls[i],
        ) && looked_after(policy, pod, lives[i], c, calls[i], lives[i + 1])
}

/// One look at a container, however it went.
pub open spec fn looked_after(
    policy: BackoffPolicy,
    pod: Seq<char>,
    before: LiveView,
    c: ContainerView,
    calls: Seq<CallView>,
    after: LiveView,
) -> bool {
    exists|r: Result<(), AgentErrorView>| #[trigger]
        container_checked(policy, pod, before, c, calls, after, r)
}

/// Law: of restarts in a row, with the container never seen to run in between, the
/// k-th is followed by the k-th wait: the base time, then twice as much each time,
/// up to the limit.
pub proof fn waits_grow_with_restarts(
    policy: BackoffPolicy,
    pod: Seq<char>,
    c: ContainerView,
    lives: Seq<LiveView>,
    calls: Seq<Seq<CallView>>,
    k: int,
)
    requires
        restarts_in_a_row(policy, pod, c, lives, calls),
        !lives[0].trackers.contains_key(pod + "__"@ + c.name),
        1 <= k <= calls.len(),
        k <= u32::MAX,
    ensures
        ({
            let id = pod + "__"@ + c.name;
            let now = calls[k - 1][1]->Clock_millis;
            let t = lives[k].trackers[id];
            &&& lives[k].trackers.contains_key(id)
            &&& t.restart_count == k
            &&& t.next_retry_at == vstd::math::min(
                now + wait_of_restart(policy, k as nat),
                u64::MAX as int,
            )
        }),
    decreases k,
{
    if k > 1 {
        waits_grow_with_restarts(policy, pod, c, lives, calls, k - 1);
    }
    assert(found_due(lives[k - 1].trackers, pod + "__"@ + c.name, calls[k - 1]));
    assert(looked_after(policy, pod, lives[k - 1], c, calls[k - 1], lives[k - 1 + 1]));
    let r = choose|r: Result<(), AgentErrorView>| #[trigger]
        container_checked(policy, pod, lives[k - 1], c, calls[k - 1], lives[k], r);
    restarts_are_counted(
        policy,
        pod,
        lives[k - 1],
        c,
        calls[k - 1],
        lives[k],
        r,
        pod + "__"@ + c.name,
    );
}

/// One container, as the debug snapshot shows it.
#[derive(Debug, Clone, PartialEq)]
pub struct ContainerSnapshot {
    pub name: String,
    pub command: Vec<String>,
    pub restart_count: u32,
    pub backoff_remaining_secs: u64,
}

/// One Pod, as the debug snapshot shows it.
#[derive(Debug, Clone, PartialEq)]
pub struct PodSnapshot {
    pub name: String,
    pub pause_pid: Option<u32>,
    pub containers: Vec<ContainerSnapshot>,
}

pub ghost struct ContainerSnapshotView {
    pub name: Seq<char>,
    pub command: Seq<Seq<char>>,
    pub restart_count: u32,
    pub backoff_remaining_secs: u64,
}

pub ghost struct PodSnapshotView {
    pub name: Seq<char>,
    pub pause_pid: Option<u32>,
    pub containers: Seq<ContainerSnapshotView>,
}

impl DeepView for ContainerSnapshot {
    type V = ContainerSnapshotView;

    open spec fn deep_view(&self) -> ContainerSnapshotView {
        ContainerSnapshotView {
            name: self.name@,
            command: self.command.deep_view(),
            restart_count: self.restart_count,
            backoff_remaining_secs: self.backoff_remaining_secs,
        }
    }
}

impl DeepView for PodSnapshot {
    type V = PodSnapshotView;

    open spec fn deep_view(&self) -> PodSnapshotView {
        PodSnapshotView {
            name: self.name@,
            pause_pid: self.pause_pid,
            containers: self.containers.deep_view(),
        }
    }
}

/// What the snapshot shows of a container: how often it was restarted, and for
/// how many whole seconds more it is left alone.
pub open spec fn container_shown(
    trackers: Trackers,
    pod: Seq<char>,
    c: ContainerView,
    now: u64,
) -> ContainerSnapshotView {
    let id = container_id(pod, c.name);
    let known = trackers.contains_key(id);
    ContainerSnapshotView {
        name: c.name,
        command: c.command,
        restart_count: if known {
            trackers[id].restart_count
        } else {
            0
        },
        backoff_remaining_secs: if known && trackers[id].next_retry_at > now {
            ((trackers[id].next_retry_at - now) / 1000) as u64
        } else {
            0
        },
    }
}

pub open spec fn pod_shown(
    trackers: Trackers,
    name: Seq<char>,
    state: PodStateView,
    now: u64,
) -> PodSnapshotView {
    PodSnapshotView {
        name,
        pause_pid: state.sandbox.pause_pid,
        containers: Seq::new(
            state.pod.spec.containers.len(),
            |i: int| container_shown(trackers, name, state.pod.spec.containers[i], now),
        ),
    }
}

impl<R: RuntimeClient> Reconciler<R> {
    fn container_snapshot(&self, pod: &str, c: &Container, now: u64) -> (shown: ContainerSnapshot)
        ensures
            shown.deep_view() == container_shown(
                self.restart_state@,
                pod@,
                c.deep_view(),
                now,
            ),
    {
        let id = container_id_text(pod, c.name.as_str());
        let (restart_count, backoff_remaining_secs): (u32, u64) = match self.restart_state.get(
            id.as_str(),
        ) {
            Some(t) => (
                t.restart_count,
                if t.next_retry_at > now {
                    (t.next_retry_at - now) / 1000
                } else {
                    0
                },
            ),
            None => (0, 0),
        };
        ContainerSnapshot {
            name: c.name.clone(),
            command: c.command.duplicate(),
            restart_count,
            backoff_remaining_secs,
        }
    }

    /// What the debug snapshot shows: each known Pod, once.
    pub fn snapshot(&self, now: u64) -> (pods: Vec<PodSnapshot>)
        requires
            self.wf(),
        ensures
            pods@.len() == self.store@.dom().len(),
            forall|i: int|
                0 <= i < pods@.len() ==> self.store@.contains_key((#[trigger] pods@[i]).name@)
                    && pods@[i].deep_view() == pod_shown(
                    self.restart_state@,
                    pods@[i].name@,
                    self.store@[pods@[i].name@],
                    now,
                ),
            forall|i: int, j: int|
                0 <= i < j < pods@.len() ==> (#[trigger] pods@[i]).name@ != (
                #[trigger] pods@[j]).name@,
    {
        let names = self.store.names();
        let ghost list = names.deep_view();
        proof {
            list.unique_seq_to_set();
        }
        let mut pods: Vec<PodSnapshot> = Vec::new();
        for i in 0..names.len()
            invariant
                self.wf(),
                list == names.deep_view(),
                list.no_duplicates(),
                list.to_set() == self.store@.dom(),
                pods@.len() == i,
                forall|k: int|
                    0 <= k < i ==> (#[trigger] pods@[k]).name@ == list[k]
                        && self.store@.contains_key(pods@[k].name@) && pods@[k].deep_view()
                        == pod_shown(
                        self.restart_state@,
                        pods@[k].name@,
                        self.store@[pods@[k].name@],
                        now,
                    ),
        {
            let name = names[i].as_str();
            proof {
                assert(list[i as int] == name@);
                assert(list.to_set().contains(name@));
                assert(self.store@.contains_key(name@));
            }
            if let Some(state) = self.store.get(name) {
                let mut containers: Vec<ContainerSnapshot> = Vec::new();
                let ghost wanted = pod_shown(
                    self.restart_state@,
                    name@,
                    state.deep_view(),
                    now,
                ).containers;
                for j in 0..state.pod.spec.containers.len()
                    invariant
                        wanted == pod_shown(
                            self.restart_state@,
                            name@,
                            state.deep_view(),
                            now,
                        ).containers,
                        containers@.len() == j,
                        forall|k: int| 0 <= k < j ==> containers.deep_view()[k] == wanted[k],
                {
                    let ghost so_far = containers.deep_view();
                    let shown = self.container_snapshot(name, &state.pod.spec.containers[j], now);
                    let ghost view = shown.deep_view();
                    containers.push(shown);
                    assert(containers.deep_view() =~= so_far.push(view));
                    assert(state.deep_view().pod.spec.containers[j as int]
                        == state.pod.spec.containers@[j as int].deep_view());
                }
                assert(containers.deep_view() =~= wanted);
                pods.push(
                    PodSnapshot {
                        name: names[i].clone(),
                        pause_pid: state.sandbox.pause_pid(),
                        containers,
                    },
                );
            }
        }
        pods
    }
}

} // verus!
