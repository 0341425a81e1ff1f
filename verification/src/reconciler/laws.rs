//! What holds of the Pods that the node agent creates, removes and shows.

use vstd::prelude::*;

use crate::names;
use crate::names::NameMap;
use crate::pod::{ContainerView, Pod, PodView};
use crate::reconciler;
use crate::reconciler::{
    AgentError, AgentErrorView, AgentView, BackoffPolicy, LiveView, PodSnapshot, Reconciler,
    RestartTracker, RoundView, Trackers,
};
use crate::runtime;
use crate::runtime::sandbox;
use crate::runtime::sandbox::{SandboxErrorView, SandboxView};
use crate::runtime::{CallView, RequestView, RuntimeClient};
use crate::store::PodStateView;

verus! {

proof fn joined_containers_run(
    containers: Seq<ContainerView>,
    before: SandboxView,
    calls: Seq<CallView>,
    after: SandboxView,
)
    requires
        runtime::chained(containers, reconciler::joining(), before, calls, after),
    ensures
        after == (SandboxView { app_containers: after.app_containers, ..before }),
        after.app_containers.len() == before.app_containers.len() + containers.len(),
        after.app_containers.take(before.app_containers.len() as int) == before.app_containers,
        forall|i: int|
            0 <= i < containers.len() ==> after.app_containers[before.app_containers.len() + i]
                == (#[trigger] containers[i]).name && sandbox::asks(
                calls,
                RequestView::Start { id: before.pod_name + "__"@ + containers[i].name },
            ),
        calls.len() == 3 * containers.len(),
        forall|i: int| 0 <= i < calls.len() ==> !(#[trigger] calls[i]).failed(),
    decreases containers.len(),
{
    if containers.len() > 0 {
        let (cut, middle) = choose|cut: int, middle: SandboxView|
            #[trigger] runtime::passes(cut, middle) && 0 <= cut <= calls.len() && runtime::chained(
                containers.drop_last(),
                reconciler::joining(),
                before,
                calls.take(cut),
                middle,
            ) && reconciler::joining()(middle, containers.last(), calls.skip(cut), after);
        let front = containers.drop_last();
        let early = calls.take(cut);
        let rest = calls.skip(cut);
        joined_containers_run(front, before, early, middle);
        sandbox::added_containers_run(
            middle,
            containers.last(),
            rest,
            after,
            Ok::<(), SandboxErrorView>(()),
        );
        assert(rest.len() == 3);
        assert forall|i: int| 0 <= i < calls.len() implies !(#[trigger] calls[i]).failed() by {
            if i < cut {
                assert(early[i] == calls[i]);
            } else {
                assert(rest[i - cut] == calls[i]);
            }
        }
        let n = before.app_containers.len() as int;
        assert(after.app_containers.take(n) =~= middle.app_containers.take(n));
        assert forall|i: int| 0 <= i < containers.len() implies after.app_containers[n + i] == (
        #[trigger] containers[i]).name && sandbox::asks(
            calls,
            RequestView::Start { id: before.pod_name + "__"@ + containers[i].name },
        ) by {
            let request = RequestView::Start { id: before.pod_name + "__"@ + containers[i].name };
            if i < front.len() {
                assert(front[i] == containers[i]);
                let k = choose|k: int|
                    0 <= k < early.len() && (#[trigger] early[k]).request() == request;
                assert(calls[k].request() == request);
            } else {
                assert(rest[2] == calls[cut + 2]);
                assert(calls[cut + 2].request() == request);
            }
        }
    } else {
        assert(after.app_containers.take(before.app_containers.len() as int)
            =~= before.app_containers);
    }
}

/// Law: a Pod that was created runs: its pause container was started first, and
/// each container that it asks for was started under the Pod's name and its
/// own. The agent keeps it with the process of its pause container and with its
/// containers in the order in which they are asked for, without an address, and
/// keeps all other Pods and all counts of restarts as they were.
pub proof fn created_pods_run(
    before: AgentView,
    pod: PodView,
    calls: Seq<CallView>,
    after: AgentView,
    r: Result<(), AgentErrorView>,
)
    requires
        reconciler::pod_created(before, pod, calls, after, r),
        r is Ok,
    ensures
        after.pods.contains_key(pod.metadata.name),
        after.settings == before.settings,
        after.trackers == before.trackers,
        forall|other: Seq<char>|
            other != pod.metadata.name ==> (#[trigger] after.pods.contains_key(other)
                <==> before.pods.contains_key(other)) && (before.pods.contains_key(other)
                ==> after.pods[other] == before.pods[other]),
        ({
            let kept = after.pods[pod.metadata.name].sandbox;
            &&& kept.pod_name == pod.metadata.name
            &&& kept.pause_id == pod.metadata.name + "__pause"@
            &&& kept.pause_pid is Some
            &&& kept.pod_ip is None
            &&& kept.app_containers.len() == pod.spec.containers.len()
            &&& forall|i: int|
                0 <= i < pod.spec.containers.len() ==> kept.app_containers[i] == (
                #[trigger] pod.spec.containers[i]).name && sandbox::asks(
                    calls,
                    RequestView::Start {
                        id: pod.metadata.name + "__"@ + pod.spec.containers[i].name,
                    },
                )
        }),
        sandbox::asks(calls, RequestView::Start { id: pod.metadata.name + "__pause"@ }),
        forall|i: int| 0 <= i < calls.len() ==> !(#[trigger] calls[i]).failed(),
{
    let (cut, sb, first) = choose|cut: int, sb: SandboxView, first: Result<(), SandboxErrorView>|
        #[trigger] reconciler::started_then_populated(before, pod, calls, cut, sb, first, after, r);
    assert(reconciler::started_then_populated(before, pod, calls, cut, sb, first, after, r));
    let early = calls.take(cut);
    let rest = calls.skip(cut);
    let fresh = SandboxView::fresh(
        pod.metadata.name,
        before.settings.pods_dir,
        before.settings.rootfs_base,
    );
    sandbox::created_pods_hold_their_pause(fresh, None, early, sb, first);
    let end = choose|end: SandboxView|
        #[trigger] runtime::chained(pod.spec.containers, reconciler::joining(), sb, rest, end) && after == (
        AgentView {
            pods: before.pods.insert(pod.metadata.name, PodStateView { pod, sandbox: end }),
            ..before
        });
    joined_containers_run(pod.spec.containers, sb, rest, end);
    assert(calls[2] == early[2]);
    assert(calls[2].request() == (RequestView::Start { id: pod.metadata.name + "__pause"@ }));
    assert forall|i: int| 0 <= i < calls.len() implies !(#[trigger] calls[i]).failed() by {
        if i < cut {
            assert(early[i] == calls[i]);
        } else {
            assert(rest[i - cut] == calls[i]);
        }
    }
    assert forall|i: int| 0 <= i < pod.spec.containers.len() implies end.app_containers[i] == (
    #[trigger] pod.spec.containers[i]).name && sandbox::asks(
        calls,
        RequestView::Start { id: pod.metadata.name + "__"@ + pod.spec.containers[i].name },
    ) by {
        let request = RequestView::Start {
            id: pod.metadata.name + "__"@ + pod.spec.containers[i].name,
        };
        assert(end.app_containers[sb.app_containers.len() + i] == pod.spec.containers[i].name);
        let k = choose|k: int| 0 <= k < rest.len() && (#[trigger] rest[k]).request() == request;
        assert(calls[cut + k].request() == request);
    }
}

/// Law: removing a known Pod forgets it and no other one, asks each of its
/// containers to exit, and deletes its pause container. Removing one that is
/// not known asks nothing and changes nothing.
pub proof fn removed_pods_are_torn_down(
    before: AgentView,
    name: Seq<char>,
    calls: Seq<CallView>,
    after: AgentView,
    container: Seq<char>,
)
    requires
        reconciler::pod_removed(before, name, calls, after),
    ensures
        !after.pods.contains_key(name),
        after.settings == before.settings,
        forall|other: Seq<char>|
            other != name ==> (#[trigger] after.pods.contains_key(other)
                <==> before.pods.contains_key(other)) && (before.pods.contains_key(other)
                ==> after.pods[other] == before.pods[other]),
        !before.pods.contains_key(name) ==> calls.len() == 0 && after == before,
        before.pods.contains_key(name) ==> sandbox::asks(
            calls,
            RequestView::Delete { id: before.pods[name].sandbox.pause_id, force: true },
        ),
        before.pods.contains_key(name) && before.pods[name].sandbox.app_containers.contains(
            container,
        ) ==> sandbox::asks(
            calls,
            RequestView::Kill {
                id: before.pods[name].sandbox.pod_name + "__"@ + container,
                signal: 15,
            },
        ),
{
    if before.pods.contains_key(name) {
        let sb = before.pods[name].sandbox;
        let end = choose|end: SandboxView| #[trigger] sandbox::destroyed(sb, calls, end);
        sandbox::tearing_down_reaches_every_container(sb, calls, end, container);
        assert(calls[calls.len() - 3].request() == (RequestView::Delete {
            id: sb.pause_id,
            force: true,
        }));
    }
}

/// Law: ending the agent forgets every Pod and every count of restarts, asks
/// each container of each known Pod to exit, and deletes each pause container.
pub proof fn shutting_down_reaches_every_pod(
    before: AgentView,
    calls: Seq<CallView>,
    after: AgentView,
    name: Seq<char>,
    container: Seq<char>,
)
    requires
        reconciler::shut_down(before, calls, after),
    ensures
        after.pods == Map::<Seq<char>, PodStateView>::empty(),
        after.trackers == Map::<Seq<char>, RestartTracker>::empty(),
        after.settings == before.settings,
        before.pods.contains_key(name) ==> sandbox::asks(
            calls,
            RequestView::Delete { id: before.pods[name].sandbox.pause_id, force: true },
        ),
        before.pods.contains_key(name) && before.pods[name].sandbox.app_containers.contains(
            container,
        ) ==> sandbox::asks(
            calls,
            RequestView::Kill {
                id: before.pods[name].sandbox.pod_name + "__"@ + container,
                signal: 15,
            },
        ),
{
    let list = choose|list: Seq<(Seq<char>, PodStateView)>|
        reconciler::lists_all(list, before.pods) && #[trigger] runtime::chained(
            list,
            reconciler::ending(),
            0,
            calls,
            list.len() as int,
        );
    if before.pods.contains_key(name) {
        let keys = crate::store::keys(list);
        assert(keys.to_set().contains(name));
        let i = choose|i: int| 0 <= i < keys.len() && keys[i] == name;
        assert(list[i].0 == name);
        each_ending_tears_down(list, 0, calls, list.len() as int, i, container);
    }
}

proof fn each_ending_tears_down(
    list: Seq<(Seq<char>, PodStateView)>,
    start: int,
    calls: Seq<CallView>,
    end: int,
    i: int,
    container: Seq<char>,
)
    requires
        runtime::chained(list, reconciler::ending(), start, calls, end),
        0 <= i < list.len(),
    ensures
        sandbox::asks(
            calls,
            RequestView::Delete { id: list[i].1.sandbox.pause_id, force: true },
        ),
        list[i].1.sandbox.app_containers.contains(container) ==> sandbox::asks(
            calls,
            RequestView::Kill {
                id: list[i].1.sandbox.pod_name + "__"@ + container,
                signal: 15,
            },
        ),
    decreases list.len(),
{
    let (cut, middle) = choose|cut: int, middle: int|
        #[trigger] runtime::passes(cut, middle) && 0 <= cut <= calls.len() && runtime::chained(
            list.drop_last(),
            reconciler::ending(),
            start,
            calls.take(cut),
            middle,
        ) && reconciler::ending()(middle, list.last(), calls.skip(cut), end);
    let part = if i < list.len() - 1 {
        calls.take(cut)
    } else {
        calls.skip(cut)
    };
    let shift: int = if i < list.len() - 1 {
        0
    } else {
        cut
    };
    let sb = list[i].1.sandbox;
    if i < list.len() - 1 {
        assert(list.drop_last()[i] == list[i]);
        each_ending_tears_down(list.drop_last(), start, part, middle, i, container);
    } else {
        let left = choose|left: SandboxView| #[trigger] sandbox::destroyed(sb, part, left);
        sandbox::tearing_down_reaches_every_container(sb, part, left, container);
        assert(part[part.len() - 3].request() == (RequestView::Delete {
            id: sb.pause_id,
            force: true,
        }));
    }
    let delete = RequestView::Delete { id: sb.pause_id, force: true };
    let k = choose|k: int| 0 <= k < part.len() && (#[trigger] part[k]).request() == delete;
    assert(calls[shift + k].request() == delete);
    if sb.app_containers.contains(container) {
        let kill = RequestView::Kill { id: sb.pod_name + "__"@ + container, signal: 15 };
        let k = choose|k: int| 0 <= k < part.len() && (#[trigger] part[k]).request() == kill;
        assert(calls[shift + k].request() == kill);
    }
}

/// Law: the snapshot shows of each container its name, its command, and how
/// often it was restarted. The seconds that it is still left alone are whole
/// seconds, and never more than are left.
pub proof fn snapshots_show_what_is_counted(
    trackers: Trackers,
    pod: Seq<char>,
    c: ContainerView,
    now: u64,
)
    ensures
        ({
            let shown = reconciler::container_shown(trackers, pod, c, now);
            let id = pod + "__"@ + c.name;
            &&& shown.name == c.name
            &&& shown.command == c.command
            &&& match trackers.dom().contains(id) {
                false => shown.restart_count == 0 && shown.backoff_remaining_secs == 0,
                true => shown.restart_count == trackers[id].restart_count
                    && (if trackers[id].next_retry_at
                    <= now {
                    shown.backoff_remaining_secs == 0
                } else {
                    1000 * shown.backoff_remaining_secs <= trackers[id].next_retry_at - now < 1000
                        * (shown.backoff_remaining_secs + 1)
                }),
            }
        }),
{
}


/// Whether each Pod that is asked for is asked for under its own name.
pub open spec fn named_after_themselves(asked: Seq<(Seq<char>, PodView)>) -> bool {
    forall|i: int|
        0 <= i < asked.len() ==> (#[trigger] asked[i]).0 == asked[i].1.metadata.name
}

proof fn creating_one(
    before: RoundView,
    asked: (Seq<char>, PodView),
    calls: Seq<CallView>,
    after: RoundView,
    name: Seq<char>,
)
    requires
        reconciler::creating()(before, asked, calls, after),
        asked.0 == asked.1.metadata.name,
    ensures
        before.agent.pods.contains_key(name) ==> after.agent.pods.contains_key(name)
            && after.agent.pods[name] == before.agent.pods[name],
        after.agent.pods.contains_key(asked.0) || after.failures.len() > 0,
        after.failures.len() >= before.failures.len(),
{
    if !before.agent.pods.contains_key(asked.0) {
        let r = choose|r: Result<(), AgentErrorView>|
            #[trigger] reconciler::pod_created(before.agent, asked.1, calls, after.agent, r)
                && after.failures == reconciler::noted(before.failures, r);
        reconciler::half_made_pods_are_not_kept(before.agent, asked.1, calls, after.agent, r);
        if r is Ok {
            created_pods_run(before.agent, asked.1, calls, after.agent, r);
            assert(after.agent.pods.contains_key(name) || !before.agent.pods.contains_key(name));
        }
    }
}

proof fn creating_fills_in(
    asked: Seq<(Seq<char>, PodView)>,
    before: RoundView,
    calls: Seq<CallView>,
    after: RoundView,
    name: Seq<char>,
)
    requires
        runtime::chained(asked, reconciler::creating(), before, calls, after),
        named_after_themselves(asked),
    ensures
        before.agent.pods.contains_key(name) ==> after.agent.pods.contains_key(name)
            && after.agent.pods[name] == before.agent.pods[name],
        (exists|i: int| 0 <= i < asked.len() && (#[trigger] asked[i]).0 == name)
            ==> after.agent.pods.contains_key(name) || after.failures.len() > 0,
        after.failures.len() >= before.failures.len(),
    decreases asked.len(),
{
    if asked.len() > 0 {
        let (cut, middle) = choose|cut: int, middle: RoundView|
            #[trigger] runtime::passes(cut, middle) && 0 <= cut <= calls.len() && runtime::chained(
                asked.drop_last(),
                reconciler::creating(),
                before,
                calls.take(cut),
                middle,
            ) && reconciler::creating()(middle, asked.last(), calls.skip(cut), after);
        let front = asked.drop_last();
        assert forall|i: int| 0 <= i < front.len() implies (#[trigger] front[i]).0
            == front[i].1.metadata.name by {
            assert(front[i] == asked[i]);
        }
        assert(asked[asked.len() - 1] == asked.last());
        creating_fills_in(front, before, calls.take(cut), middle, name);
        creating_one(middle, asked.last(), calls.skip(cut), after, name);
        if exists|i: int| 0 <= i < asked.len() && (#[trigger] asked[i]).0 == name {
            let i = choose|i: int| 0 <= i < asked.len() && (#[trigger] asked[i]).0 == name;
            if i < front.len() {
                assert(front[i].0 == name);
            }
        }
    }
}

proof fn removing_tears_down(
    gone: Seq<Seq<char>>,
    before: AgentView,
    calls: Seq<CallView>,
    after: AgentView,
    name: Seq<char>,
    container: Seq<char>,
)
    requires
        runtime::chained(gone, reconciler::removing(), before, calls, after),
        gone.no_duplicates(),
        before.pods.contains_key(name),
    ensures
        !gone.contains(name) ==> after.pods.contains_key(name) && after.pods[name]
            == before.pods[name],
        gone.contains(name) ==> !after.pods.contains_key(name) && sandbox::asks(
            calls,
            RequestView::Delete { id: before.pods[name].sandbox.pause_id, force: true },
        ),
        gone.contains(name) && before.pods[name].sandbox.app_containers.contains(container)
            ==> sandbox::asks(
            calls,
            RequestView::Kill {
                id: before.pods[name].sandbox.pod_name + "__"@ + container,
                signal: 15,
            },
        ),
    decreases gone.len(),
{
    if gone.len() > 0 {
        let (cut, middle) = choose|cut: int, middle: AgentView|
            #[trigger] runtime::passes(cut, middle) && 0 <= cut <= calls.len() && runtime::chained(
                gone.drop_last(),
                reconciler::removing(),
                before,
                calls.take(cut),
                middle,
            ) && reconciler::removing()(middle, gone.last(), calls.skip(cut), after);
        let front = gone.drop_last();
        assert(front.no_duplicates());
        removing_tears_down(front, before, calls.take(cut), middle, name, container);
        removed_pods_are_torn_down(middle, gone.last(), calls.skip(cut), after, container);
        assert(gone.last() == gone[gone.len() - 1]);
        let sb = before.pods[name].sandbox;
        let delete = RequestView::Delete { id: sb.pause_id, force: true };
        let kill = RequestView::Kill { id: sb.pod_name + "__"@ + container, signal: 15 };
        if gone.last() == name {
            if front.contains(name) {
                let i = choose|i: int| 0 <= i < front.len() && front[i] == name;
                assert(gone[i] == gone[gone.len() - 1]);
            }
            let rest = calls.skip(cut);
            let k = choose|k: int| 0 <= k < rest.len() && (#[trigger] rest[k]).request() == delete;
            assert(calls[cut + k].request() == delete);
            if sb.app_containers.contains(container) {
                let k = choose|k: int|
                    0 <= k < rest.len() && (#[trigger] rest[k]).request() == kill;
                assert(calls[cut + k].request() == kill);
            }
        } else {
            if gone.contains(name) {
                let i = choose|i: int| 0 <= i < gone.len() && gone[i] == name;
                assert(front[i] == name);
                let early = calls.take(cut);
                let k = choose|k: int|
                    0 <= k < early.len() && (#[trigger] early[k]).request() == delete;
                assert(calls[k].request() == delete);
                if sb.app_containers.contains(container) {
                    let k = choose|k: int|
                        0 <= k < early.len() && (#[trigger] early[k]).request() == kill;
                    assert(calls[k].request() == kill);
                }
            } else {
                if front.contains(name) {
                    let i = choose|i: int| 0 <= i < front.len() && front[i] == name;
                    assert(gone[i] == name);
                }
            }
            assert(middle.pods.contains_key(name) ==> after.pods.contains_key(name));
            assert(!middle.pods.contains_key(name) ==> !after.pods.contains_key(name));
        }
    }
}

proof fn caring_keeps_failures(
    asked: Seq<(Seq<char>, PodView)>,
    before: RoundView,
    calls: Seq<CallView>,
    after: RoundView,
    name: Seq<char>,
)
    requires
        runtime::chained(asked, reconciler::caring(), before, calls, after),
    ensures
        after.failures.len() >= before.failures.len(),
        before.agent.pods.contains_key(name) ==> after.agent.pods.contains_key(name)
            && after.agent.pods[name].pod == before.agent.pods[name].pod,
    decreases asked.len(),
{
    if asked.len() > 0 {
        let (cut, middle) = choose|cut: int, middle: RoundView|
            #[trigger] runtime::passes(cut, middle) && 0 <= cut <= calls.len() && runtime::chained(
                asked.drop_last(),
                reconciler::caring(),
                before,
                calls.take(cut),
                middle,
            ) && reconciler::caring()(middle, asked.last(), calls.skip(cut), after);
        caring_keeps_failures(asked.drop_last(), before, calls.take(cut), middle, name);
        let r = choose|r: Result<(), AgentErrorView>|
            #[trigger] reconciler::pod_checked(
                middle.agent,
                asked.last().0,
                asked.last().1,
                calls.skip(cut),
                after.agent,
                r,
            ) && after.failures == reconciler::noted(middle.failures, r);
        assert(reconciler::pod_checked(
            middle.agent,
            asked.last().0,
            asked.last().1,
            calls.skip(cut),
            after.agent,
            r,
        ));
    }
}

/// Law: after a round without a failure, each Pod that is asked for is there. A
/// Pod that was there and is no longer asked for is gone, each of its
/// containers was asked to exit, and its pause container was deleted.
pub proof fn rounds_bring_about_what_is_asked_for(
    before: AgentView,
    asked: Seq<(Seq<char>, PodView)>,
    calls: Seq<CallView>,
    after: AgentView,
    failures: Seq<AgentErrorView>,
    name: Seq<char>,
    container: Seq<char>,
)
    requires
        reconciler::diff_applied(before, asked, calls, after, failures),
        named_after_themselves(asked),
    ensures
        (exists|i: int| 0 <= i < asked.len() && (#[trigger] asked[i]).0 == name)
            && names::as_map(asked).contains_key(name) && failures.len() == 0
            ==> after.pods.contains_key(name),
        before.pods.contains_key(name) && !names::as_map(asked).contains_key(name)
            ==> !after.pods.contains_key(name) && sandbox::asks(
            calls,
            RequestView::Delete { id: before.pods[name].sandbox.pause_id, force: true },
        ),
        before.pods.contains_key(name) && !names::as_map(asked).contains_key(name)
            && before.pods[name].sandbox.app_containers.contains(container) ==> sandbox::asks(
            calls,
            RequestView::Kill {
                id: before.pods[name].sandbox.pod_name + "__"@ + container,
                signal: 15,
            },
        ),
        before.pods.contains_key(name) && names::as_map(asked).contains_key(name)
            ==> after.pods.contains_key(name) && after.pods[name].pod == before.pods[name].pod,
{
    let (cut, filled, gone, cut2, cleared) = choose|
        cut: int,
        filled: RoundView,
        gone: Seq<Seq<char>>,
        cut2: int,
        cleared: AgentView,
    |
        #[trigger] reconciler::three_parts(
            before,
            asked,
            calls,
            cut,
            filled,
            gone,
            cut2,
            cleared,
            after,
            failures,
        );
    assert(reconciler::three_parts(
        before,
        asked,
        calls,
        cut,
        filled,
        gone,
        cut2,
        cleared,
        after,
        failures,
    ));
    reconciler::rounds_keep_what_is_asked_for(before, asked, calls, after, failures, name);
    let opening = RoundView { agent: before, failures: Seq::empty() };
    creating_fills_in(asked, opening, calls.take(cut), filled, name);
    assert(gone.contains(name) <==> filled.agent.pods.contains_key(name) && !names::as_map(
        asked,
    ).contains_key(name));
    let part = calls.subrange(cut, cut2);
    if filled.agent.pods.contains_key(name) {
        removing_tears_down(gone, filled.agent, part, cleared, name, container);
    }
    caring_keeps_failures(
        asked,
        RoundView { agent: cleared, failures: filled.failures },
        calls.skip(cut2),
        RoundView { agent: after, failures },
        name,
    );
    if before.pods.contains_key(name) && !names::as_map(asked).contains_key(name) {
        let sb = before.pods[name].sandbox;
        let delete = RequestView::Delete { id: sb.pause_id, force: true };
        let kill = RequestView::Kill { id: sb.pod_name + "__"@ + container, signal: 15 };
        let k = choose|k: int| 0 <= k < part.len() && (#[trigger] part[k]).request() == delete;
        assert(calls[cut + k].request() == delete);
        if sb.app_containers.contains(container) {
            let k = choose|k: int| 0 <= k < part.len() && (#[trigger] part[k]).request() == kill;
            assert(calls[cut + k].request() == kill);
        }
    }
}


/// Law: a container that is found stopped when its time has come is asked to
/// exit and deleted, and then made and started again, with the Pod's pause
/// process as before. Without an error it was started.
pub proof fn due_containers_are_restarted(
    policy: BackoffPolicy,
    pod: Seq<char>,
    before: LiveView,
    c: ContainerView,
    calls: Seq<CallView>,
    after: LiveView,
    r: Result<(), AgentErrorView>,
)
    requires
        reconciler::container_checked(policy, pod, before, c, calls, after, r),
        reconciler::found_due(before.trackers, pod + "__"@ + c.name, calls),
    ensures
        calls.len() > 2,
        calls[2].request() == (RequestView::Kill {
            id: before.sandbox.pod_name + "__"@ + c.name,
            signal: 15,
        }),
        r is Ok ==> sandbox::asks(
            calls,
            RequestView::Start { id: before.sandbox.pod_name + "__"@ + c.name },
        ) && after.sandbox.app_containers.contains(c.name),
        after.sandbox.pause_pid == before.sandbox.pause_pid,
        after.sandbox.pod_ip == before.sandbox.pod_ip,
        after.sandbox.pod_name == before.sandbox.pod_name,
        after.sandbox.pause_id == before.sandbox.pause_id,
{
    let rest = calls.skip(2);
    let (cut, middle, gone, put) = choose|
        cut: int,
        middle: SandboxView,
        gone: Result<(), SandboxErrorView>,
        put: Result<(), SandboxErrorView>,
    |
        #[trigger] reconciler::replaced(
            before.sandbox,
            c,
            rest,
            cut,
            middle,
            gone,
            after.sandbox,
            put,
        ) && r == reconciler::within("restart container "@ + c.name, put);
    assert(reconciler::replaced(before.sandbox, c, rest, cut, middle, gone, after.sandbox, put));
    sandbox::removed_containers_are_killed_first(
        before.sandbox,
        c.name,
        rest.take(cut),
        middle,
        gone,
    );
    sandbox::removals_leave_the_pod(before.sandbox, c.name, rest.take(cut), middle, gone);
    assert(rest.take(cut)[0] == calls[2]);
    if middle.pause_pid is Some {
        sandbox::added_containers_run(middle, c, rest.skip(cut), after.sandbox, put);
        if r is Ok {
            assert(rest.skip(cut)[2] == calls[2 + cut + 2]);
            assert(calls[2 + cut + 2].request() == (RequestView::Start {
                id: before.sandbox.pod_name + "__"@ + c.name,
            }));
            let names = middle.app_containers.push(c.name);
            assert(names[names.len() - 1] == c.name);
        }
    }
}

proof fn each_check_looks(
    policy: BackoffPolicy,
    pod: Seq<char>,
    containers: Seq<ContainerView>,
    before: LiveView,
    calls: Seq<CallView>,
    after: LiveView,
    i: int,
)
    requires
        runtime::chained(containers, reconciler::checking(policy, pod), before, calls, after),
        0 <= i < containers.len(),
    ensures
        sandbox::asks(calls, RequestView::State { id: pod + "__"@ + containers[i].name }),
    decreases containers.len(),
{
    let (cut, middle) = choose|cut: int, middle: LiveView|
        #[trigger] runtime::passes(cut, middle) && 0 <= cut <= calls.len() && runtime::chained(
            containers.drop_last(),
            reconciler::checking(policy, pod),
            before,
            calls.take(cut),
            middle,
        ) && reconciler::checking(policy, pod)(middle, containers.last(), calls.skip(cut), after);
    let request = RequestView::State { id: pod + "__"@ + containers[i].name };
    if i < containers.len() - 1 {
        assert(containers.drop_last()[i] == containers[i]);
        each_check_looks(
            policy,
            pod,
            containers.drop_last(),
            before,
            calls.take(cut),
            middle,
            i,
        );
        let early = calls.take(cut);
        let k = choose|k: int| 0 <= k < early.len() && (#[trigger] early[k]).request() == request;
        assert(calls[k].request() == request);
    } else {
        assert(calls.skip(cut)[0] == calls[cut]);
        assert(calls[cut].request() == request);
    }
}

/// Law: looking after a Pod without an error looks at each of its containers.
pub proof fn every_container_is_looked_at(
    policy: BackoffPolicy,
    pod: Seq<char>,
    before: LiveView,
    containers: Seq<ContainerView>,
    calls: Seq<CallView>,
    after: LiveView,
    r: Result<(), AgentErrorView>,
    i: int,
)
    requires
        reconciler::containers_checked(policy, pod, before, containers, calls, after, r),
        r is Ok,
        0 <= i < containers.len(),
    ensures
        sandbox::asks(calls, RequestView::State { id: pod + "__"@ + containers[i].name }),
{
    each_check_looks(policy, pod, containers, before, calls, after, i);
}

/// Law: creating a Pod through the agent starts its pause container and each of
/// its containers and keeps it, with its containers in their order; all other
/// Pods and all counts stay. One that fails leaves nothing behind.
pub proof fn agents_create_pods<R: RuntimeClient>(
    agent: &mut Reconciler<R>,
    pod: &Pod,
    r: Result<(), AgentError>,
    i: int,
    other: Seq<char>,
)
    requires
        call_ensures(Reconciler::<R>::create_pod, (agent, pod), r),
    ensures
        ({
            let name = pod.metadata.name@;
            let was = old(agent).store@;
            let now = final(agent).store@;
            let calls = final(agent).runtime.trace().skip(old(agent).runtime.trace().len() as int);
            &&& final(agent).restart_state@ == old(agent).restart_state@
            &&& r is Err ==> now == was
            &&& r is Ok ==> {
                &&& now.contains_key(name)
                &&& now[name].pod == pod.deep_view()
                &&& now[name].sandbox.pause_pid is Some
                &&& now[name].sandbox.app_containers.len() == pod.spec.containers@.len()
                &&& sandbox::asks(calls, RequestView::Start { id: name + "__pause"@ })
                &&& 0 <= i < pod.spec.containers@.len() ==> {
                    let c = pod.spec.containers@[i].name@;
                    &&& now[name].sandbox.app_containers[i] == c
                    &&& sandbox::asks(calls, RequestView::Start { id: name + "__"@ + c })
                }
                &&& other != name ==> now.contains_key(other) == was.contains_key(other) && (
                was.contains_key(other) ==> now[other] == was[other])
            }
        }),
{
    let before = old(agent).state();
    let after = final(agent).state();
    let calls = runtime::since(old(agent).runtime.trace(), final(agent).runtime.trace());
    let v = pod.deep_view();
    reconciler::half_made_pods_are_not_kept(before, v, calls, after, reconciler::outcome(r));
    if r is Ok {
        created_pods_run(before, v, calls, after, reconciler::outcome(r));
        assert(v.spec.containers.len() == pod.spec.containers@.len());
        if 0 <= i < pod.spec.containers@.len() {
            assert(v.spec.containers[i] == pod.spec.containers@[i].deep_view());
        }
        assert(after.pods.contains_key(other) || !after.pods.contains_key(other));
    }
}

/// Law: removing a Pod through the agent forgets it and no other one, asks each
/// of its containers to exit, and deletes its pause container.
pub proof fn agents_remove_pods<R: RuntimeClient>(
    agent: &mut Reconciler<R>,
    name: &str,
    container: Seq<char>,
    other: Seq<char>,
)
    requires
        call_ensures(Reconciler::<R>::remove_pod, (agent, name), ()),
    ensures
        ({
            let was = old(agent).store@;
            let now = final(agent).store@;
            let calls = final(agent).runtime.trace().skip(old(agent).runtime.trace().len() as int);
            &&& !now.contains_key(name@)
            &&& other != name@ ==> now.contains_key(other) == was.contains_key(other) && (
            was.contains_key(other) ==> now[other] == was[other])
            &&& !was.contains_key(name@) ==> calls.len() == 0
            &&& was.contains_key(name@) ==> {
                let sb = was[name@].sandbox;
                &&& sandbox::asks(calls, RequestView::Delete { id: sb.pause_id, force: true })
                &&& sb.app_containers.contains(container) ==> sandbox::asks(
                    calls,
                    RequestView::Kill { id: sb.pod_name + "__"@ + container, signal: 15 },
                )
            }
        }),
{
    let calls = runtime::since(old(agent).runtime.trace(), final(agent).runtime.trace());
    let after = final(agent).state();
    removed_pods_are_torn_down(old(agent).state(), name@, calls, after, container);
    assert(after.pods.contains_key(other) || !after.pods.contains_key(other));
}

/// Law: ending the agent forgets everything, asks each container of each Pod to
/// exit, and deletes each pause container.
pub proof fn agents_end_with_all_pods<R: RuntimeClient>(
    agent: &mut Reconciler<R>,
    name: Seq<char>,
    container: Seq<char>,
)
    requires
        call_ensures(Reconciler::<R>::shutdown, (agent,), ()),
    ensures
        ({
            let was = old(agent).store@;
            let calls = final(agent).runtime.trace().skip(old(agent).runtime.trace().len() as int);
            &&& final(agent).store@ == Map::<Seq<char>, PodStateView>::empty()
            &&& final(agent).restart_state@ == Map::<Seq<char>, RestartTracker>::empty()
            &&& was.contains_key(name) ==> {
                let sb = was[name].sandbox;
                &&& sandbox::asks(calls, RequestView::Delete { id: sb.pause_id, force: true })
                &&& sb.app_containers.contains(container) ==> sandbox::asks(
                    calls,
                    RequestView::Kill { id: sb.pod_name + "__"@ + container, signal: 15 },
                )
            }
        }),
{
    let calls = runtime::since(old(agent).runtime.trace(), final(agent).runtime.trace());
    shutting_down_reaches_every_pod(
        old(agent).state(),
        calls,
        final(agent).state(),
        name,
        container,
    );
}

/// Law: looking after a Pod through the agent, without an error, looks at each
/// container that is asked for; all other Pods, and what was asked for of this
/// one, stay. A Pod that is not known is left alone.
pub proof fn agents_look_after_pods<R: RuntimeClient>(
    agent: &mut Reconciler<R>,
    name: &str,
    pod: &Pod,
    r: Result<(), AgentError>,
    i: int,
    other: Seq<char>,
)
    requires
        call_ensures(Reconciler::<R>::reconcile_liveness, (agent, name, pod), r),
    ensures
        ({
            let was = old(agent).store@;
            let now = final(agent).store@;
            let calls = final(agent).runtime.trace().skip(old(agent).runtime.trace().len() as int);
            &&& now.contains_key(other) == was.contains_key(other)
            &&& was.contains_key(other) ==> now[other].pod == was[other].pod
            &&& other != name@ && was.contains_key(other) ==> now[other] == was[other]
            &&& !was.contains_key(name@) ==> calls.len() == 0 && r is Ok
                && final(agent).restart_state@ == old(agent).restart_state@
            &&& was.contains_key(name@) && r is Ok && 0 <= i < pod.spec.containers@.len()
                ==> sandbox::asks(
                calls,
                RequestView::State { id: name@ + "__"@ + pod.spec.containers@[i].name@ },
            )
        }),
{
    let before = old(agent).state();
    let after = final(agent).state();
    let calls = runtime::since(old(agent).runtime.trace(), final(agent).runtime.trace());
    let v = pod.deep_view();
    assert(reconciler::pod_checked(before, name@, v, calls, after, reconciler::outcome(r)));
    if before.pods.contains_key(name@) {
        let state = before.pods[name@];
        let live = LiveView { sandbox: state.sandbox, trackers: before.trackers };
        let end = choose|end: LiveView|
            #[trigger] reconciler::containers_checked(
                before.settings.backoff,
                name@,
                live,
                v.spec.containers,
                calls,
                end,
                reconciler::outcome(r),
            ) && after == (AgentView {
                pods: before.pods.insert(
                    name@,
                    PodStateView { sandbox: end.sandbox, ..state },
                ),
                trackers: end.trackers,
                ..before
            });
        if r is Ok && 0 <= i < pod.spec.containers@.len() {
            assert(v.spec.containers[i] == pod.spec.containers@[i].deep_view());
            every_container_is_looked_at(
                before.settings.backoff,
                name@,
                live,
                v.spec.containers,
                calls,
                end,
                reconciler::outcome(r),
                i,
            );
        }
    }
}

/// Law: a round through the agent, with each Pod asked for under its own name,
/// leaves no Pod that is not asked for, keeps each that was there and is, and
/// without a failure has them all. What is no longer asked for was torn down.
pub proof fn agents_go_round<R: RuntimeClient>(
    agent: &mut Reconciler<R>,
    desired: &NameMap<Pod>,
    failures: Vec<AgentError>,
    name: Seq<char>,
    container: Seq<char>,
)
    requires
        call_ensures(Reconciler::<R>::apply_diff, (agent, desired), failures),
        forall|n: Seq<char>| #[trigger]
            desired@.contains_key(n) ==> desired@[n].metadata.name == n,
    ensures
        ({
            let was = old(agent).store@;
            let now = final(agent).store@;
            let calls = final(agent).runtime.trace().skip(old(agent).runtime.trace().len() as int);
            &&& now.contains_key(name) ==> desired@.contains_key(name)
            &&& was.contains_key(name) && desired@.contains_key(name) ==> now.contains_key(name)
                && now[name].pod == was[name].pod
            &&& desired@.contains_key(name) && failures@.len() == 0 ==> now.contains_key(name)
            &&& was.contains_key(name) && !desired@.contains_key(name) ==> {
                let sb = was[name].sandbox;
                &&& sandbox::asks(calls, RequestView::Delete { id: sb.pause_id, force: true })
                &&& sb.app_containers.contains(container) ==> sandbox::asks(
                    calls,
                    RequestView::Kill { id: sb.pod_name + "__"@ + container, signal: 15 },
                )
            }
        }),
{
    let before = old(agent).state();
    let after = final(agent).state();
    let calls = runtime::since(old(agent).runtime.trace(), final(agent).runtime.trace());
    let asked = choose|asked: Seq<(Seq<char>, PodView)>|
        {
            &&& names::in_key_order(asked)
            &&& names::as_map(asked) == desired@
            &&& #[trigger] reconciler::diff_applied(
                before,
                asked,
                calls,
                after,
                failures.deep_view(),
            )
        };
    names::as_map_holds_pairs(asked);
    assert forall|i: int| 0 <= i < asked.len() implies (#[trigger] asked[i]).0
        == asked[i].1.metadata.name by {
        assert(names::has_key(asked, asked[i].0));
        assert(desired@.contains_key(asked[i].0));
    }
    reconciler::rounds_keep_what_is_asked_for(
        before,
        asked,
        calls,
        after,
        failures.deep_view(),
        name,
    );
    rounds_bring_about_what_is_asked_for(
        before,
        asked,
        calls,
        after,
        failures.deep_view(),
        name,
        container,
    );
    assert(failures.deep_view().len() == failures@.len());
    if desired@.contains_key(name) {
        assert(names::has_key(asked, name));
        let i = choose|i: int| 0 <= i < asked.len() && (#[trigger] asked[i]).0 == name;
        assert(asked[i].0 == name);
    }
}


/// Law: the agent's snapshot shows each known Pod once, with the process of its
/// pause container and with every container that it asks for, in order: its
/// name, its command, and how often it was restarted.
pub proof fn agents_show_every_pod<R: RuntimeClient>(
    agent: &Reconciler<R>,
    now: u64,
    pods: Vec<PodSnapshot>,
    i: int,
    k: int,
    j: int,
)
    requires
        agent.wf(),
        call_ensures(Reconciler::<R>::snapshot, (agent, now), pods),
        0 <= i < pods@.len(),
    ensures
        pods@.len() == agent.store@.dom().len(),
        0 <= k < i ==> pods@[k].name@ != pods@[i].name@,
        agent.store@.contains_key(pods@[i].name@),
        ({
            let shown = pods@[i];
            let known = agent.store@[shown.name@];
            &&& shown.pause_pid == known.sandbox.pause_pid
            &&& shown.containers@.len() == known.pod.spec.containers.len()
            &&& 0 <= j < shown.containers@.len() ==> {
                let c = known.pod.spec.containers[j];
                let id = shown.name@ + "__"@ + c.name;
                &&& shown.containers@[j].name@ == c.name
                &&& shown.containers@[j].command.deep_view() == c.command
                &&& shown.containers@[j].restart_count == (if agent.restart_state@.contains_key(
                    id,
                ) {
                    agent.restart_state@[id].restart_count
                } else {
                    0
                })
            }
        }),
{
    let shown = pods@[i];
    let known = agent.store@[shown.name@];
    let seen = shown.deep_view();
    assert(seen == reconciler::pod_shown(agent.restart_state@, shown.name@, known, now));
    assert(seen.containers == shown.containers.deep_view());
    assert(seen.containers.len() == shown.containers@.len());
    if 0 <= j < shown.containers@.len() {
        let c = known.pod.spec.containers[j];
        assert(seen.containers[j] == shown.containers@[j].deep_view());
        assert(seen.containers[j] == reconciler::container_shown(
            agent.restart_state@,
            shown.name@,
            c,
            now,
        ));
        snapshots_show_what_is_counted(agent.restart_state@, shown.name@, c, now);
    }
    if 0 <= k < i {
        assert(pods@[k].name@ != pods@[i].name@);
    }
}

} // verus!
