//! What each call on a Pod's sandbox asks of the runtime, and what it leaves.

use vstd::prelude::*;

use crate::pod::{Container, PodName};
use crate::runtime;
use crate::runtime::sandbox;
use crate::runtime::sandbox::{ensure_bridge, PodSandbox, SandboxError};
use crate::runtime::{CallView, RequestView, RuntimeClient};

verus! {

/// Law: a sandbox comes up with its pause container created, started and looked
/// up, in this order, and with its network; no call failed. It then has that
/// process and the address it was given. Where a call failed, that was the last
/// one, and the error is returned.
pub proof fn sandboxes_come_up<R: RuntimeClient>(
    sb: &mut PodSandbox,
    client: &mut R,
    pod_ip: Option<String>,
    r: Result<(), SandboxError>,
    i: int,
)
    requires
        call_ensures(PodSandbox::create::<R>, (sb, client, pod_ip), r),
    ensures
        ({
            let (was, now) = (old(sb).deep_view(), final(sb).deep_view());
            let calls = final(client).trace().skip(old(client).trace().len() as int);
            &&& now.pod_name == was.pod_name && now.pause_id == was.pause_id
            &&& now.app_containers == was.app_containers
            &&& 0 <= i < calls.len() - 1 ==> !calls[i].failed()
            &&& r is Ok ==> {
                &&& now.pod_ip == pod_ip.deep_view()
                &&& calls.len() == if pod_ip is Some {
                    13int
                } else {
                    5int
                }
                &&& !calls.last().failed()
                &&& calls[0].request() is WriteBundle
                &&& calls[1].request() is Create && calls[1].request()->Create_id == was.pause_id
                &&& calls[2].request() == (RequestView::Start { id: was.pause_id })
                &&& calls[3].request() == (RequestView::Pid { id: was.pause_id })
                &&& match calls[3] {
                    CallView::Pid { reply: Ok(Some(pid)), .. } => now.pause_pid == Some(pid),
                    _ => false,
                }
                &&& 4 <= i < calls.len() ==> calls[i].request() is Run
            }
            &&& r is Err ==> calls.len() > 0 && (calls.last().failed() || r->Err_0 is NoPausePid)
        }),
{
    let (was, now) = (old(sb).deep_view(), final(sb).deep_view());
    let calls = runtime::since(old(client).trace(), final(client).trace());
    let out = sandbox::outcome(r);
    sandbox::creating_stops_at_a_refusal(was, pod_ip.deep_view(), calls, now, out);
    if r is Ok {
        sandbox::created_pods_hold_their_pause(was, pod_ip.deep_view(), calls, now, out);
        sandbox::created_pods_are_plugged_in(was, pod_ip.deep_view(), calls, now, out);
        if 4 <= i < calls.len() {
            let commands = sandbox::network_commands(was.pod_name, now.pause_pid->0, now.pod_ip);
            assert(calls.skip(4)[i - 4].request() == sandbox::runs(commands)[i - 4]);
        }
    }
}

/// Law: a container joins a Pod that is up: its bundle is written, it is created
/// and started under the Pod's name and its own, and the Pod counts it last. No
/// container joins a Pod that is not up, and one that is refused is not counted.
pub proof fn containers_join<R: RuntimeClient>(
    sb: &mut PodSandbox,
    client: &mut R,
    container: &Container,
    r: Result<(), SandboxError>,
)
    requires
        call_ensures(PodSandbox::add_container::<R>, (sb, client, container), r),
    ensures
        ({
            let (was, now) = (old(sb).deep_view(), final(sb).deep_view());
            let calls = final(client).trace().skip(old(client).trace().len() as int);
            let id = was.pod_name + "__"@ + container.name@;
            &&& was.pause_pid is None ==> r is Err && calls.len() == 0 && now == was
            &&& r is Err ==> now == was
            &&& r is Ok ==> {
                &&& now.app_containers == was.app_containers.push(container.name@)
                &&& now.pause_pid == was.pause_pid
                &&& calls.len() == 3
                &&& calls[0].request() is WriteBundle
                &&& calls[1].request() is Create && calls[1].request()->Create_id == id
                &&& calls[2].request() == (RequestView::Start { id })
                &&& !calls[0].failed() && !calls[1].failed() && !calls[2].failed()
            }
            &&& was.pause_pid is Some && r is Err ==> calls.len() > 0 && calls.last().failed()
        }),
{
    let (was, now) = (old(sb).deep_view(), final(sb).deep_view());
    let calls = runtime::since(old(client).trace(), final(client).trace());
    if was.pause_pid is Some {
        sandbox::added_containers_run(
            was,
            container.deep_view(),
            calls,
            now,
            sandbox::outcome(r),
        );
    }
}

/// Law: a container that leaves a Pod is asked to exit first, and deleted by
/// force in the end; then the Pod no longer counts it, and counts all others.
pub proof fn containers_leave<R: RuntimeClient>(
    sb: &mut PodSandbox,
    client: &mut R,
    name: &str,
    r: Result<(), SandboxError>,
    other: Seq<char>,
)
    requires
        call_ensures(PodSandbox::remove_container::<R>, (sb, client, name), r),
    ensures
        ({
            let (was, now) = (old(sb).deep_view(), final(sb).deep_view());
            let calls = final(client).trace().skip(old(client).trace().len() as int);
            let id = was.pod_name + "__"@ + name@;
            &&& calls.len() > 0
            &&& calls[0].request() == (RequestView::Kill { id, signal: 15 })
            &&& r is Ok ==> {
                &&& calls.len() >= 3
                &&& calls[calls.len() - 2].request() == (RequestView::Delete { id, force: true })
                &&& calls.last() is RemoveDir
                &&& !now.app_containers.contains(name@)
            }
            &&& r is Err ==> now == was && calls.last().failed()
            &&& other != name@ ==> now.app_containers.contains(other)
                == was.app_containers.contains(other)
            &&& now.pause_pid == was.pause_pid && now.pod_ip == was.pod_ip
        }),
{
    let (was, now) = (old(sb).deep_view(), final(sb).deep_view());
    let calls = runtime::since(old(client).trace(), final(client).trace());
    let out = sandbox::outcome(r);
    sandbox::removed_containers_are_killed_first(was, name@, calls, now, out);
    sandbox::removal_drops_one_container(was, name@, calls, now, out, other);
    sandbox::removals_leave_the_pod(was, name@, calls, now, out);
}

/// Law: a sandbox that goes down asks each of its containers to exit, and then
/// deletes the pause container, the Pod's directory and its cable, in this
/// order. It always succeeds, and leaves no process and no address.
pub proof fn sandboxes_go_down<R: RuntimeClient>(
    sb: &mut PodSandbox,
    client: &mut R,
    r: Result<(), SandboxError>,
    name: Seq<char>,
)
    requires
        call_ensures(PodSandbox::destroy::<R>, (sb, client), r),
    ensures
        ({
            let (was, now) = (old(sb).deep_view(), final(sb).deep_view());
            let calls = final(client).trace().skip(old(client).trace().len() as int);
            let n = calls.len();
            &&& r is Ok
            &&& now.pause_pid is None && now.pod_ip is None
            &&& was.app_containers.contains(name) ==> sandbox::asks(
                calls,
                RequestView::Kill { id: was.pod_name + "__"@ + name, signal: 15 },
            )
            &&& n >= 3
            &&& calls[n - 3].request() == (RequestView::Delete { id: was.pause_id, force: true })
            &&& calls[n - 2].request() is RemoveDir
            &&& calls[n - 1].request() is Run
        }),
{
    let (was, now) = (old(sb).deep_view(), final(sb).deep_view());
    let calls = runtime::since(old(client).trace(), final(client).trace());
    sandbox::tearing_down_reaches_every_container(was, calls, now, name);
    sandbox::torn_down_pods_hold_nothing(was, calls, now);
}

/// Law: the bridge is up once all four commands were run, and a bridge that is
/// not up comes with the failure of the last one.
pub proof fn bridges_come_up<R: RuntimeClient>(client: &mut R, r: Result<(), SandboxError>)
    requires
        call_ensures(ensure_bridge::<R>, (client,), r),
    ensures
        ({
            let calls = final(client).trace().skip(old(client).trace().len() as int);
            &&& 0 < calls.len() <= 4
            &&& r is Ok ==> calls.len() == 4
            &&& r is Err ==> calls.last().failed()
            &&& calls[0].request() == (RequestView::Run {
                argv: seq!["ip"@, "link"@, "add"@, "mykube0"@, "type"@, "bridge"@],
            })
        }),
{
    let calls = runtime::since(old(client).trace(), final(client).trace());
    sandbox::bridges_are_set_up_once(calls, sandbox::outcome(r), 0);
    sandbox::bridges_are_set_up_once(calls, sandbox::outcome(r), calls.len() - 1);
}


/// Law: a sandbox is named after its Pod, and so is its pause container. A new
/// one has no process, no address and no containers; one that is taken over has
/// those it is told of.
pub proof fn sandboxes_are_named_after_their_pod(
    pod_name: PodName,
    pods_dir: String,
    rootfs_base: String,
    pause_pid: u32,
    containers: Vec<String>,
    pod_ip: Option<String>,
    fresh: PodSandbox,
    taken: PodSandbox,
    k: int,
)
    requires
        call_ensures(PodSandbox::new, (pod_name, pods_dir, rootfs_base), fresh),
        call_ensures(
            PodSandbox::from_recovered,
            (pod_name, pause_pid, containers, pods_dir, rootfs_base, pod_ip),
            taken,
        ),
    ensures
        fresh.pod_name@ == pod_name@ && taken.pod_name@ == pod_name@,
        fresh.pause_id@ == pod_name@ + "__pause"@ && taken.pause_id@ == pod_name@ + "__pause"@,
        fresh.pods_dir@ == pods_dir@ && taken.pods_dir@ == pods_dir@,
        fresh.rootfs_base@ == rootfs_base@ && taken.rootfs_base@ == rootfs_base@,
        fresh.pause_pid is None && fresh.pod_ip is None && fresh.app_containers@.len() == 0,
        taken.pause_pid == Some(pause_pid),
        taken.app_containers@.len() == containers@.len(),
        0 <= k < containers@.len() ==> taken.app_containers@[k]@ == containers@[k]@,
        taken.pod_ip is Some <==> pod_ip is Some,
        pod_ip is Some ==> taken.pod_ip->0@ == pod_ip->0@,
{
    assert(fresh.app_containers.deep_view().len() == fresh.app_containers@.len());
    let (a, b) = (taken.app_containers.deep_view(), containers.deep_view());
    assert(a == b);
    assert(a.len() == taken.app_containers@.len() && b.len() == containers@.len());
    if 0 <= k < containers@.len() {
        assert(a[k] == taken.app_containers@[k]@ && b[k] == containers@[k]@);
    }
}

} // verus!
