//! One Pod on a node: the pause container, which does nothing but hold the
//! Pod's namespaces, and the containers that join them.

use vstd::prelude::*;

use crate::digest;
use crate::duplicate::Duplicate;
use crate::identity;
use crate::pod::{Container, ContainerView, PodName};
use crate::runtime;
use crate::runtime::bundle;
use crate::runtime::bundle::build_spec;
use crate::runtime::{
    tolerable, CallView, CommandError, CommandErrorView, ContainerState, RequestView,
    RuntimeClient, RuntimeError, RuntimeErrorView,
};
use crate::text;

verus! {

/// How long a container may take to exit after it was asked to, in
/// milliseconds.
pub const TERMINATION_GRACE_MILLIS: u64 = 5000;

/// How long to wait between two looks at a container that is to exit, in
/// milliseconds.
pub const POLLING_INTERVAL_MILLIS: u64 = 100;

/// How many looks fit into the time a container may take to exit.
pub const MOST_POLLS: u64 = 50;

/// The signal that asks a process to exit.
pub const SIGTERM: i32 = 15;

/// The one bridge on the host that all Pods are plugged into.
pub const BRIDGE_NAME: &'static str = "mykube0";

pub const BRIDGE_GATEWAY: &'static str = "10.244.0.1";

pub const BRIDGE_CIDR: &'static str = "10.244.0.1/16";

/// Why work on a Pod stopped.
#[derive(Debug, Clone, PartialEq)]
pub enum SandboxError {
    /// A bundle could not be written.
    Bundle { what: String, reason: String },
    /// The runtime refused.
    Runtime { what: String, cause: RuntimeError },
    /// A command on the host failed.
    Command { what: String, argv: Vec<String>, cause: CommandError },
    /// The pause container was started, but has no process.
    NoPausePid,
    /// A container was to join a Pod that was not created.
    NotCreated(String),
}

#[verifier::ext_equal]
pub enum SandboxErrorView {
    Bundle { what: Seq<char>, reason: Seq<char> },
    Runtime { what: Seq<char>, cause: RuntimeErrorView },
    Command { what: Seq<char>, argv: Seq<Seq<char>>, cause: CommandErrorView },
    NoPausePid,
    NotCreated(Seq<char>),
}

impl DeepView for SandboxError {
    type V = SandboxErrorView;

    open spec fn deep_view(&self) -> SandboxErrorView {
        match self {
            SandboxError::Bundle { what, reason } => SandboxErrorView::Bundle {
                what: what@,
                reason: reason@,
            },
            SandboxError::Runtime { what, cause } => SandboxErrorView::Runtime {
                what: what@,
                cause: cause.deep_view(),
            },
            SandboxError::Command { what, argv, cause } => SandboxErrorView::Command {
                what: what@,
                argv: argv.deep_view(),
                cause: cause.deep_view(),
            },
            SandboxError::NoPausePid => SandboxErrorView::NoPausePid,
            SandboxError::NotCreated(pod) => SandboxErrorView::NotCreated(pod@),
        }
    }
}

/// A result, as a model.
pub open spec fn outcome(r: Result<(), SandboxError>) -> Result<(), SandboxErrorView> {
    match r {
        Ok(_) => Ok(()),
        Err(e) => Err(e.deep_view()),
    }
}

/// The error that a failed call leads to, given what it was made for.
pub open spec fn error_of(call: CallView, what: Seq<char>) -> SandboxErrorView {
    match call {
        CallView::WriteBundle { reply: Some(reason), .. } => SandboxErrorView::Bundle {
            what,
            reason,
        },
        CallView::Create { reply: Some(cause), .. } => SandboxErrorView::Runtime { what, cause },
        CallView::Start { reply: Some(cause), .. } => SandboxErrorView::Runtime { what, cause },
        CallView::Kill { reply: Some(cause), .. } => SandboxErrorView::Runtime { what, cause },
        CallView::Delete { reply: Some(cause), .. } => SandboxErrorView::Runtime { what, cause },
        CallView::State { reply: Err(cause), .. } => SandboxErrorView::Runtime { what, cause },
        CallView::Pid { reply: Err(cause), .. } => SandboxErrorView::Runtime { what, cause },
        CallView::Run { argv, reply: Some(cause) } => SandboxErrorView::Command {
            what,
            argv,
            cause,
        },
        _ => SandboxErrorView::NoPausePid,
    }
}

/// What a plan comes to: done, or the error of its last call.
pub open spec fn result_of(
    plan: Seq<RequestView>,
    whats: Seq<Seq<char>>,
    calls: Seq<CallView>,
) -> Result<(), SandboxErrorView> {
    if runtime::completed(plan, calls) {
        Ok(())
    } else {
        Err(error_of(calls.last(), whats[calls.len() - 1]))
    }
}

/// A Pod on its node.
#[derive(Debug, Clone, PartialEq)]
pub struct PodSandbox {
    pub pod_name: PodName,
    pub pause_id: String,
    /// The process that holds the Pod's namespaces, once there is one.
    pub pause_pid: Option<u32>,
    pub app_containers: Vec<String>,
    pub pods_dir: String,
    pub rootfs_base: String,
    pub pod_ip: Option<String>,
}

/// What a `PodSandbox` holds.
#[verifier::ext_equal]
pub struct SandboxView {
    pub pod_name: Seq<char>,
    pub pause_id: Seq<char>,
    pub pause_pid: Option<u32>,
    pub app_containers: Seq<Seq<char>>,
    pub pods_dir: Seq<char>,
    pub rootfs_base: Seq<char>,
    pub pod_ip: Option<Seq<char>>,
}

impl DeepView for PodSandbox {
    type V = SandboxView;

    open spec fn deep_view(&self) -> SandboxView {
        SandboxView {
            pod_name: self.pod_name@,
            pause_id: self.pause_id@,
            pause_pid: self.pause_pid,
            app_containers: self.app_containers.deep_view(),
            pods_dir: self.pods_dir@,
            rootfs_base: self.rootfs_base@,
            pod_ip: self.pod_ip.deep_view(),
        }
    }
}

impl SandboxView {
    /// A Pod that nothing was done for yet.
    pub open spec fn fresh(
        pod_name: Seq<char>,
        pods_dir: Seq<char>,
        rootfs_base: Seq<char>,
    ) -> SandboxView {
        SandboxView {
            pod_name,
            pause_id: pod_name + "__pause"@,
            pause_pid: None,
            app_containers: Seq::empty(),
            pods_dir,
            rootfs_base,
            pod_ip: None,
        }
    }

    /// The name under which the runtime knows a container of the Pod.
    pub open spec fn container_id(self, name: Seq<char>) -> Seq<char> {
        self.pod_name + "__"@ + name
    }

    pub open spec fn pod_dir(self) -> Seq<char> {
        text::joined_path(self.pods_dir, self.pod_name)
    }

    pub open spec fn bundle_dir(self, name: Seq<char>) -> Seq<char> {
        text::joined_path(self.pod_dir(), name)
    }
}

/// The pause container.
pub open spec fn pause_container() -> ContainerView {
    ContainerView {
        name: "__pause"@,
        image: "busybox"@,
        command: seq!["/bin/busybox"@, "sleep"@, "infinity"@],
    }
}

fn pause_container_spec() -> (c: Container)
    ensures
        c.deep_view() == pause_container(),
{
    let command = text::words(vec!["/bin/busybox", "sleep", "infinity"]);
    assert(command.deep_view() =~= pause_container().command);
    Container { name: "__pause".to_owned(), image: "busybox".to_owned(), command }
}

/// The name of an end of a Pod's cable: a prefix that tells the ends apart, and
/// the hash of the Pod's name.
pub open spec fn veth_chars(prefix: char, pod_name: Seq<char>) -> Seq<char> {
    seq![prefix] + text::hex_chars(digest::hash_of(pod_name) as nat, 14, false)
}

/// The name of the end of a Pod's cable that the prefix stands for.
pub fn veth_name(prefix: char, pod_name: &str) -> (name: String)
    ensures
        name@ == veth_chars(prefix, pod_name@),
{
    let mut name = String::new();
    name.push(prefix);
    text::push_hex(&mut name, digest::hash_text(pod_name), 14, false);
    assert(name@ =~= veth_chars(prefix, pod_name@));
    name
}

/// The name of the host's end of a Pod's cable.
pub fn host_veth_name(pod_name: &str) -> (name: String)
    ensures
        name@ == veth_chars('v', pod_name@),
{
    veth_name('v', pod_name)
}

/// The name of the Pod's end of its cable, before it is renamed.
pub fn peer_veth_name(pod_name: &str) -> (name: String)
    ensures
        name@ == veth_chars('p', pod_name@),
{
    veth_name('p', pod_name)
}

/// Law: a name has the 15 characters that an interface may have, the prefix and
/// then 14 hexadecimal digits in lower case, and two different prefixes give two
/// different names, whatever the Pods.
pub proof fn interface_names_fit(
    prefix: char,
    pod_name: Seq<char>,
    other: char,
    other_pod: Seq<char>,
)
    ensures
        veth_chars(prefix, pod_name).len() == 15,
        veth_chars(prefix, pod_name)[0] == prefix,
        forall|i: int|
            1 <= i < 15 ==> identity::lower_hex(#[trigger] veth_chars(prefix, pod_name)[i]),
        prefix != other ==> veth_chars(prefix, pod_name) != veth_chars(other, other_pod),
{
    let digits = text::hex_chars(digest::hash_of(pod_name) as nat, 14, false);
    text::hex_chars_are_digits(digest::hash_of(pod_name) as nat, 14);
    assert forall|i: int| 1 <= i < 15 implies identity::lower_hex(
        #[trigger] veth_chars(prefix, pod_name)[i],
    ) by {
        assert(veth_chars(prefix, pod_name)[i] == digits[i - 1]);
    }
    assert(veth_chars(prefix, pod_name)[0] == prefix);
    assert(veth_chars(other, other_pod)[0] == other);
}

/// A command that runs inside a process's network namespace.
pub open spec fn inside(pid: u32, argv: Seq<Seq<char>>) -> Seq<Seq<char>> {
    seq!["nsenter"@, "-t"@, text::decimal_chars(pid as nat), "-n"@] + argv
}

/// The commands that give a Pod its network. With an address: a cable from the
/// bridge into the Pod, where its end becomes `eth0` with the address and the
/// default route. Without one: only the loopback interface.
pub open spec fn network_commands(pod_name: Seq<char>, pid: u32, pod_ip: Option<Seq<char>>) -> Seq<
    Seq<Seq<char>>,
> {
    let host = veth_chars('v', pod_name);
    let peer = veth_chars('p', pod_name);
    match pod_ip {
        Some(ip) => seq![
            seq!["ip"@, "link"@, "add"@, host, "type"@, "veth"@, "peer"@, "name"@, peer],
            seq!["ip"@, "link"@, "set"@, host, "master"@, BRIDGE_NAME@],
            seq!["ip"@, "link"@, "set"@, host, "up"@],
            seq!["ip"@, "link"@, "set"@, peer, "netns"@, text::decimal_chars(pid as nat)],
            inside(pid, seq!["ip"@, "link"@, "set"@, peer, "name"@, "eth0"@]),
            inside(pid, seq!["ip"@, "addr"@, "add"@, ip + "/16"@, "dev"@, "eth0"@]),
            inside(pid, seq!["ip"@, "link"@, "set"@, "eth0"@, "up"@]),
            inside(pid, seq!["ip"@, "link"@, "set"@, "lo"@, "up"@]),
            inside(pid, seq!["ip"@, "route"@, "add"@, "default"@, "via"@, BRIDGE_GATEWAY@]),
        ],
        None => seq![inside(pid, seq!["ip"@, "link"@, "set"@, "lo"@, "up"@])],
    }
}

fn nsenter(pid: &str, argv: Vec<&str>) -> (full: Vec<String>)
    ensures
        full.deep_view() == seq!["nsenter"@, "-t"@, pid@, "-n"@] + Seq::new(
            argv@.len(),
            |i: int| argv@[i]@,
        ),
{
    let mut full = text::words(vec!["nsenter", "-t", pid, "-n"]);
    let ghost head = full.deep_view();
    assert(head =~= seq!["nsenter"@, "-t"@, pid@, "-n"@]);
    let mut rest = text::words(argv);
    let ghost tail = rest.deep_view();
    full.append(&mut rest);
    assert(full.deep_view() =~= head + tail);
    full
}

fn plan_network(pod_name: &str, pid: u32, pod_ip: Option<&str>) -> (plan: Vec<Vec<String>>)
    ensures
        plan.deep_view() == network_commands(
            pod_name@,
            pid,
            match pod_ip {
                Some(ip) => Some(ip@),
                None => None,
            },
        ),
{
    let number = text::decimal(pid as u64);
    let p = number.as_str();
    let mut plan: Vec<Vec<String>> = Vec::new();
    match pod_ip {
        Some(ip) => {
            let host_name = host_veth_name(pod_name);
            let peer_name = peer_veth_name(pod_name);
            let host = host_name.as_str();
            let peer = peer_name.as_str();
            let address = ip.to_owned().concat("/16");
            let ghost planned = network_commands(pod_name@, pid, Some(ip@));
            plan.push(
                text::words(
                    vec!["ip", "link", "add", host, "type", "veth", "peer", "name", peer],
                ),
            );
            assert(plan.deep_view()[0] =~= planned[0]);
            plan.push(text::words(vec!["ip", "link", "set", host, "master", BRIDGE_NAME]));
            assert(plan.deep_view()[1] =~= planned[1]);
            plan.push(text::words(vec!["ip", "link", "set", host, "up"]));
            assert(plan.deep_view()[2] =~= planned[2]);
            plan.push(text::words(vec!["ip", "link", "set", peer, "netns", p]));
            assert(plan.deep_view()[3] =~= planned[3]);
            plan.push(nsenter(p, vec!["ip", "link", "set", peer, "name", "eth0"]));
            assert(plan.deep_view()[4] =~= planned[4]);
            plan.push(nsenter(p, vec!["ip", "addr", "add", address.as_str(), "dev", "eth0"]));
            assert(plan.deep_view()[5] =~= planned[5]);
            plan.push(nsenter(p, vec!["ip", "link", "set", "eth0", "up"]));
            assert(plan.deep_view()[6] =~= planned[6]);
            plan.push(nsenter(p, vec!["ip", "link", "set", "lo", "up"]));
            assert(plan.deep_view()[7] =~= planned[7]);
            plan.push(nsenter(p, vec!["ip", "route", "add", "default", "via", BRIDGE_GATEWAY]));
            assert(plan.deep_view()[8] =~= planned[8]);
            assert(plan.deep_view() =~= planned);
        },
        None => {
            let ghost planned = network_commands(pod_name@, pid, None);
            plan.push(nsenter(p, vec!["ip", "link", "set", "lo", "up"]));
            assert(plan.deep_view()[0] =~= planned[0]);
            assert(plan.deep_view() =~= planned);
        },
    }
    plan
}

/// Commands as questions to the host.
pub open spec fn runs(commands: Seq<Seq<Seq<char>>>) -> Seq<RequestView> {
    commands.map_values(|argv: Seq<Seq<char>>| RequestView::Run { argv })
}

/// Runs commands until one fails.
fn run_all<R: RuntimeClient>(runtime: &mut R, commands: &Vec<Vec<String>>, what: &str) -> (r: Result<
    (),
    SandboxError,
>)
    ensures
        ({
            let calls = runtime::since(old(runtime).trace(), final(runtime).trace());
            let plan = runs(commands.deep_view());
            &&& old(runtime).trace().is_prefix_of(final(runtime).trace())
            &&& runtime::carried_out(plan, calls)
            &&& outcome(r) == (if runtime::completed(plan, calls) {
                Ok(())
            } else {
                Err(error_of(calls.last(), what@))
            })
        }),
{
    let ghost start = runtime.trace();
    let ghost mut calls: Seq<CallView> = Seq::empty();
    let ghost plan = runs(commands.deep_view());
    assert(start + calls =~= start);
    for i in 0..commands.len()
        invariant
            start == old(runtime).trace(),
            plan == runs(commands.deep_view()),
            runtime.trace() == start + calls,
            calls.len() == i,
            forall|k: int| 0 <= k < i ==> (#[trigger] calls[k]).request() == plan[k],
            forall|k: int| 0 <= k < i ==> !(#[trigger] calls[k]).failed(),
    {
        let reply = runtime.run_command(&commands[i]);
        proof {
            let call = CallView::Run {
                argv: commands@[i as int].deep_view(),
                reply: runtime::failure(reply),
            };
            let before = calls;
            calls = calls.push(call);
            assert(runtime.trace() =~= start + calls);
            assert(commands.deep_view()[i as int] == commands@[i as int].deep_view());
            assert(call.request() == plan[i as int]);
            runtime::since_is_the_rest(start, calls);
        }
        if let Err(cause) = reply {
            return Err(
                SandboxError::Command {
                    what: what.to_owned(),
                    argv: commands[i].duplicate(),
                    cause,
                },
            );
        }
    }
    proof {
        runtime::since_is_the_rest(start, calls);
    }
    Ok(())
}

/// What is asked of the runtime to start the pause container.
pub open spec fn pause_plan(sb: SandboxView) -> Seq<RequestView> {
    let dir = sb.bundle_dir(pause_container().name);
    seq![
        RequestView::WriteBundle {
            dir,
            spec: bundle::bundle_of(pause_container(), sb.rootfs_base, None),
        },
        RequestView::Create { id: sb.pause_id, bundle: dir },
        RequestView::Start { id: sb.pause_id },
        RequestView::Pid { id: sb.pause_id },
    ]
}

pub open spec fn pause_steps() -> Seq<Seq<char>> {
    seq![
        "write pause bundle"@,
        "create pause container"@,
        "start pause container"@,
        "get pause container pid"@,
    ]
}

pub open spec fn network_step(pod_ip: Option<Seq<char>>) -> Seq<char> {
    match pod_ip {
        Some(_) => "configure pod network"@,
        None => "configure loopback"@,
    }
}

/// What creating a Pod does. The pause container comes first; its process is
/// noted, then the network is set up. The first failure ends it.
pub open spec fn created(
    before: SandboxView,
    pod_ip: Option<Seq<char>>,
    calls: Seq<CallView>,
    after: SandboxView,
    r: Result<(), SandboxErrorView>,
) -> bool {
    if calls.len() < 4 || calls[3].failed() {
        &&& runtime::carried_out(pause_plan(before), calls)
        &&& after == before
        &&& r == Err::<(), SandboxErrorView>(
            error_of(calls.last(), pause_steps()[calls.len() - 1]),
        )
    } else {
        &&& runtime::carried_out(pause_plan(before), calls.take(4))
        &&& match calls[3] {
            CallView::Pid { reply: Ok(Some(pid)), .. } => {
                let plan = runs(network_commands(before.pod_name, pid, pod_ip));
                let rest = calls.skip(4);
                &&& after == (SandboxView { pause_pid: Some(pid), pod_ip, ..before })
                &&& runtime::carried_out(plan, rest)
                &&& r == (if runtime::completed(plan, rest) {
                    Ok(())
                } else {
                    Err(error_of(rest.last(), network_step(pod_ip)))
                })
            },
            _ => {
                &&& calls.len() == 4
                &&& after == before
                &&& r == Err::<(), SandboxErrorView>(SandboxErrorView::NoPausePid)
            },
        }
    }
}

/// What is asked of the runtime to start a container of a Pod.
pub open spec fn container_plan(sb: SandboxView, c: ContainerView, pid: u32) -> Seq<RequestView> {
    let dir = sb.bundle_dir(c.name);
    let id = sb.container_id(c.name);
    seq![
        RequestView::WriteBundle { dir, spec: bundle::bundle_of(c, sb.rootfs_base, Some(pid)) },
        RequestView::Create { id, bundle: dir },
        RequestView::Start { id },
    ]
}

pub open spec fn container_steps() -> Seq<Seq<char>> {
    seq!["write container bundle"@, "create container"@, "start container"@]
}

/// What adding a container does. It joins the pause container's namespaces, so
/// without a pause container it is refused and nothing is asked.
pub open spec fn added(
    before: SandboxView,
    c: ContainerView,
    calls: Seq<CallView>,
    after: SandboxView,
    r: Result<(), SandboxErrorView>,
) -> bool {
    match before.pause_pid {
        None => {
            &&& calls.len() == 0
            &&& after == before
            &&& r == Err::<(), SandboxErrorView>(SandboxErrorView::NotCreated(before.pod_name))
        },
        Some(pid) => {
            let plan = container_plan(before, c, pid);
            &&& runtime::carried_out(plan, calls)
            &&& r == result_of(plan, container_steps(), calls)
            &&& after == (if r is Ok {
                SandboxView { app_containers: before.app_containers.push(c.name), ..before }
            } else {
                before
            })
        },
    }
}

/// What waiting for a container to exit does: it looks at the clock and at the
/// container in turn, until the time is up, the container is gone, or it
/// cannot be looked at.
pub open spec fn waited(
    id: Seq<char>,
    deadline: u64,
    polls_left: nat,
    calls: Seq<CallView>,
    r: Result<(), SandboxErrorView>,
) -> bool
    decreases polls_left,
{
    &&& calls.len() > 0
    &&& match calls[0] {
        CallView::Clock { millis } => if millis >= deadline || polls_left == 0 {
            calls.len() == 1 && r is Ok
        } else {
            &&& calls.len() > 1
            &&& match calls[1] {
                CallView::State { id: asked, reply } => {
                    &&& asked == id
                    &&& match reply {
                        Err(cause) => {
                            &&& calls.len() == 2
                            &&& r == Err::<(), SandboxErrorView>(
                                SandboxErrorView::Runtime { what: polling_step(), cause },
                            )
                        },
                        Ok(state) => if state == ContainerState::Stopped || state
                            == ContainerState::NotFound {
                            calls.len() == 2 && r is Ok
                        } else {
                            &&& calls.len() > 2
                            &&& calls[2] == (CallView::Sleep { millis: POLLING_INTERVAL_MILLIS })
                            &&& waited(
                                id,
                                deadline,
                                (polls_left - 1) as nat,
                                calls.skip(3),
                                r,
                            )
                        },
                    }
                },
                _ => false,
            }
        },
        _ => false,
    }
}

pub open spec fn polling_step() -> Seq<char> {
    "polling container state during graceful shutdown"@
}

pub open spec fn deadline_after(millis: u64) -> u64 {
    if millis + TERMINATION_GRACE_MILLIS > u64::MAX {
        u64::MAX
    } else {
        (millis + TERMINATION_GRACE_MILLIS) as u64
    }
}

pub open spec fn other_than(name: Seq<char>) -> spec_fn(Seq<char>) -> bool {
    |n: Seq<char>| n != name
}

/// Some names, but for one.
pub open spec fn without(names: Seq<Seq<char>>, name: Seq<char>) -> Seq<Seq<char>> {
    names.filter(other_than(name))
}

/// What deleting a container does: that it is gone already is fine. Then its
/// bundle goes too, and the Pod no longer counts it.
pub open spec fn deleted(
    before: SandboxView,
    name: Seq<char>,
    calls: Seq<CallView>,
    after: SandboxView,
    r: Result<(), SandboxErrorView>,
) -> bool {
    &&& calls.len() > 0
    &&& calls[0].request() == (RequestView::Delete { id: before.container_id(name), force: true })
    &&& match calls[0] {
        CallView::Delete { reply, .. } => if reply is None || reply->0 is NotFound {
            &&& calls == seq![
                calls[0],
                CallView::RemoveDir { dir: before.bundle_dir(name) },
            ]
            &&& r is Ok
            &&& after == (SandboxView {
                app_containers: without(before.app_containers, name),
                ..before
            })
        } else {
            &&& calls.len() == 1
            &&& r == Err::<(), SandboxErrorView>(error_of(calls[0], "delete container "@ + name))
            &&& after == before
        },
        _ => false,
    }
}

/// What happens to a container from the moment it was asked to exit: `cut`
/// calls pass while it is waited for.
pub open spec fn waited_then_deleted(
    before: SandboxView,
    name: Seq<char>,
    calls: Seq<CallView>,
    cut: int,
    wait: Result<(), SandboxErrorView>,
    after: SandboxView,
    r: Result<(), SandboxErrorView>,
) -> bool {
    &&& 1 <= cut <= calls.len()
    &&& match calls[0] {
        CallView::Clock { millis } => waited(
            before.container_id(name),
            deadline_after(millis),
            MOST_POLLS as nat,
            calls.subrange(1, cut),
            wait,
        ),
        _ => false,
    }
    &&& match wait {
        Ok(_) => deleted(before, name, calls.skip(cut), after, r),
        Err(_) => cut == calls.len() && r == wait && after == before,
    }
}

/// What removing a container does. It is asked to exit; if it could be asked,
/// it is waited for; then it is deleted by force.
pub open spec fn removed(
    before: SandboxView,
    name: Seq<char>,
    calls: Seq<CallView>,
    after: SandboxView,
    r: Result<(), SandboxErrorView>,
) -> bool {
    &&& calls.len() > 0
    &&& calls[0].request() == (RequestView::Kill {
        id: before.container_id(name),
        signal: SIGTERM,
    })
    &&& if calls[0].failed() {
        deleted(before, name, calls.skip(1), after, r)
    } else {
        exists|cut: int, wait: Result<(), SandboxErrorView>|
            #[trigger] waited_then_deleted(before, name, calls.skip(1), cut, wait, after, r)
    }
}

/// Removes a container, however that goes.
pub open spec fn removal() -> spec_fn(SandboxView, Seq<char>, Seq<CallView>, SandboxView) -> bool {
    |before: SandboxView, name: Seq<char>, calls: Seq<CallView>, after: SandboxView|
        exists|r: Result<(), SandboxErrorView>| #[trigger] removed(before, name, calls, after, r)
}

/// The last things asked when a Pod is torn down.
pub open spec fn last_rites(sb: SandboxView) -> Seq<RequestView> {
    seq![
        RequestView::Delete { id: sb.pause_id, force: true },
        RequestView::RemoveDir { dir: sb.pod_dir() },
        RequestView::Run { argv: seq!["ip"@, "link"@, "del"@, veth_chars('v', sb.pod_name)] },
    ]
}

/// What tearing down a Pod does: its containers are removed one after another,
/// and only then the pause container, whose namespaces they live in. Failures
/// do not stop it.
pub open spec fn destroyed(
    before: SandboxView,
    calls: Seq<CallView>,
    after: SandboxView,
) -> bool {
    let n = calls.len() - 3;
    &&& n >= 0
    &&& forall|i: int| 0 <= i < 3 ==> calls[n + i].request() == #[trigger] last_rites(before)[i]
    &&& exists|emptied: SandboxView|
        {
            &&& #[trigger] runtime::chained(
                before.app_containers,
                removal(),
                before,
                calls.take(n),
                emptied,
            )
            &&& after == (SandboxView { pause_pid: None, pod_ip: None, ..emptied })
        }
}

impl PodSandbox {
    pub fn new(pod_name: PodName, pods_dir: String, rootfs_base: String) -> (sb: Self)
        ensures
            sb.deep_view() == SandboxView::fresh(pod_name@, pods_dir@, rootfs_base@),
    {
        let pause_id = pod_name.clone().concat("__pause");
        let app_containers: Vec<String> = Vec::new();
        assert(app_containers.deep_view() =~= Seq::<Seq<char>>::empty());
        PodSandbox {
            pod_name,
            pause_id,
            pause_pid: None,
            app_containers,
            pods_dir,
            rootfs_base,
            pod_ip: None,
        }
    }

    /// A Pod whose containers survived a restart of the node agent. Nothing is
    /// asked of the runtime: its containers run.
    pub fn from_recovered(
        pod_name: PodName,
        pause_pid: u32,
        app_container_names: Vec<String>,
        pods_dir: String,
        rootfs_base: String,
        pod_ip: Option<String>,
    ) -> (sb: Self)
        ensures
            sb.deep_view() == (SandboxView {
                pause_pid: Some(pause_pid),
                app_containers: app_container_names.deep_view(),
                pod_ip: pod_ip.deep_view(),
                ..SandboxView::fresh(pod_name@, pods_dir@, rootfs_base@)
            }),
    {
        let pause_id = pod_name.clone().concat("__pause");
        PodSandbox {
            pod_name,
            pause_id,
            pause_pid: Some(pause_pid),
            app_containers: app_container_names,
            pods_dir,
            rootfs_base,
            pod_ip,
        }
    }

    pub fn pod_name(&self) -> (name: &PodName)
        ensures
            name@ == self.deep_view().pod_name,
    {
        &self.pod_name
    }

    pub fn pause_pid(&self) -> (pid: Option<u32>)
        ensures
            pid == self.deep_view().pause_pid,
    {
        self.pause_pid
    }

    pub fn pod_ip(&self) -> (ip: Option<&str>)
        ensures
            self.deep_view().pod_ip == (match ip {
                Some(ip) => Some(ip@),
                None => None,
            }),
    {
        match &self.pod_ip {
            Some(ip) => Some(ip.as_str()),
            None => None,
        }
    }

    pub fn app_container_names(&self) -> (names: &Vec<String>)
        ensures
            names.deep_view() == self.deep_view().app_containers,
    {
        &self.app_containers
    }

    pub fn contains_container(&self, name: &str) -> (r: bool)
        ensures
            r == self.deep_view().app_containers.contains(name@),
    {
        let ghost names = self.deep_view().app_containers;
        for i in 0..self.app_containers.len()
            invariant
                names == self.app_containers.deep_view(),
                names == self.deep_view().app_containers,
                forall|k: int| 0 <= k < i ==> #[trigger] names[k] != name@,
        {
            assert(names[i as int] == self.app_containers@[i as int]@);
            if text::same(self.app_containers[i].as_str(), name) {
                return true;
            }
        }
        false
    }

    fn container_id_for(&self, container_name: &str) -> (id: String)
        ensures
            id@ == self.deep_view().container_id(container_name@),
    {
        let mut id = self.pod_name.clone();
        id.append("__");
        id.append(container_name);
        id
    }

    fn bundle_dir_for(&self, container_name: &str) -> (dir: String)
        ensures
            dir@ == self.deep_view().bundle_dir(container_name@),
    {
        let pod_dir = text::join_path(self.pods_dir.as_str(), self.pod_name.as_str());
        text::join_path(pod_dir.as_str(), container_name)
    }

    /// Starts the pause container and sets up the Pod's network.
    pub fn create<R: RuntimeClient>(&mut self, runtime: &mut R, pod_ip: Option<String>) -> (r: Result<
        (),
        SandboxError,
    >)
        ensures
            old(runtime).trace().is_prefix_of(final(runtime).trace()),
            created(
                old(self).deep_view(),
                pod_ip.deep_view(),
                runtime::since(old(runtime).trace(), final(runtime).trace()),
                final(self).deep_view(),
                outcome(r),
            ),
    {
        let ghost start = runtime.trace();
        let ghost before = self.deep_view();
        let ghost plan = pause_plan(before);
        let ghost asked_ip = pod_ip.deep_view();
        let pause = pause_container_spec();
        let dir = self.bundle_dir_for(pause.name.as_str());
        let spec = build_spec(&pause, self.rootfs_base.as_str(), None);

        let written = runtime.write_bundle(dir.as_str(), &spec);
        let ghost c0 = runtime.trace().last();
        let ghost calls = seq![c0];
        proof {
            assert(runtime.trace() =~= start + calls);
            runtime::since_is_the_rest(start, calls);
        }
        if let Err(reason) = written {
            return Err(SandboxError::Bundle { what: "write pause bundle".to_owned(), reason });
        }
        let made = runtime.create_container(self.pause_id.as_str(), dir.as_str());
        let ghost c1 = runtime.trace().last();
        let ghost calls = seq![c0, c1];
        proof {
            assert(runtime.trace() =~= start + calls);
            runtime::since_is_the_rest(start, calls);
        }
        if let Err(cause) = made {
            return Err(
                SandboxError::Runtime { what: "create pause container".to_owned(), cause },
            );
        }
        let started = runtime.start_container(self.pause_id.as_str());
        let ghost c2 = runtime.trace().last();
        let ghost calls = seq![c0, c1, c2];
        proof {
            assert(runtime.trace() =~= start + calls);
            runtime::since_is_the_rest(start, calls);
        }
        if let Err(cause) = started {
            return Err(
                SandboxError::Runtime { what: "start pause container".to_owned(), cause },
            );
        }
        let asked = runtime.container_pid(self.pause_id.as_str());
        let ghost c3 = runtime.trace().last();
        let ghost calls = seq![c0, c1, c2, c3];
        proof {
            assert(runtime.trace() =~= start + calls);
            runtime::since_is_the_rest(start, calls);
            assert(calls.take(4) =~= calls);
        }
        let pid = match asked {
            Ok(Some(pid)) => pid,
            Ok(None) => {
                return Err(SandboxError::NoPausePid);
            },
            Err(cause) => {
                return Err(
                    SandboxError::Runtime { what: "get pause container pid".to_owned(), cause },
                );
            },
        };
        self.pause_pid = Some(pid);
        self.pod_ip = pod_ip;

        let ghost middle = runtime.trace();
        let (commands, what) = match &self.pod_ip {
            Some(ip) => (
                plan_network(self.pod_name.as_str(), pid, Some(ip.as_str())),
                "configure pod network",
            ),
            None => (plan_network(self.pod_name.as_str(), pid, None), "configure loopback"),
        };
        assert(commands.deep_view() == network_commands(before.pod_name, pid, asked_ip));
        let r = run_all(runtime, &commands, what);
        proof {
            let rest = runtime::since(middle, runtime.trace());
            let all = calls + rest;
            assert(runtime.trace() =~= start + all);
            runtime::since_is_the_rest(start, all);
            assert(all.take(4) =~= calls);
            assert(all.skip(4) =~= rest);
        }
        r
    }

    /// Starts a container that joins the pause container's namespaces.
    pub fn add_container<R: RuntimeClient>(&mut self, runtime: &mut R, container: &Container) -> (r:
        Result<(), SandboxError>)
        ensures
            old(runtime).trace().is_prefix_of(final(runtime).trace()),
            added(
                old(self).deep_view(),
                container.deep_view(),
                runtime::since(old(runtime).trace(), final(runtime).trace()),
                final(self).deep_view(),
                outcome(r),
            ),
    {
        let ghost start = runtime.trace();
        let ghost before = self.deep_view();
        let pid = match self.pause_pid {
            Some(pid) => pid,
            None => {
                proof {
                    assert(runtime.trace() =~= start + Seq::<CallView>::empty());
                    runtime::since_is_the_rest(start, Seq::<CallView>::empty());
                }
                return Err(SandboxError::NotCreated(self.pod_name.clone()));
            },
        };
        let id = self.container_id_for(container.name.as_str());
        let dir = self.bundle_dir_for(container.name.as_str());
        let spec = build_spec(container, self.rootfs_base.as_str(), Some(pid));

        let written = runtime.write_bundle(dir.as_str(), &spec);
        let ghost c0 = runtime.trace().last();
        let ghost calls = seq![c0];
        proof {
            assert(runtime.trace() =~= start + calls);
            runtime::since_is_the_rest(start, calls);
        }
        if let Err(reason) = written {
            return Err(SandboxError::Bundle { what: "write container bundle".to_owned(), reason });
        }
        let made = runtime.create_container(id.as_str(), dir.as_str());
        let ghost c1 = runtime.trace().last();
        let ghost calls = seq![c0, c1];
        proof {
            assert(runtime.trace() =~= start + calls);
            runtime::since_is_the_rest(start, calls);
        }
        if let Err(cause) = made {
            return Err(SandboxError::Runtime { what: "create container".to_owned(), cause });
        }
        let started = runtime.start_container(id.as_str());
        let ghost c2 = runtime.trace().last();
        let ghost calls = seq![c0, c1, c2];
        proof {
            assert(runtime.trace() =~= start + calls);
            runtime::since_is_the_rest(start, calls);
        }
        if let Err(cause) = started {
            return Err(SandboxError::Runtime { what: "start container".to_owned(), cause });
        }
        self.app_containers.push(container.name.clone());
        assert(self.app_containers.deep_view() =~= before.app_containers.push(container.name@));
        Ok(())
    }

    /// Removes a container: asks it to exit, waits for that as long as the
    /// grace period lasts, and deletes it by force.
    pub fn remove_container<R: RuntimeClient>(&mut self, runtime: &mut R, name: &str) -> (r: Result<
        (),
        SandboxError,
    >)
        ensures
            old(runtime).trace().is_prefix_of(final(runtime).trace()),
            removed(
                old(self).deep_view(),
                name@,
                runtime::since(old(runtime).trace(), final(runtime).trace()),
                final(self).deep_view(),
                outcome(r),
            ),
    {
        let ghost start = runtime.trace();
        let ghost before = self.deep_view();
        let id = self.container_id_for(name);
        let asked = runtime.kill_container(id.as_str(), SIGTERM);
        let ghost c0 = runtime.trace().last();
        let ghost waiting = Seq::<CallView>::empty();
        assert(runtime.trace() =~= start + seq![c0]);
        if asked.is_err() {
            let ghost middle = runtime.trace();
            let r = self.delete(runtime, id.as_str(), name);
            proof {
                let rest = runtime::since(middle, runtime.trace());
                let all = seq![c0] + rest;
                runtime::calls_add_up(start, seq![c0], middle, runtime.trace());
                assert(all.skip(1) =~= rest);
            }
            return r;
        }
        let now: u64 = runtime.now_millis();
        let ghost c1 = runtime.trace().last();
        assert(runtime.trace() =~= start + seq![c0, c1]);
        let ghost middle = runtime.trace();
        let deadline: u64 = now.saturating_add(TERMINATION_GRACE_MILLIS);
        let waited_for = wait_for_exit(runtime, id.as_str(), deadline, MOST_POLLS);
        let ghost wait = runtime::since(middle, runtime.trace());
        let ghost cut = 1 + wait.len();
        proof {
            runtime::calls_add_up(start, seq![c0, c1], middle, runtime.trace());
        }
        if let Err(e) = waited_for {
            proof {
                let rest = seq![c1] + wait;
                let all = seq![c0] + rest;
                runtime::calls_add_up(start, seq![c0, c1], middle, runtime.trace());
                assert(seq![c0, c1] + wait =~= all);
                assert(all.skip(1) =~= rest);
                assert(rest.subrange(1, cut as int) =~= wait);
                assert(waited_then_deleted(
                    before,
                    name@,
                    rest,
                    cut as int,
                    outcome(waited_for),
                    self.deep_view(),
                    outcome(Err::<(), SandboxError>(e)),
                ));
            }
            return Err(e);
        }
        let ghost then = runtime.trace();
        let r = self.delete(runtime, id.as_str(), name);
        proof {
            let last = runtime::since(then, runtime.trace());
            let rest = seq![c1] + wait + last;
            let all = seq![c0] + rest;
            runtime::calls_add_up(start, seq![c0, c1] + wait, then, runtime.trace());
            assert(seq![c0, c1] + wait + last =~= all);
            assert(all.skip(1) =~= rest);
            assert(rest.subrange(1, cut as int) =~= wait);
            assert(rest.skip(cut as int) =~= last);
            assert(waited_then_deleted(
                before,
                name@,
                rest,
                cut as int,
                outcome(waited_for),
                self.deep_view(),
                outcome(r),
            ));
        }
        r
    }

    fn delete<R: RuntimeClient>(&mut self, runtime: &mut R, id: &str, name: &str) -> (r: Result<
        (),
        SandboxError,
    >)
        requires
            id@ == old(self).deep_view().container_id(name@),
        ensures
            old(runtime).trace().is_prefix_of(final(runtime).trace()),
            deleted(
                old(self).deep_view(),
                name@,
                runtime::since(old(runtime).trace(), final(runtime).trace()),
                final(self).deep_view(),
                outcome(r),
            ),
    {
        let ghost start = runtime.trace();
        let gone = runtime.delete_container(id, true);
        let ghost c0 = runtime.trace().last();
        proof {
            assert(runtime.trace() =~= start + seq![c0]);
            runtime::since_is_the_rest(start, seq![c0]);
        }
        match gone {
            Ok(_) | Err(RuntimeError::NotFound(_)) => {},
            Err(cause) => {
                let what = "delete container ".to_owned().concat(name);
                return Err(SandboxError::Runtime { what, cause });
            },
        }
        let dir = self.bundle_dir_for(name);
        runtime.remove_dir(dir.as_str());
        proof {
            let calls = seq![c0, CallView::RemoveDir { dir: dir@ }];
            assert(runtime.trace() =~= start + calls);
            runtime::since_is_the_rest(start, calls);
        }
        let mut kept: Vec<String> = Vec::new();
        let ghost names = self.app_containers.deep_view();
        let ghost other = other_than(name@);
        proof {
            reveal(Seq::filter);
            assert(names.take(0) =~= Seq::<Seq<char>>::empty());
            assert(kept.deep_view() =~= Seq::<Seq<char>>::empty());
        }
        for i in 0..self.app_containers.len()
            invariant
                names == self.app_containers.deep_view(),
                other == other_than(name@),
                kept.deep_view() == names.take(i as int).filter(other),
        {
            let ghost before = kept.deep_view();
            proof {
                reveal(Seq::filter);
                assert(names.take(i + 1).drop_last() =~= names.take(i as int));
                assert(names.take(i + 1).last() == self.app_containers@[i as int]@);
            }
            if !text::same(self.app_containers[i].as_str(), name) {
                kept.push(self.app_containers[i].clone());
                assert(kept.deep_view() =~= before.push(names[i as int]));
            }
        }
        assert(names.take(names.len() as int) =~= names);
        self.app_containers = kept;
        Ok(())
    }

    /// Tears the Pod down: its containers first, then the pause container, then
    /// what is left on disk and on the host. Failures do not stop it.
    pub fn destroy<R: RuntimeClient>(&mut self, runtime: &mut R) -> (r: Result<(), SandboxError>)
        ensures
            r is Ok,
            old(runtime).trace().is_prefix_of(final(runtime).trace()),
            destroyed(
                old(self).deep_view(),
                runtime::since(old(runtime).trace(), final(runtime).trace()),
                final(self).deep_view(),
            ),
    {
        let ghost start = runtime.trace();
        let ghost before = self.deep_view();
        let names = self.app_containers.duplicate();
        let ghost all = names.deep_view();
        let ghost mut calls = Seq::<CallView>::empty();
        assert(start + calls =~= start);
        assert(all.take(0) =~= Seq::<Seq<char>>::empty());
        for i in 0..names.len()
            invariant
                all == names.deep_view(),
                runtime.trace() == start + calls,
                runtime::chained(
                    all.take(i as int),
                    removal(),
                    before,
                    calls,
                    self.deep_view(),
                ),
                self.deep_view() == (SandboxView {
                    app_containers: self.deep_view().app_containers,
                    ..before
                }),
        {
            let ghost middle = runtime.trace();
            let ghost state = self.deep_view();
            let r = self.remove_container(runtime, names[i].as_str());
            proof {
                let more = runtime::since(middle, runtime.trace());
                let items = all.take(i + 1);
                assert(items.drop_last() =~= all.take(i as int));
                assert(items.last() == names@[i as int]@);
                assert(removed(state, items.last(), more, self.deep_view(), outcome(r)));
                runtime::chain_grows(
                    items,
                    removal(),
                    before,
                    calls,
                    state,
                    more,
                    self.deep_view(),
                );
                runtime::calls_add_up(start, calls, middle, runtime.trace());
                calls = calls + more;
            }
        }
        let ghost emptied = self.deep_view();
        assert(all.take(all.len() as int) =~= all);
        let _gone = runtime.delete_container(self.pause_id.as_str(), true);
        let ghost c0 = runtime.trace().last();
        let pod_dir = text::join_path(self.pods_dir.as_str(), self.pod_name.as_str());
        runtime.remove_dir(pod_dir.as_str());
        let ghost c1 = runtime.trace().last();
        let host = host_veth_name(self.pod_name.as_str());
        let argv = text::words(vec!["ip", "link", "del", host.as_str()]);
        let _unplugged = runtime.run_command(&argv);
        let ghost c2 = runtime.trace().last();
        self.pause_pid = None;
        self.pod_ip = None;
        proof {
            assert(argv.deep_view() =~= seq![
                "ip"@,
                "link"@,
                "del"@,
                veth_chars('v', before.pod_name),
            ]);
            let whole = calls + seq![c0, c1, c2];
            assert(runtime.trace() =~= start + whole);
            runtime::since_is_the_rest(start, whole);
            let n = whole.len() - 3;
            assert(whole.take(n) =~= calls);
            assert(whole[n] == c0 && whole[n + 1] == c1 && whole[n + 2] == c2);
            assert(runtime::chained(
                before.app_containers,
                removal(),
                before,
                whole.take(n),
                emptied,
            ));
        }
        Ok(())
    }
}

/// Looks at a container until it has exited, the time is up, or it cannot be
/// looked at.
fn wait_for_exit<R: RuntimeClient>(runtime: &mut R, id: &str, deadline: u64, polls_left: u64) -> (r:
    Result<(), SandboxError>)
    ensures
        old(runtime).trace().is_prefix_of(final(runtime).trace()),
        waited(
            id@,
            deadline,
            polls_left as nat,
            runtime::since(old(runtime).trace(), final(runtime).trace()),
            outcome(r),
        ),
    decreases polls_left,
{
    let ghost start = runtime.trace();
    let now: u64 = runtime.now_millis();
    let ghost c0 = runtime.trace().last();
    proof {
        assert(runtime.trace() =~= start + seq![c0]);
        runtime::since_is_the_rest(start, seq![c0]);
    }
    if now >= deadline || polls_left == 0 {
        return Ok(());
    }
    let state = runtime.container_state(id);
    let ghost c1 = runtime.trace().last();
    proof {
        assert(runtime.trace() =~= start + seq![c0, c1]);
        runtime::since_is_the_rest(start, seq![c0, c1]);
    }
    match state {
        Err(cause) => Err(
            SandboxError::Runtime {
                what: "polling container state during graceful shutdown".to_owned(),
                cause,
            },
        ),
        Ok(state) => {
            if state == ContainerState::Stopped || state == ContainerState::NotFound {
                return Ok(());
            }
            runtime.sleep_millis(POLLING_INTERVAL_MILLIS);
            let ghost c2 = runtime.trace().last();
            let ghost middle = runtime.trace();
            assert(middle =~= start + seq![c0, c1, c2]);
            let r = wait_for_exit(runtime, id, deadline, polls_left - 1);
            proof {
                let rest = runtime::since(middle, runtime.trace());
                let all = seq![c0, c1, c2] + rest;
                runtime::calls_add_up(start, seq![c0, c1, c2], middle, runtime.trace());
                assert(all.skip(3) =~= rest);
            }
            r
        },
    }
}

/// The commands that make the bridge. The first two may find their work done.
pub open spec fn bridge_commands() -> Seq<Seq<Seq<char>>> {
    seq![
        seq!["ip"@, "link"@, "add"@, BRIDGE_NAME@, "type"@, "bridge"@],
        seq!["ip"@, "addr"@, "add"@, BRIDGE_CIDR@, "dev"@, BRIDGE_NAME@],
        seq!["ip"@, "link"@, "set"@, BRIDGE_NAME@, "up"@],
        seq!["sysctl"@, "-w"@, "net.ipv4.ip_forward=1"@],
    ]
}

/// Whether an answer to command number `i` ends the setup of the bridge.
pub open spec fn bridge_refused(i: int, call: CallView) -> bool {
    match call {
        CallView::Run { reply: Some(e), .. } => !(i < 2 && runtime::is_tolerable(
            e,
            "File exists"@,
        )),
        _ => false,
    }
}

/// What setting up the bridge does.
pub open spec fn bridged(calls: Seq<CallView>, r: Result<(), SandboxErrorView>) -> bool {
    &&& 0 < calls.len() <= 4
    &&& forall|i: int|
        0 <= i < calls.len() ==> (#[trigger] calls[i]).request() == runs(bridge_commands())[i]
    &&& forall|i: int| 0 <= i < calls.len() - 1 ==> !bridge_refused(i, #[trigger] calls[i])
    &&& if bridge_refused(calls.len() - 1, calls.last()) {
        r == Err::<(), SandboxErrorView>(error_of(calls.last(), "set up bridge"@))
    } else {
        calls.len() == 4 && r is Ok
    }
}

/// Makes the bridge. All node agents of a host share it: the first makes it,
/// the others find it.
pub fn ensure_bridge<R: RuntimeClient>(runtime: &mut R) -> (r: Result<(), SandboxError>)
    ensures
        old(runtime).trace().is_prefix_of(final(runtime).trace()),
        bridged(runtime::since(old(runtime).trace(), final(runtime).trace()), outcome(r)),
{
    let ghost start = runtime.trace();
    let ghost planned = bridge_commands();
    let mut commands: Vec<Vec<String>> = Vec::new();
    commands.push(text::words(vec!["ip", "link", "add", BRIDGE_NAME, "type", "bridge"]));
    assert(commands.deep_view()[0] =~= planned[0]);
    commands.push(text::words(vec!["ip", "addr", "add", BRIDGE_CIDR, "dev", BRIDGE_NAME]));
    assert(commands.deep_view()[1] =~= planned[1]);
    commands.push(text::words(vec!["ip", "link", "set", BRIDGE_NAME, "up"]));
    assert(commands.deep_view()[2] =~= planned[2]);
    commands.push(text::words(vec!["sysctl", "-w", "net.ipv4.ip_forward=1"]));
    assert(commands.deep_view()[3] =~= planned[3]);
    assert(commands.deep_view() =~= planned);
    let ghost mut calls = Seq::<CallView>::empty();
    assert(start + calls =~= start);
    for i in 0..commands.len()
        invariant
            start == old(runtime).trace(),
            planned == bridge_commands(),
            commands.deep_view() == planned,
            planned.len() == 4,
            runtime.trace() == start + calls,
            calls.len() == i,
            forall|k: int|
                0 <= k < i ==> (#[trigger] calls[k]).request() == runs(bridge_commands())[k],
            forall|k: int| 0 <= k < i ==> !bridge_refused(k, #[trigger] calls[k]),
    {
        let reply = runtime.run_command(&commands[i]);
        proof {
            let call = CallView::Run {
                argv: commands@[i as int].deep_view(),
                reply: runtime::failure(reply),
            };
            calls = calls.push(call);
            assert(runtime.trace() =~= start + calls);
            assert(commands.deep_view()[i as int] == commands@[i as int].deep_view());
            assert(call.request() == runs(planned)[i as int]);
            runtime::since_is_the_rest(start, calls);
        }
        if let Err(cause) = reply {
            if !(i < 2 && tolerable(&cause, "File exists")) {
                return Err(
                    SandboxError::Command {
                        what: "set up bridge".to_owned(),
                        argv: commands[i].duplicate(),
                        cause,
                    },
                );
            }
        }
    }
    Ok(())
}

/// Law: whatever happens, a Pod that was torn down has no process and no
/// address, and what identifies it stays.
pub proof fn torn_down_pods_hold_nothing(
    before: SandboxView,
    calls: Seq<CallView>,
    after: SandboxView,
)
    requires
        destroyed(before, calls, after),
    ensures
        after.pause_pid is None,
        after.pod_ip is None,
        after == (SandboxView {
            pause_pid: None,
            pod_ip: None,
            app_containers: after.app_containers,
            ..before
        }),
{
    let n = calls.len() - 3;
    let emptied = choose|emptied: SandboxView|
        {
            &&& #[trigger] runtime::chained(
                before.app_containers,
                removal(),
                before,
                calls.take(n),
                emptied,
            )
            &&& after == (SandboxView { pause_pid: None, pod_ip: None, ..emptied })
        };
    removals_keep_identity(before.app_containers, before, calls.take(n), emptied);
}

proof fn removals_keep_identity(
    names: Seq<Seq<char>>,
    before: SandboxView,
    calls: Seq<CallView>,
    after: SandboxView,
)
    requires
        runtime::chained(names, removal(), before, calls, after),
    ensures
        after == (SandboxView { app_containers: after.app_containers, ..before }),
    decreases names.len(),
{
    if names.len() > 0 {
        let (cut, middle) = choose|cut: int, middle: SandboxView|
            #[trigger] runtime::passes(cut, middle) && 0 <= cut <= calls.len() && runtime::chained(
                names.drop_last(),
                removal(),
                before,
                calls.take(cut),
                middle,
            ) && removal()(middle, names.last(), calls.skip(cut), after);
        removals_keep_identity(names.drop_last(), before, calls.take(cut), middle);
        let r = choose|r: Result<(), SandboxErrorView>|
            #[trigger] removed(middle, names.last(), calls.skip(cut), after, r);
        removal_keeps_identity(middle, names.last(), calls.skip(cut), after, r);
    }
}

proof fn removal_keeps_identity(
    before: SandboxView,
    name: Seq<char>,
    calls: Seq<CallView>,
    after: SandboxView,
    r: Result<(), SandboxErrorView>,
)
    requires
        removed(before, name, calls, after, r),
    ensures
        after == (SandboxView { app_containers: after.app_containers, ..before }),
        r is Ok ==> after.app_containers == without(before.app_containers, name),
        r is Err ==> after == before,
{
    if !calls[0].failed() {
        let (cut, wait) = choose|cut: int, wait: Result<(), SandboxErrorView>|
            #[trigger] waited_then_deleted(before, name, calls.skip(1), cut, wait, after, r);
        assert(waited_then_deleted(before, name, calls.skip(1), cut, wait, after, r));
    }
}

/// Law: removing a container, however that goes, leaves the Pod's name, pause
/// container, process and address as they are.
pub proof fn removals_leave_the_pod(
    before: SandboxView,
    name: Seq<char>,
    calls: Seq<CallView>,
    after: SandboxView,
    r: Result<(), SandboxErrorView>,
)
    requires
        removed(before, name, calls, after, r),
    ensures
        after.pod_name == before.pod_name,
        after.pause_id == before.pause_id,
        after.pause_pid == before.pause_pid,
        after.pod_ip == before.pod_ip,
{
    removal_keeps_identity(before, name, calls, after, r);
}

/// Law: a container that was removed is no longer counted, and no other one is
/// lost; one whose removal failed is still counted.
pub proof fn removal_drops_one_container(
    before: SandboxView,
    name: Seq<char>,
    calls: Seq<CallView>,
    after: SandboxView,
    r: Result<(), SandboxErrorView>,
    other: Seq<char>,
)
    requires
        removed(before, name, calls, after, r),
    ensures
        r is Ok ==> !after.app_containers.contains(name),
        other != name ==> (after.app_containers.contains(other)
            <==> before.app_containers.contains(other)),
        r is Err ==> after == before,
{
    removal_keeps_identity(before, name, calls, after, r);
    if r is Ok {
        let keep = other_than(name);
        let names = before.app_containers;
        if names.filter(keep).contains(name) {
            let i = choose|i: int|
                0 <= i < names.filter(keep).len() && names.filter(keep)[i] == name;
            names.lemma_filter_pred(keep, i);
        }
        if names.filter(keep).contains(other) {
            names.lemma_filter_contains_rev(keep, other);
        }
        if other != name && names.contains(other) {
            let i = choose|i: int| 0 <= i < names.len() && names[i] == other;
            names.lemma_filter_contains(keep, i);
        }
    }
}

/// Law: a container is never added before the Pod's namespaces exist, and
/// joins the ones that the pause container holds.
pub proof fn containers_join_the_pause(
    before: SandboxView,
    c: ContainerView,
    calls: Seq<CallView>,
    after: SandboxView,
    r: Result<(), SandboxErrorView>,
)
    requires
        added(before, c, calls, after, r),
    ensures
        before.pause_pid is None ==> calls.len() == 0 && r is Err,
        calls.len() > 0 ==> before.pause_pid is Some && calls[0].request() == (
        RequestView::WriteBundle {
            dir: before.bundle_dir(c.name),
            spec: bundle::bundle_of(c, before.rootfs_base, before.pause_pid),
        }),
{
}


/// Law: a Pod is created only after its pause container was written, created
/// and started and had its process looked up, in this order and without a
/// failure. That process and the asked-for address are noted, and nothing else
/// about the Pod changes.
pub proof fn created_pods_hold_their_pause(
    before: SandboxView,
    pod_ip: Option<Seq<char>>,
    calls: Seq<CallView>,
    after: SandboxView,
    r: Result<(), SandboxErrorView>,
)
    requires
        created(before, pod_ip, calls, after, r),
        r is Ok,
    ensures
        forall|i: int| 0 <= i < calls.len() ==> !(#[trigger] calls[i]).failed(),
        calls.len() > 4,
        match calls[0] {
            CallView::WriteBundle { dir, spec, .. } => dir == text::joined_path(
                text::joined_path(before.pods_dir, before.pod_name),
                "__pause"@,
            ) && spec.process.args == seq!["/bin/busybox"@, "sleep"@, "infinity"@]
                && spec.hostname == "__pause"@,
            _ => false,
        },
        calls[1].request() == (RequestView::Create {
            id: before.pause_id,
            bundle: text::joined_path(
                text::joined_path(before.pods_dir, before.pod_name),
                "__pause"@,
            ),
        }),
        calls[2].request() == (RequestView::Start { id: before.pause_id }),
        match calls[3] {
            CallView::Pid { id, reply: Ok(Some(pid)) } => id == before.pause_id && after.pause_pid
                == Some(pid),
            _ => false,
        },
        after.pod_ip == pod_ip,
        after.pod_name == before.pod_name,
        after.pause_id == before.pause_id,
        after.app_containers == before.app_containers,
        after.pods_dir == before.pods_dir,
        after.rootfs_base == before.rootfs_base,
{
    let early = calls.take(4);
    let rest = calls.skip(4);
    assert(early.len() == 4);
    assert forall|i: int| 0 <= i < calls.len() implies !(#[trigger] calls[i]).failed() by {
        if i < 3 {
            assert(early[i] == calls[i]);
        } else if i > 3 {
            assert(rest[i - 4] == calls[i]);
        }
    }
    assert(early[0].request() == pause_plan(before)[0]);
    assert(early[1].request() == pause_plan(before)[1]);
    assert(early[2].request() == pause_plan(before)[2]);
    assert(early[3].request() == pause_plan(before)[3]);
}

/// Law: a Pod without an address gets its loopback interface and nothing else.
/// One with an address gets a cable: its two ends are named by the Pod, the
/// host's end is plugged into the bridge and brought up, the other end moves
/// into the Pod's namespace, becomes `eth0` there, gets the address, is brought
/// up with the loopback interface, and the bridge becomes the way out.
pub proof fn created_pods_are_plugged_in(
    before: SandboxView,
    pod_ip: Option<Seq<char>>,
    calls: Seq<CallView>,
    after: SandboxView,
    r: Result<(), SandboxErrorView>,
)
    requires
        created(before, pod_ip, calls, after, r),
        r is Ok,
    ensures
        after.pause_pid is Some,
        ({
            let pid = text::decimal_chars(after.pause_pid->0 as nat);
            let lo = RequestView::Run {
                argv: seq![
                    "nsenter"@, "-t"@, pid, "-n"@, "ip"@, "link"@, "set"@, "lo"@, "up"@,
                ],
            };
            match pod_ip {
                None => calls.len() == 5 && calls[4].request() == lo,
                Some(ip) => {
                    let host = veth_chars('v', before.pod_name);
                    let peer = veth_chars('p', before.pod_name);
                    &&& calls.len() == 13
                    &&& calls[4].request() == (RequestView::Run {
                        argv: seq![
                            "ip"@, "link"@, "add"@, host, "type"@, "veth"@, "peer"@, "name"@, peer,
                        ],
                    })
                    &&& calls[5].request() == (RequestView::Run {
                        argv: seq!["ip"@, "link"@, "set"@, host, "master"@, "mykube0"@],
                    })
                    &&& calls[6].request() == (RequestView::Run {
                        argv: seq!["ip"@, "link"@, "set"@, host, "up"@],
                    })
                    &&& calls[7].request() == (RequestView::Run {
                        argv: seq!["ip"@, "link"@, "set"@, peer, "netns"@, pid],
                    })
                    &&& calls[8].request() == (RequestView::Run {
                        argv: seq![
                            "nsenter"@, "-t"@, pid, "-n"@, "ip"@, "link"@, "set"@, peer, "name"@,
                            "eth0"@,
                        ],
                    })
                    &&& calls[9].request() == (RequestView::Run {
                        argv: seq![
                            "nsenter"@, "-t"@, pid, "-n"@, "ip"@, "addr"@, "add"@, ip + "/16"@,
                            "dev"@, "eth0"@,
                        ],
                    })
                    &&& calls[10].request() == (RequestView::Run {
                        argv: seq![
                            "nsenter"@, "-t"@, pid, "-n"@, "ip"@, "link"@, "set"@, "eth0"@, "up"@,
                        ],
                    })
                    &&& calls[11].request() == lo
                    &&& calls[12].request() == (RequestView::Run {
                        argv: seq![
                            "nsenter"@, "-t"@, pid, "-n"@, "ip"@, "route"@, "add"@, "default"@,
                            "via"@, "10.244.0.1"@,
                        ],
                    })
                },
            }
        }),
{
    created_pods_hold_their_pause(before, pod_ip, calls, after, r);
    let pid = after.pause_pid->0;
    let commands = network_commands(before.pod_name, pid, pod_ip);
    let rest = calls.skip(4);
    assert forall|i: int| 4 <= i < calls.len() implies (#[trigger] calls[i]).request() == (
    RequestView::Run { argv: commands[i - 4] }) by {
        assert(rest[i - 4] == calls[i]);
        assert(runs(commands)[i - 4] == (RequestView::Run { argv: commands[i - 4] }));
    }
    let p = text::decimal_chars(pid as nat);
    assert(inside(pid, seq!["ip"@, "link"@, "set"@, "lo"@, "up"@]) =~= seq![
        "nsenter"@, "-t"@, p, "-n"@, "ip"@, "link"@, "set"@, "lo"@, "up"@,
    ]);
    if let Some(ip) = pod_ip {
        let peer = veth_chars('p', before.pod_name);
        assert(inside(pid, seq!["ip"@, "link"@, "set"@, peer, "name"@, "eth0"@]) =~= seq![
            "nsenter"@, "-t"@, p, "-n"@, "ip"@, "link"@, "set"@, peer, "name"@, "eth0"@,
        ]);
        assert(inside(pid, seq!["ip"@, "addr"@, "add"@, ip + "/16"@, "dev"@, "eth0"@]) =~= seq![
            "nsenter"@, "-t"@, p, "-n"@, "ip"@, "addr"@, "add"@, ip + "/16"@, "dev"@, "eth0"@,
        ]);
        assert(inside(pid, seq!["ip"@, "link"@, "set"@, "eth0"@, "up"@]) =~= seq![
            "nsenter"@, "-t"@, p, "-n"@, "ip"@, "link"@, "set"@, "eth0"@, "up"@,
        ]);
        assert(inside(pid, seq!["ip"@, "route"@, "add"@, "default"@, "via"@, BRIDGE_GATEWAY@])
            =~= seq![
            "nsenter"@, "-t"@, p, "-n"@, "ip"@, "route"@, "add"@, "default"@, "via"@,
            "10.244.0.1"@,
        ]);
    }
}

/// Law: creating a Pod stops at the first refusal. Only the last call can have
/// failed; the error tells its cause; and a Pod whose pause container has no
/// process is not plugged in.
pub proof fn creating_stops_at_a_refusal(
    before: SandboxView,
    pod_ip: Option<Seq<char>>,
    calls: Seq<CallView>,
    after: SandboxView,
    r: Result<(), SandboxErrorView>,
)
    requires
        created(before, pod_ip, calls, after, r),
    ensures
        forall|i: int| 0 <= i < calls.len() - 1 ==> !(#[trigger] calls[i]).failed(),
        calls.len() > 0,
        calls.last().failed() ==> r is Err,
        !calls.last().failed() && r is Err ==> calls.len() == 4
            && r->Err_0 is NoPausePid,
        (match calls.last() {
            CallView::WriteBundle { reply: Some(reason), .. } => match r {
                Err(SandboxErrorView::Bundle { what, reason: told }) => told == reason,
                _ => false,
            },
            CallView::Create { reply: Some(cause), .. } => match r {
                Err(SandboxErrorView::Runtime { what, cause: told }) => told == cause,
                _ => false,
            },
            CallView::Start { reply: Some(cause), .. } => match r {
                Err(SandboxErrorView::Runtime { what, cause: told }) => told == cause,
                _ => false,
            },
            CallView::Pid { reply: Err(cause), .. } => match r {
                Err(SandboxErrorView::Runtime { what, cause: told }) => told == cause,
                _ => false,
            },
            CallView::Run { argv, reply: Some(cause) } => match r {
                Err(SandboxErrorView::Command { what, argv: run, cause: told }) => told == cause
                    && run == argv,
                _ => false,
            },
            _ => true,
        }),
        calls.len() <= 4 && r is Err ==> after == before,
        calls.len() > 4 ==> after.pause_pid is Some && after.pod_ip == pod_ip,
{
    if calls.len() >= 4 && !calls[3].failed() {
        let early = calls.take(4);
        let rest = calls.skip(4);
        assert forall|i: int| 0 <= i < calls.len() - 1 implies !(#[trigger] calls[i]).failed() by {
            if i < 3 {
                assert(early[i] == calls[i]);
            } else if i > 3 {
                assert(rest[i - 4] == calls[i]);
            }
        }
        if calls.len() > 4 {
            assert(rest.last() == calls.last());
            assert(rest[rest.len() - 1] == calls.last());
        }
    }
}

/// Law: a container that was added had its bundle written, was created from it
/// and was started, in this order and without a failure, under the Pod's name
/// and its own. The Pod counts it last. Otherwise the last call failed and the
/// Pod is as it was.
pub proof fn added_containers_run(
    before: SandboxView,
    c: ContainerView,
    calls: Seq<CallView>,
    after: SandboxView,
    r: Result<(), SandboxErrorView>,
)
    requires
        added(before, c, calls, after, r),
        before.pause_pid is Some,
    ensures
        forall|i: int| 0 <= i < calls.len() - 1 ==> !(#[trigger] calls[i]).failed(),
        0 < calls.len() <= 3,
        r is Ok <==> calls.len() == 3 && !calls[2].failed(),
        r is Err ==> calls.last().failed() && after == before,
        calls.len() >= 1 ==> (match calls[0] {
            CallView::WriteBundle { dir, spec, .. } => dir == text::joined_path(
                text::joined_path(before.pods_dir, before.pod_name),
                c.name,
            ) && spec.process.args == c.command && spec.hostname == c.name,
            _ => false,
        }),
        calls.len() >= 2 ==> calls[1].request() == (RequestView::Create {
            id: before.pod_name + "__"@ + c.name,
            bundle: text::joined_path(
                text::joined_path(before.pods_dir, before.pod_name),
                c.name,
            ),
        }),
        calls.len() >= 3 ==> calls[2].request() == (RequestView::Start {
            id: before.pod_name + "__"@ + c.name,
        }),
        r is Ok ==> after.app_containers == before.app_containers.push(c.name),
        after.pause_pid == before.pause_pid,
        after.pod_ip == before.pod_ip,
        after.pod_name == before.pod_name,
        after.pause_id == before.pause_id,
        after.pods_dir == before.pods_dir,
        after.rootfs_base == before.rootfs_base,
{
    let plan = container_plan(before, c, before.pause_pid->0);
    assert(plan.len() == 3);
}

/// Law: waiting for a container to exit only looks at the clock and at that
/// container and sleeps a tenth of a second in between, and it ends after as
/// many looks as it was given.
pub proof fn waiting_ends(
    id: Seq<char>,
    deadline: u64,
    polls_left: nat,
    calls: Seq<CallView>,
    r: Result<(), SandboxErrorView>,
)
    requires
        waited(id, deadline, polls_left, calls, r),
    ensures
        0 < calls.len() <= 3 * polls_left + 1,
        forall|i: int|
            0 <= i < calls.len() ==> match #[trigger] calls[i] {
                CallView::Clock { millis } => millis >= deadline ==> i == calls.len() - 1,
                CallView::State { id: asked, reply } => asked == id && (match reply {
                    Ok(state) => (state is Stopped || state is NotFound) <==> i == calls.len() - 1,
                    Err(_) => i == calls.len() - 1,
                }),
                CallView::Sleep { millis } => millis == 100 && i < calls.len() - 1,
                _ => false,
            },
        r is Err <==> (match calls.last() {
            CallView::State { reply, .. } => reply is Err,
            _ => false,
        }),
    decreases polls_left,
{
    if calls.len() > 2 {
        let rest = calls.skip(3);
        waiting_ends(id, deadline, (polls_left - 1) as nat, rest, r);
        assert(rest.last() == calls.last());
        assert forall|i: int| 0 <= i < calls.len() implies match #[trigger] calls[i] {
            CallView::Clock { millis } => millis >= deadline ==> i == calls.len() - 1,
            CallView::State { id: asked, reply } => asked == id && (match reply {
                Ok(state) => (state is Stopped || state is NotFound) <==> i == calls.len() - 1,
                Err(_) => i == calls.len() - 1,
            }),
            CallView::Sleep { millis } => millis == 100 && i < calls.len() - 1,
            _ => false,
        } by {
            if i >= 3 {
                assert(rest[i - 3] == calls[i]);
            }
        }
    }
}

/// Law: a container is asked to exit before anything else, under the Pod's name
/// and its own. It is deleted by force and its bundle goes; what is asked after
/// it was told to exit takes at most fifty looks.
pub proof fn removed_containers_are_killed_first(
    before: SandboxView,
    name: Seq<char>,
    calls: Seq<CallView>,
    after: SandboxView,
    r: Result<(), SandboxErrorView>,
)
    requires
        removed(before, name, calls, after, r),
    ensures
        0 < calls.len() <= 155,
        calls[0].request() == (RequestView::Kill {
            id: before.pod_name + "__"@ + name,
            signal: 15,
        }),
        calls[0].failed() ==> calls.len() <= 3,
        r is Ok ==> calls.len() >= 3 && calls[calls.len() - 2].request() == (
        RequestView::Delete { id: before.pod_name + "__"@ + name, force: true })
            && calls.last() == (CallView::RemoveDir {
            dir: text::joined_path(text::joined_path(before.pods_dir, before.pod_name), name),
        }),
        r is Err ==> calls.last().failed(),
        forall|i: int|
            0 <= i < calls.len() ==> match #[trigger] calls[i] {
                CallView::Kill { .. } => i == 0,
                CallView::Delete { id, force, reply } => id == before.pod_name + "__"@ + name
                    && force && (r is Ok <==> reply is None || reply->0 is NotFound),
                CallView::Clock { .. } => !calls[0].failed(),
                CallView::State { id, .. } => id == before.pod_name + "__"@ + name,
                CallView::Sleep { millis } => millis == 100,
                CallView::RemoveDir { .. } => r is Ok,
                _ => false,
            },
{
    let tail = calls.skip(1);
    if calls[0].failed() {
        assert(calls[1] == tail[0]);
        assert(calls.last() == tail.last());
        assert forall|i: int| 1 <= i < calls.len() implies #[trigger] calls[i] == tail[i - 1] by {}
    } else {
        let (cut, wait) = choose|cut: int, wait: Result<(), SandboxErrorView>|
            #[trigger] waited_then_deleted(before, name, tail, cut, wait, after, r);
        assert(waited_then_deleted(before, name, tail, cut, wait, after, r));
        let looks = tail.subrange(1, cut);
        let deadline = match tail[0] {
            CallView::Clock { millis } => deadline_after(millis),
            _ => 0u64,
        };
        waiting_ends(before.container_id(name), deadline, MOST_POLLS as nat, looks, wait);
        assert(tail[0] == calls[1]);
        assert forall|i: int| 2 <= i < cut + 1 implies #[trigger] calls[i] == looks[i - 2] by {}
        let rest = tail.skip(cut);
        assert forall|i: int| cut + 1 <= i < calls.len() implies #[trigger] calls[i] == rest[i - cut
            - 1] by {}
        if wait is Ok {
            assert(rest.last() == calls.last());
            assert(calls[cut + 1] == rest[0]);
        } else {
            assert(looks.last() == calls.last());
        }
    }
}

/// Whether calls ask for something.
pub open spec fn asks(calls: Seq<CallView>, request: RequestView) -> bool {
    exists|i: int| 0 <= i < calls.len() && (#[trigger] calls[i]).request() == request
}

proof fn each_removal_kills(
    names: Seq<Seq<char>>,
    before: SandboxView,
    calls: Seq<CallView>,
    after: SandboxView,
    name: Seq<char>,
)
    requires
        runtime::chained(names, removal(), before, calls, after),
        names.contains(name),
    ensures
        asks(calls, RequestView::Kill { id: before.pod_name + "__"@ + name, signal: 15 }),
    decreases names.len(),
{
    let (cut, middle) = choose|cut: int, middle: SandboxView|
        #[trigger] runtime::passes(cut, middle) && 0 <= cut <= calls.len() && runtime::chained(
            names.drop_last(),
            removal(),
            before,
            calls.take(cut),
            middle,
        ) && removal()(middle, names.last(), calls.skip(cut), after);
    removals_keep_identity(names.drop_last(), before, calls.take(cut), middle);
    let request = RequestView::Kill { id: before.pod_name + "__"@ + name, signal: 15 };
    if name == names.last() {
        let r = choose|r: Result<(), SandboxErrorView>|
            #[trigger] removed(middle, names.last(), calls.skip(cut), after, r);
        removed_containers_are_killed_first(middle, name, calls.skip(cut), after, r);
        assert(calls.skip(cut)[0] == calls[cut]);
        assert(calls[cut].request() == request);
    } else {
        let at = choose|at: int| 0 <= at < names.len() && names[at] == name;
        assert(names.drop_last()[at] == name);
        each_removal_kills(names.drop_last(), before, calls.take(cut), middle, name);
        let i = choose|i: int|
            0 <= i < cut && (#[trigger] calls.take(cut)[i]).request() == request;
        assert(calls[i].request() == request);
    }
}

/// Law: tearing down a Pod asks each of its containers to exit. Last of all the
/// pause container is deleted by force, the Pod's directory goes, and then the
/// host's end of its cable.
pub proof fn tearing_down_reaches_every_container(
    before: SandboxView,
    calls: Seq<CallView>,
    after: SandboxView,
    name: Seq<char>,
)
    requires
        destroyed(before, calls, after),
    ensures
        before.app_containers.contains(name) ==> asks(
            calls,
            RequestView::Kill { id: before.pod_name + "__"@ + name, signal: 15 },
        ),
        calls.len() >= 3 + before.app_containers.len(),
        calls[calls.len() - 3].request() == (RequestView::Delete {
            id: before.pause_id,
            force: true,
        }),
        calls[calls.len() - 2].request() == (RequestView::RemoveDir {
            dir: text::joined_path(before.pods_dir, before.pod_name),
        }),
        calls[calls.len() - 1].request() == (RequestView::Run {
            argv: seq!["ip"@, "link"@, "del"@, veth_chars('v', before.pod_name)],
        }),
{
    let n = calls.len() - 3;
    assert(calls[n + 0].request() == last_rites(before)[0]);
    assert(calls[n + 1].request() == last_rites(before)[1]);
    assert(calls[n + 2].request() == last_rites(before)[2]);
    let emptied = choose|emptied: SandboxView|
        {
            &&& #[trigger] runtime::chained(
                before.app_containers,
                removal(),
                before,
                calls.take(n),
                emptied,
            )
            &&& after == (SandboxView { pause_pid: None, pod_ip: None, ..emptied })
        };
    each_removal_asks_something(before.app_containers, before, calls.take(n), emptied);
    if before.app_containers.contains(name) {
        each_removal_kills(before.app_containers, before, calls.take(n), emptied, name);
        let request = RequestView::Kill { id: before.pod_name + "__"@ + name, signal: 15 };
        let i = choose|i: int| 0 <= i < n && (#[trigger] calls.take(n)[i]).request() == request;
        assert(calls[i].request() == request);
    }
}

proof fn each_removal_asks_something(
    names: Seq<Seq<char>>,
    before: SandboxView,
    calls: Seq<CallView>,
    after: SandboxView,
)
    requires
        runtime::chained(names, removal(), before, calls, after),
    ensures
        calls.len() >= names.len(),
    decreases names.len(),
{
    if names.len() > 0 {
        let (cut, middle) = choose|cut: int, middle: SandboxView|
            #[trigger] runtime::passes(cut, middle) && 0 <= cut <= calls.len() && runtime::chained(
                names.drop_last(),
                removal(),
                before,
                calls.take(cut),
                middle,
            ) && removal()(middle, names.last(), calls.skip(cut), after);
        each_removal_asks_something(names.drop_last(), before, calls.take(cut), middle);
        let r = choose|r: Result<(), SandboxErrorView>|
            #[trigger] removed(middle, names.last(), calls.skip(cut), after, r);
        assert(calls.skip(cut).len() > 0);
    }
}


/// Law: setting up the bridge makes it, gives it its address, brings it up and
/// lets packets through, in this order. That it is there already, or has its
/// address already, is no failure; any other failure ends the setup, and is what
/// is returned.
pub proof fn bridges_are_set_up_once(calls: Seq<CallView>, r: Result<(), SandboxErrorView>, i: int)
    requires
        bridged(calls, r),
        0 <= i < calls.len(),
    ensures
        r is Ok ==> calls.len() == 4,
        calls.len() <= 4,
        match calls[i] {
            CallView::Run { argv, reply } => {
                &&& i == 0 ==> argv == seq!["ip"@, "link"@, "add"@, "mykube0"@, "type"@, "bridge"@]
                &&& i == 1 ==> argv == seq![
                    "ip"@, "addr"@, "add"@, "10.244.0.1/16"@, "dev"@, "mykube0"@,
                ]
                &&& i == 2 ==> argv == seq!["ip"@, "link"@, "set"@, "mykube0"@, "up"@]
                &&& i == 3 ==> argv == seq!["sysctl"@, "-w"@, "net.ipv4.ip_forward=1"@]
                &&& reply is None && i == calls.len() - 1 ==> r is Ok
                &&& match reply {
                    Some(CommandErrorView::Failed { status, stderr }) => i < 2 && text::holds(
                        stderr,
                        "File exists"@,
                    ) || i == calls.len() - 1 && r is Err,
                    Some(cause) => i == calls.len() - 1 && (match r {
                        Err(SandboxErrorView::Command { argv: run, cause: told, .. }) => run == argv
                            && told == cause,
                        _ => false,
                    }),
                    None => true,
                }
            },
            _ => false,
        },
{
    assert(calls[i].request() == runs(bridge_commands())[i]);
    assert(runs(bridge_commands())[i] == (RequestView::Run { argv: bridge_commands()[i] }));
    if i < calls.len() - 1 {
        assert(!bridge_refused(i, calls[i]));
    }
}


/// Law: the two ends of a Pod's cable are named by the hash of the Pod's name:
/// two Pods share a name for an end only where their hashes agree in the fifty-six
/// bits that are shown.
pub proof fn interface_names_go_by_hash(
    a: &str,
    b: &str,
    host_a: String,
    host_b: String,
    peer_a: String,
    i: int,
)
    requires
        call_ensures(host_veth_name, (a,), host_a),
        call_ensures(host_veth_name, (b,), host_b),
        call_ensures(peer_veth_name, (a,), peer_a),
        0 <= i < 14,
    ensures
        host_a@.len() == 15 && host_a@[0] == 'v',
        peer_a@.len() == 15 && peer_a@[0] == 'p',
        host_a@[1 + i] == peer_a@[1 + i],
        host_a@ == host_b@ ==> digest::hash_of(a@) as int % vstd::arithmetic::power::pow(16, 14)
            == digest::hash_of(b@) as int % vstd::arithmetic::power::pow(16, 14),
{
    let x = text::hex_chars(digest::hash_of(a@) as nat, 14, false);
    let y = text::hex_chars(digest::hash_of(b@) as nat, 14, false);
    interface_names_fit('v', a@, 'p', a@);
    interface_names_fit('p', a@, 'v', a@);
    assert(host_a@[1 + i] == x[i] && peer_a@[1 + i] == x[i]);
    if host_a@ == host_b@ {
        assert(x =~= host_a@.skip(1));
        assert(y =~= host_b@.skip(1));
        text::hex_tells_numbers_apart(
            digest::hash_of(a@) as nat,
            digest::hash_of(b@) as nat,
            14,
            false,
        );
    }
}

/// Law: a container that could be asked to exit has five seconds to do so. It is
/// looked at again as long as less time has passed and it is still there; the
/// waiting ends when it is gone, when the five seconds are over, after fifty
/// looks, or with the error of a look.
pub proof fn containers_get_five_seconds(
    before: SandboxView,
    name: Seq<char>,
    calls: Seq<CallView>,
    after: SandboxView,
    r: Result<(), SandboxErrorView>,
    i: int,
)
    requires
        removed(before, name, calls, after, r),
        !calls[0].failed(),
        2 <= i < calls.len(),
    ensures
        calls[1] is Clock,
        match calls[i] {
            CallView::Clock { millis } => calls[1]->Clock_millis + 5000 <= u64::MAX && i
                < calls.len() - 2 && !(calls[i + 1] is Delete) ==> millis < calls[1]->Clock_millis
                + 5000,
            CallView::Delete { .. } => match calls[i - 1] {
                CallView::Clock { millis } => millis >= calls[1]->Clock_millis + 5000 || i >= 153
                    || calls[1]->Clock_millis + 5000 > u64::MAX,
                CallView::State { reply, .. } => reply == Ok::<ContainerState, RuntimeErrorView>(
                    ContainerState::Stopped,
                ) || reply == Ok::<ContainerState, RuntimeErrorView>(ContainerState::NotFound),
                _ => false,
            },
            _ => true,
        },
{
    let tail = calls.skip(1);
    let (cut, wait) = choose|cut: int, wait: Result<(), SandboxErrorView>|
        #[trigger] waited_then_deleted(before, name, tail, cut, wait, after, r);
    assert(waited_then_deleted(before, name, tail, cut, wait, after, r));
    assert(tail[0] == calls[1]);
    let looks = tail.subrange(1, cut);
    let deadline = deadline_after(calls[1]->Clock_millis);
    let id = before.container_id(name);
    waiting_ends(id, deadline, MOST_POLLS as nat, looks, wait);
    waiting_takes_its_time(id, deadline, MOST_POLLS as nat, looks, wait);
    assert forall|k: int| 2 <= k < cut + 1 implies #[trigger] calls[k] == looks[k - 2] by {}
    let rest = tail.skip(cut);
    assert forall|k: int| cut + 1 <= k < calls.len() implies #[trigger] calls[k] == rest[k - cut
        - 1] by {}
    if i == cut + 1 {
        assert(calls[i - 1] == looks[looks.len() - 1]);
    }
    if i < cut {
        assert(calls[i] == looks[i - 2]);
    }
}

/// Waiting that ends at the clock ends because the time is up or all looks are
/// used.
proof fn waiting_takes_its_time(
    id: Seq<char>,
    deadline: u64,
    polls_left: nat,
    calls: Seq<CallView>,
    r: Result<(), SandboxErrorView>,
)
    requires
        waited(id, deadline, polls_left, calls, r),
    ensures
        match calls.last() {
            CallView::Clock { millis } => millis >= deadline || calls.len() == 3 * polls_left + 1,
            _ => true,
        },
    decreases polls_left,
{
    if calls.len() > 2 {
        let rest = calls.skip(3);
        waiting_takes_its_time(id, deadline, (polls_left - 1) as nat, rest, r);
        assert(rest.last() == calls.last());
    }
}

} // verus!
