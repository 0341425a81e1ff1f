//! The container bundle: what a container's process, root, mounts and namespaces
//! are set to before the runtime gets it.

use vstd::prelude::*;

use crate::duplicate::Duplicate;
use crate::pod::{Container, ContainerView};
use crate::text;

verus! {

/// The kinds of namespaces that a container has.
#[derive(Debug, Clone, Copy, PartialEq, Eq, Structural)]
pub enum NamespaceKind {
    Pid,
    Mount,
    Network,
    Ipc,
    Uts,
}

/// A container's process.
#[derive(Debug, Clone, PartialEq)]
pub struct ProcessSpec {
    pub terminal: bool,
    pub uid: u32,
    pub gid: u32,
    pub args: Vec<String>,
    pub env: Vec<String>,
    pub cwd: String,
    pub no_new_privileges: bool,
}

/// What a `ProcessSpec` holds.
#[verifier::ext_equal]
pub struct ProcessSpecView {
    pub terminal: bool,
    pub uid: u32,
    pub gid: u32,
    pub args: Seq<Seq<char>>,
    pub env: Seq<Seq<char>>,
    pub cwd: Seq<char>,
    pub no_new_privileges: bool,
}

impl DeepView for ProcessSpec {
    type V = ProcessSpecView;

    open spec fn deep_view(&self) -> ProcessSpecView {
        ProcessSpecView {
            terminal: self.terminal,
            uid: self.uid,
            gid: self.gid,
            args: self.args.deep_view(),
            env: self.env.deep_view(),
            cwd: self.cwd@,
            no_new_privileges: self.no_new_privileges,
        }
    }
}

/// A container's root file system.
#[derive(Debug, Clone, PartialEq)]
pub struct RootSpec {
    pub path: String,
    pub readonly: bool,
}

/// What a `RootSpec` holds.
#[verifier::ext_equal]
pub struct RootSpecView {
    pub path: Seq<char>,
    pub readonly: bool,
}

impl DeepView for RootSpec {
    type V = RootSpecView;

    open spec fn deep_view(&self) -> RootSpecView {
        RootSpecView {
            path: self.path@,
            readonly: self.readonly,
        }
    }
}

/// A mount inside a container.
#[derive(Debug, Clone, PartialEq)]
pub struct MountSpec {
    pub destination: String,
    pub typ: String,
    pub source: String,
    pub options: Option<Vec<String>>,
}

/// What a `MountSpec` holds.
#[verifier::ext_equal]
pub struct MountSpecView {
    pub destination: Seq<char>,
    pub typ: Seq<char>,
    pub source: Seq<char>,
    pub options: Option<Seq<Seq<char>>>,
}

impl DeepView for MountSpec {
    type V = MountSpecView;

    open spec fn deep_view(&self) -> MountSpecView {
        MountSpecView {
            destination: self.destination@,
            typ: self.typ@,
            source: self.source@,
            options: self.options.deep_view(),
        }
    }
}

/// A namespace of a container.
#[derive(Debug, Clone, PartialEq)]
pub struct NamespaceSpec {
    pub kind: NamespaceKind,
    /// Where the namespace is joined; a new one is made where there is none.
    pub path: Option<String>,
}

/// What a `NamespaceSpec` holds.
#[verifier::ext_equal]
pub struct NamespaceSpecView {
    pub kind: NamespaceKind,
    pub path: Option<Seq<char>>,
}

impl DeepView for NamespaceSpec {
    type V = NamespaceSpecView;

    open spec fn deep_view(&self) -> NamespaceSpecView {
        NamespaceSpecView {
            kind: self.kind,
            path: self.path.deep_view(),
        }
    }
}

/// All that a container's bundle says.
#[derive(Debug, Clone, PartialEq)]
pub struct BundleSpec {
    pub version: String,
    pub process: ProcessSpec,
    pub root: RootSpec,
    pub hostname: String,
    pub mounts: Vec<MountSpec>,
    pub namespaces: Vec<NamespaceSpec>,
}

/// What a `BundleSpec` holds.
#[verifier::ext_equal]
pub struct BundleSpecView {
    pub version: Seq<char>,
    pub process: ProcessSpecView,
    pub root: RootSpecView,
    pub hostname: Seq<char>,
    pub mounts: Seq<MountSpecView>,
    pub namespaces: Seq<NamespaceSpecView>,
}

impl DeepView for BundleSpec {
    type V = BundleSpecView;

    open spec fn deep_view(&self) -> BundleSpecView {
        BundleSpecView {
            version: self.version@,
            process: self.process.deep_view(),
            root: self.root.deep_view(),
            hostname: self.hostname@,
            mounts: self.mounts.deep_view(),
            namespaces: self.namespaces.deep_view(),
        }
    }
}

pub open spec fn process_of(c: ContainerView) -> ProcessSpecView {
    ProcessSpecView {
        terminal: false,
        uid: 0,
        gid: 0,
        args: c.command,
        env: seq!["PATH=/bin"@, "HOME=/"@],
        cwd: "/"@,
        no_new_privileges: true,
    }
}

/// What every container has mounted.
pub open spec fn standard_mounts() -> Seq<MountSpecView> {
    seq![
        MountSpecView { destination: "/proc"@, typ: "proc"@, source: "proc"@, options: None },
        MountSpecView {
            destination: "/dev"@,
            typ: "tmpfs"@,
            source: "tmpfs"@,
            options: Some(seq!["nosuid"@, "strictatime"@, "mode=755"@, "size=65536k"@]),
        },
        MountSpecView {
            destination: "/sys"@,
            typ: "sysfs"@,
            source: "sysfs"@,
            options: Some(seq!["nosuid"@, "noexec"@, "nodev"@, "ro"@]),
        },
        MountSpecView {
            destination: "/tmp"@,
            typ: "tmpfs"@,
            source: "tmpfs"@,
            options: Some(seq!["nosuid"@, "nodev"@, "mode=1777"@, "size=16m"@]),
        },
    ]
}

/// Where a process's namespace of some kind can be joined.
pub open spec fn namespace_path(pid: u32, name: Seq<char>) -> Seq<char> {
    "/proc/"@ + text::decimal_chars(pid as nat) + "/ns/"@ + name
}

/// The shared namespace of a kind: the one of a process, or a new one.
pub open spec fn shared_namespace(
    kind: NamespaceKind,
    name: Seq<char>,
    pid: Option<u32>,
) -> NamespaceSpecView {
    NamespaceSpecView {
        kind,
        path: match pid {
            Some(pid) => Some(namespace_path(pid, name)),
            None => None,
        },
    }
}

/// Processes and mounts are each container's own. Network, inter-process
/// communication and host name are the Pod's: those of the process that holds
/// them, or new ones for that process itself.
pub open spec fn namespaces_of(pid: Option<u32>) -> Seq<NamespaceSpecView> {
    seq![
        NamespaceSpecView { kind: NamespaceKind::Pid, path: None },
        NamespaceSpecView { kind: NamespaceKind::Mount, path: None },
        shared_namespace(NamespaceKind::Network, "net"@, pid),
        shared_namespace(NamespaceKind::Ipc, "ipc"@, pid),
        shared_namespace(NamespaceKind::Uts, "uts"@, pid),
    ]
}

/// The bundle of a container.
pub open spec fn bundle_of(
    c: ContainerView,
    rootfs_base: Seq<char>,
    pid: Option<u32>,
) -> BundleSpecView {
    BundleSpecView {
        version: "1.0.2"@,
        process: process_of(c),
        root: RootSpecView { path: rootfs_base, readonly: true },
        hostname: c.name,
        mounts: standard_mounts(),
        namespaces: namespaces_of(pid),
    }
}

fn mount(
    destination: &str,
    typ: &str,
    source: &str,
    options: Option<Vec<String>>,
) -> (m: MountSpec)
    ensures
        m.deep_view() == (MountSpecView {
            destination: destination@,
            typ: typ@,
            source: source@,
            options: options.deep_view(),
        }),
{
    MountSpec {
        destination: destination.to_owned(),
        typ: typ.to_owned(),
        source: source.to_owned(),
        options,
    }
}

fn build_mounts() -> (mounts: Vec<MountSpec>)
    ensures
        mounts.deep_view() == standard_mounts(),
{
    let dev = text::words(vec!["nosuid", "strictatime", "mode=755", "size=65536k"]);
    let sys = text::words(vec!["nosuid", "noexec", "nodev", "ro"]);
    let tmp = text::words(vec!["nosuid", "nodev", "mode=1777", "size=16m"]);
    let ghost planned = standard_mounts();
    proof {
        assert(dev.deep_view() =~= planned[1].options->0);
        assert(sys.deep_view() =~= planned[2].options->0);
        assert(tmp.deep_view() =~= planned[3].options->0);
    }
    let mut mounts: Vec<MountSpec> = Vec::new();
    mounts.push(mount("/proc", "proc", "proc", None));
    mounts.push(mount("/dev", "tmpfs", "tmpfs", Some(dev)));
    mounts.push(mount("/sys", "sysfs", "sysfs", Some(sys)));
    mounts.push(mount("/tmp", "tmpfs", "tmpfs", Some(tmp)));
    assert(mounts.deep_view() =~= planned);
    mounts
}

fn build_shared(kind: NamespaceKind, name: &str, pid: Option<u32>) -> (ns: NamespaceSpec)
    ensures
        ns.deep_view() == shared_namespace(kind, name@, pid),
{
    let path = match pid {
        Some(pid) => {
            let mut path = "/proc/".to_owned();
            text::push_decimal(&mut path, pid as u64);
            path.append("/ns/");
            path.append(name);
            Some(path)
        },
        None => None,
    };
    NamespaceSpec { kind, path }
}

fn build_namespaces(share_namespaces_from_pid: Option<u32>) -> (list: Vec<NamespaceSpec>)
    ensures
        list.deep_view() == namespaces_of(share_namespaces_from_pid),
{
    let pid = share_namespaces_from_pid;
    let mut list: Vec<NamespaceSpec> = Vec::new();
    list.push(NamespaceSpec { kind: NamespaceKind::Pid, path: None });
    list.push(NamespaceSpec { kind: NamespaceKind::Mount, path: None });
    list.push(build_shared(NamespaceKind::Network, "net", pid));
    list.push(build_shared(NamespaceKind::Ipc, "ipc", pid));
    list.push(build_shared(NamespaceKind::Uts, "uts", pid));
    assert(list.deep_view() =~= namespaces_of(pid));
    list
}

/// Builds the bundle of a container. With a process given, the container joins
/// that process's network, inter-process communication and host name;
/// otherwise it gets its own.
pub fn build_spec(
    container: &Container,
    rootfs_base: &str,
    share_namespaces_from_pid: Option<u32>,
) -> (spec: BundleSpec)
    ensures
        spec.deep_view() == bundle_of(
            container.deep_view(),
            rootfs_base@,
            share_namespaces_from_pid,
        ),
{
    let env = text::words(vec!["PATH=/bin", "HOME=/"]);
    assert(env.deep_view() =~= seq!["PATH=/bin"@, "HOME=/"@]);
    BundleSpec {
        version: "1.0.2".to_owned(),
        process: ProcessSpec {
            terminal: false,
            uid: 0,
            gid: 0,
            args: container.command.duplicate(),
            env,
            cwd: "/".to_owned(),
            no_new_privileges: true,
        },
        root: RootSpec { path: rootfs_base.to_owned(), readonly: true },
        hostname: container.name.clone(),
        mounts: build_mounts(),
        namespaces: build_namespaces(share_namespaces_from_pid),
    }
}

/// Law: containers of one Pod meet in the namespaces of the process that holds
/// them, and share no others.
pub proof fn pod_containers_share_namespaces(
    a: ContainerView,
    b: ContainerView,
    rootfs_base: Seq<char>,
    pid: u32,
    i: int,
)
    requires
        0 <= i < 5,
    ensures
        ({
            let x = bundle_of(a, rootfs_base, Some(pid)).namespaces[i];
            let y = bundle_of(b, rootfs_base, Some(pid)).namespaces[i];
            &&& x == y
            &&& x.path is Some <==> x.kind == NamespaceKind::Network || x.kind
                == NamespaceKind::Ipc || x.kind == NamespaceKind::Uts
        }),
{
}


/// Law: a container's bundle runs the container's command, under its name, on a
/// root file system that cannot be written to, as the superuser without new
/// privileges. With a process to join, it lives in that process's network,
/// inter-process and host-name namespaces and has processes and mounts of its
/// own; without one, it has all five of its own.
pub proof fn bundles_run_the_command(
    container: &Container,
    rootfs_base: &str,
    pid: Option<u32>,
    spec: BundleSpec,
)
    requires
        call_ensures(build_spec, (container, rootfs_base, pid), spec),
    ensures
        spec.process.args@.len() == container.command@.len(),
        forall|i: int|
            0 <= i < container.command@.len() ==> (#[trigger] spec.process.args@[i])@
                == container.command@[i]@,
        spec.hostname@ == container.name@,
        spec.root.path@ == rootfs_base@,
        spec.root.readonly,
        !spec.process.terminal,
        spec.process.uid == 0 && spec.process.gid == 0,
        spec.process.no_new_privileges,
        spec.process.cwd@ == "/"@,
        spec.process.env@.len() == 2,
        spec.process.env@[0]@ == "PATH=/bin"@ && spec.process.env@[1]@ == "HOME=/"@,
        spec.mounts@.len() == 4,
        spec.mounts@[0].destination@ == "/proc"@ && spec.mounts@[0].typ@ == "proc"@
            && spec.mounts@[0].options is None,
        spec.mounts@[1].destination@ == "/dev"@ && spec.mounts@[1].typ@ == "tmpfs"@
            && spec.mounts@[1].options.deep_view() == Some(
            seq!["nosuid"@, "strictatime"@, "mode=755"@, "size=65536k"@],
        ),
        spec.mounts@[2].destination@ == "/sys"@ && spec.mounts@[2].typ@ == "sysfs"@
            && spec.mounts@[2].options.deep_view() == Some(
            seq!["nosuid"@, "noexec"@, "nodev"@, "ro"@],
        ),
        spec.mounts@[3].destination@ == "/tmp"@ && spec.mounts@[3].typ@ == "tmpfs"@
            && spec.mounts@[3].options.deep_view() == Some(
            seq!["nosuid"@, "nodev"@, "mode=1777"@, "size=16m"@],
        ),
        forall|i: int|
            0 <= i < 4 ==> (#[trigger] spec.mounts@[i]).source@ == spec.mounts@[i].typ@,
        spec.namespaces@.len() == 5,
        spec.namespaces@[0].kind == NamespaceKind::Pid && spec.namespaces@[0].path is None,
        spec.namespaces@[1].kind == NamespaceKind::Mount && spec.namespaces@[1].path is None,
        spec.namespaces@[2].kind == NamespaceKind::Network,
        spec.namespaces@[3].kind == NamespaceKind::Ipc,
        spec.namespaces@[4].kind == NamespaceKind::Uts,
        match pid {
            None => spec.namespaces@[2].path is None && spec.namespaces@[3].path is None
                && spec.namespaces@[4].path is None,
            Some(pid) => {
                let ns = "/proc/"@ + text::decimal_chars(pid as nat) + "/ns/"@;
                &&& spec.namespaces@[2].path is Some && spec.namespaces@[2].path->0@ == ns
                    + "net"@
                &&& spec.namespaces@[3].path is Some && spec.namespaces@[3].path->0@ == ns
                    + "ipc"@
                &&& spec.namespaces@[4].path is Some && spec.namespaces@[4].path->0@ == ns
                    + "uts"@
            },
        },
{
    let seen = bundle_of(container.deep_view(), rootfs_base@, pid);
    assert(spec.deep_view() == seen);
    assert(spec.process.args.deep_view() == container.command.deep_view());
    assert forall|i: int| 0 <= i < container.command@.len() implies (
    #[trigger] spec.process.args@[i])@ == container.command@[i]@ by {
        assert(spec.process.args.deep_view()[i] == container.command.deep_view()[i]);
    }
    assert(spec.process.env.deep_view() == seen.process.env);
    assert(spec.process.env.deep_view()[0] == "PATH=/bin"@);
    assert(spec.process.env.deep_view()[1] == "HOME=/"@);
    assert(spec.mounts.deep_view() == seen.mounts);
    assert(spec.namespaces.deep_view() == seen.namespaces);
    assert(spec.mounts.deep_view()[0] == seen.mounts[0]);
    assert(spec.mounts.deep_view()[1] == seen.mounts[1]);
    assert(spec.mounts.deep_view()[2] == seen.mounts[2]);
    assert(spec.mounts.deep_view()[3] == seen.mounts[3]);
    assert(spec.namespaces.deep_view()[0] == seen.namespaces[0]);
    assert(spec.namespaces.deep_view()[1] == seen.namespaces[1]);
    assert(spec.namespaces.deep_view()[2] == seen.namespaces[2]);
    assert(spec.namespaces.deep_view()[3] == seen.namespaces[3]);
    assert(spec.namespaces.deep_view()[4] == seen.namespaces[4]);
}

} // verus!
