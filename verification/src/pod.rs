//! Pods. A deliberately small subset of the Kubernetes schema.

use vstd::prelude::*;

use crate::duplicate::Duplicate;
use crate::meta::{MetaView, ObjectMeta, ResourceMeta};

verus! {

pub type PodName = String;

pub type ContainerName = String;

/// Pod metadata is the shared object metadata.
pub type PodMetadata = ObjectMeta;

/// The top-level resource. `spec` is desired state, written by clients;
/// `status` is observed state, written by the kubelet.
#[derive(Debug, Clone, PartialEq)]
pub struct Pod {
    pub api_version: String,
    pub kind: String,
    pub metadata: PodMetadata,
    pub spec: PodSpec,
    pub status: Option<PodStatus>,
}

/// What a `Pod` holds.
#[verifier::ext_equal]
pub struct PodView {
    pub api_version: Seq<char>,
    pub kind: Seq<char>,
    pub metadata: MetaView,
    pub spec: PodSpecView,
    pub status: Option<PodStatusView>,
}

impl DeepView for Pod {
    type V = PodView;

    open spec fn deep_view(&self) -> PodView {
        PodView {
            api_version: self.api_version@,
            kind: self.kind@,
            metadata: self.metadata.deep_view(),
            spec: self.spec.deep_view(),
            status: self.status.deep_view(),
        }
    }
}

impl Duplicate for Pod {
    fn duplicate(&self) -> (copy: Self) {
        Pod {
            api_version: self.api_version.clone(),
            kind: self.kind.clone(),
            metadata: self.metadata.duplicate(),
            spec: self.spec.duplicate(),
            status: self.status.duplicate(),
        }
    }
}

/// What a pod should run, and where.
#[derive(Debug, Clone, PartialEq)]
pub struct PodSpec {
    pub containers: Vec<Container>,
    /// The node the pod is bound to.
    pub node_name: Option<String>,
}

/// What a `PodSpec` holds.
#[verifier::ext_equal]
pub struct PodSpecView {
    pub containers: Seq<ContainerView>,
    pub node_name: Option<Seq<char>>,
}

impl DeepView for PodSpec {
    type V = PodSpecView;

    open spec fn deep_view(&self) -> PodSpecView {
        PodSpecView {
            containers: self.containers.deep_view(),
            node_name: self.node_name.deep_view(),
        }
    }
}

impl Duplicate for PodSpec {
    fn duplicate(&self) -> (copy: Self) {
        PodSpec {
            containers: self.containers.duplicate(),
            node_name: self.node_name.duplicate(),
        }
    }
}

/// One container of a pod.
#[derive(Debug, Clone, PartialEq)]
pub struct Container {
    pub name: ContainerName,
    /// Kept but ignored: every container runs from the shared root file
    /// system.
    pub image: String,
    /// The binary, then its arguments.
    pub command: Vec<String>,
}

/// What a `Container` holds.
#[verifier::ext_equal]
pub struct ContainerView {
    pub name: Seq<char>,
    pub image: Seq<char>,
    pub command: Seq<Seq<char>>,
}

impl DeepView for Container {
    type V = ContainerView;

    open spec fn deep_view(&self) -> ContainerView {
        ContainerView {
            name: self.name@,
            image: self.image@,
            command: self.command.deep_view(),
        }
    }
}

impl Duplicate for Container {
    fn duplicate(&self) -> (copy: Self) {
        Container {
            name: self.name.clone(),
            image: self.image.clone(),
            command: self.command.duplicate(),
        }
    }
}

/// Observed state, reported by the kubelet.
#[derive(Debug, Clone, PartialEq)]
pub struct PodStatus {
    pub phase: PodPhase,
    pub container_statuses: Vec<ContainerStatus>,
    /// The `metadata.generation` that this status reflects.
    pub observed_generation: Option<u64>,
    /// The pod's address, once its network is up.
    pub pod_ip: Option<String>,
}

/// What a `PodStatus` holds.
#[verifier::ext_equal]
pub struct PodStatusView {
    pub phase: PodPhase,
    pub container_statuses: Seq<ContainerStatusView>,
    pub observed_generation: Option<u64>,
    pub pod_ip: Option<Seq<char>>,
}

impl DeepView for PodStatus {
    type V = PodStatusView;

    open spec fn deep_view(&self) -> PodStatusView {
        PodStatusView {
            phase: self.phase,
            container_statuses: self.container_statuses.deep_view(),
            observed_generation: self.observed_generation,
            pod_ip: self.pod_ip.deep_view(),
        }
    }
}

impl Duplicate for PodStatus {
    fn duplicate(&self) -> (copy: Self) {
        PodStatus {
            phase: self.phase,
            container_statuses: self.container_statuses.duplicate(),
            observed_generation: self.observed_generation,
            pod_ip: self.pod_ip.duplicate(),
        }
    }
}

#[derive(Debug, Clone, Copy, PartialEq, Eq, Structural)]
pub enum PodPhase {
    Pending,
    Running,
    Succeeded,
    Failed,
    Unknown,
}

/// The state of one container, as reported.
#[derive(Debug, Clone, PartialEq)]
pub struct ContainerStatus {
    pub name: ContainerName,
    pub ready: bool,
    pub restart_count: u32,
    pub state: ContainerStatusState,
}

/// What a `ContainerStatus` holds.
#[verifier::ext_equal]
pub struct ContainerStatusView {
    pub name: Seq<char>,
    pub ready: bool,
    pub restart_count: u32,
    pub state: ContainerStatusStateView,
}

impl DeepView for ContainerStatus {
    type V = ContainerStatusView;

    open spec fn deep_view(&self) -> ContainerStatusView {
        ContainerStatusView {
            name: self.name@,
            ready: self.ready,
            restart_count: self.restart_count,
            state: self.state.deep_view(),
        }
    }
}

impl Duplicate for ContainerStatus {
    fn duplicate(&self) -> (copy: Self) {
        ContainerStatus {
            name: self.name.clone(),
            ready: self.ready,
            restart_count: self.restart_count,
            state: self.state.duplicate(),
        }
    }
}

#[derive(Debug, Clone, PartialEq)]
pub enum ContainerStatusState {
    Waiting,
    Running { started_at: String },
    Terminated { exit_code: i32 },
}

/// What a `ContainerStatusState` holds.
#[verifier::ext_equal]
pub enum ContainerStatusStateView {
    Waiting,
    Running { started_at: Seq<char> },
    Terminated { exit_code: i32 },
}

impl DeepView for ContainerStatusState {
    type V = ContainerStatusStateView;

    open spec fn deep_view(&self) -> ContainerStatusStateView {
        match self {
            ContainerStatusState::Waiting => ContainerStatusStateView::Waiting,
            ContainerStatusState::Running { started_at } => ContainerStatusStateView::Running {
                started_at: started_at@,
            },
            ContainerStatusState::Terminated { exit_code } => ContainerStatusStateView::Terminated {
                exit_code: *exit_code,
            },
        }
    }
}

impl Duplicate for ContainerStatusState {
    fn duplicate(&self) -> (copy: Self) {
        match self {
            ContainerStatusState::Waiting => ContainerStatusState::Waiting,
            ContainerStatusState::Running { started_at } => ContainerStatusState::Running {
                started_at: started_at.clone(),
            },
            ContainerStatusState::Terminated { exit_code } => ContainerStatusState::Terminated {
                exit_code: *exit_code,
            },
        }
    }
}

impl Default for PodPhase {
    fn default() -> (phase: Self)
        ensures
            phase == PodPhase::Pending,
    {
        PodPhase::Pending
    }
}

impl Default for PodStatus {
    fn default() -> (status: Self)
        ensures
            status.deep_view() == (PodStatusView {
                phase: PodPhase::Pending,
                container_statuses: Seq::empty(),
                observed_generation: None,
                pod_ip: None,
            }),
    {
        let container_statuses: Vec<ContainerStatus> = Vec::new();
        assert(container_statuses.deep_view() =~= Seq::<ContainerStatusView>::empty());
        PodStatus {
            phase: PodPhase::Pending,
            container_statuses,
            observed_generation: None,
            pod_ip: None,
        }
    }
}

impl ResourceMeta for Pod {
    open spec fn prefix() -> Seq<char> {
        "pods/"@
    }

    open spec fn meta_of(v: PodView) -> MetaView {
        v.metadata
    }

    open spec fn with_meta(v: PodView, m: MetaView) -> PodView {
        PodView { metadata: m, ..v }
    }

    open spec fn without_status(v: PodView) -> PodView {
        PodView { status: None, ..v }
    }

    open spec fn with_status_of(v: PodView, current: PodView) -> PodView {
        PodView { status: current.status, ..v }
    }

    proof fn parts_are_independent(v: PodView, m: MetaView, current: PodView) {
    }

    fn kind_prefix() -> (prefix: &'static str) {
        "pods/"
    }

    fn meta(&self) -> (meta: &ObjectMeta) {
        &self.metadata
    }

    fn meta_mut(&mut self) -> (meta: &mut ObjectMeta) {
        &mut self.metadata
    }

    fn clear_status(&mut self) {
        self.status = None;
    }

    fn inherit_status(&mut self, current: &Self) {
        self.status = current.status.duplicate();
    }
}

} // verus!
