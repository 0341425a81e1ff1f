//! ReplicaSets: "this many Pods that match this selector", which a controller
//! makes true.

use vstd::prelude::*;

use crate::duplicate::Duplicate;
use crate::labels::Labels;
use crate::meta::{MetaView, ObjectMeta, ResourceMeta};
use crate::pod::{PodSpec, PodSpecView};

verus! {

/// A set of interchangeable Pods.
#[derive(Debug, Clone, PartialEq)]
pub struct ReplicaSet {
    pub api_version: String,
    pub kind: String,
    pub metadata: ObjectMeta,
    pub spec: ReplicaSetSpec,
    pub status: Option<ReplicaSetStatus>,
}

/// What a `ReplicaSet` holds.
#[verifier::ext_equal]
pub struct ReplicaSetView {
    pub api_version: Seq<char>,
    pub kind: Seq<char>,
    pub metadata: MetaView,
    pub spec: ReplicaSetSpecView,
    pub status: Option<ReplicaSetStatus>,
}

impl DeepView for ReplicaSet {
    type V = ReplicaSetView;

    open spec fn deep_view(&self) -> ReplicaSetView {
        ReplicaSetView {
            api_version: self.api_version@,
            kind: self.kind@,
            metadata: self.metadata.deep_view(),
            spec: self.spec.deep_view(),
            status: self.status,
        }
    }
}

impl Duplicate for ReplicaSet {
    fn duplicate(&self) -> (copy: Self) {
        ReplicaSet {
            api_version: self.api_version.clone(),
            kind: self.kind.clone(),
            metadata: self.metadata.duplicate(),
            spec: self.spec.duplicate(),
            status: self.status,
        }
    }
}

/// How many Pods, which, and how to make more.
#[derive(Debug, Clone, PartialEq)]
pub struct ReplicaSetSpec {
    pub replicas: u32,
    pub selector: LabelSelector,
    pub template: PodTemplateSpec,
}

/// What a `ReplicaSetSpec` holds.
#[verifier::ext_equal]
pub struct ReplicaSetSpecView {
    pub replicas: u32,
    pub selector: LabelSelectorView,
    pub template: PodTemplateSpecView,
}

impl DeepView for ReplicaSetSpec {
    type V = ReplicaSetSpecView;

    open spec fn deep_view(&self) -> ReplicaSetSpecView {
        ReplicaSetSpecView {
            replicas: self.replicas,
            selector: self.selector.deep_view(),
            template: self.template.deep_view(),
        }
    }
}

impl Duplicate for ReplicaSetSpec {
    fn duplicate(&self) -> (copy: Self) {
        ReplicaSetSpec {
            replicas: self.replicas,
            selector: self.selector.duplicate(),
            template: self.template.duplicate(),
        }
    }
}

/// The tags a Pod has to carry.
#[derive(Debug, Clone, PartialEq)]
pub struct LabelSelector {
    pub match_labels: Labels,
}

/// What a `LabelSelector` holds.
#[verifier::ext_equal]
pub struct LabelSelectorView {
    pub match_labels: Map<Seq<char>, Seq<char>>,
}

impl DeepView for LabelSelector {
    type V = LabelSelectorView;

    open spec fn deep_view(&self) -> LabelSelectorView {
        LabelSelectorView {
            match_labels: self.match_labels@,
        }
    }
}

impl Duplicate for LabelSelector {
    fn duplicate(&self) -> (copy: Self) {
        LabelSelector {
            match_labels: self.match_labels.duplicate(),
        }
    }
}

/// The blueprint of a Pod. Its metadata has labels only: name and identity
/// belong to each Pod that is made from it.
#[derive(Debug, Clone, PartialEq)]
pub struct PodTemplateSpec {
    pub metadata: TemplateObjectMeta,
    pub spec: PodSpec,
}

/// What a `PodTemplateSpec` holds.
#[verifier::ext_equal]
pub struct PodTemplateSpecView {
    pub metadata: TemplateObjectMetaView,
    pub spec: PodSpecView,
}

impl DeepView for PodTemplateSpec {
    type V = PodTemplateSpecView;

    open spec fn deep_view(&self) -> PodTemplateSpecView {
        PodTemplateSpecView {
            metadata: self.metadata.deep_view(),
            spec: self.spec.deep_view(),
        }
    }
}

impl Duplicate for PodTemplateSpec {
    fn duplicate(&self) -> (copy: Self) {
        PodTemplateSpec {
            metadata: self.metadata.duplicate(),
            spec: self.spec.duplicate(),
        }
    }
}

/// The metadata of a blueprint.
#[derive(Debug, Clone, PartialEq)]
pub struct TemplateObjectMeta {
    pub labels: Labels,
}

/// What a `TemplateObjectMeta` holds.
#[verifier::ext_equal]
pub struct TemplateObjectMetaView {
    pub labels: Map<Seq<char>, Seq<char>>,
}

impl DeepView for TemplateObjectMeta {
    type V = TemplateObjectMetaView;

    open spec fn deep_view(&self) -> TemplateObjectMetaView {
        TemplateObjectMetaView {
            labels: self.labels@,
        }
    }
}

impl Duplicate for TemplateObjectMeta {
    fn duplicate(&self) -> (copy: Self) {
        TemplateObjectMeta {
            labels: self.labels.duplicate(),
        }
    }
}

#[derive(Debug, Clone, Copy, PartialEq, Eq, Structural)]
pub struct ReplicaSetStatus {
    pub replicas: u32,
    pub ready_replicas: u32,
    pub observed_generation: u64,
}

impl Default for ReplicaSetStatus {
    fn default() -> (status: Self)
        ensures
            status == (ReplicaSetStatus {
                replicas: 0,
                ready_replicas: 0,
                observed_generation: 0,
            }),
    {
        ReplicaSetStatus { replicas: 0, ready_replicas: 0, observed_generation: 0 }
    }
}

impl ResourceMeta for ReplicaSet {
    open spec fn prefix() -> Seq<char> {
        "replicasets/"@
    }

    open spec fn meta_of(v: ReplicaSetView) -> MetaView {
        v.metadata
    }

    open spec fn with_meta(v: ReplicaSetView, m: MetaView) -> ReplicaSetView {
        ReplicaSetView { metadata: m, ..v }
    }

    open spec fn without_status(v: ReplicaSetView) -> ReplicaSetView {
        ReplicaSetView { status: None, ..v }
    }

    open spec fn with_status_of(v: ReplicaSetView, current: ReplicaSetView) -> ReplicaSetView {
        ReplicaSetView { status: current.status, ..v }
    }

    proof fn parts_are_independent(v: ReplicaSetView, m: MetaView, current: ReplicaSetView) {
    }

    fn kind_prefix() -> (prefix: &'static str) {
        "replicasets/"
    }

    fn meta(&self) -> (meta: &ObjectMeta) {
        &self.metadata
    }

    fn meta_mut(&mut self) -> (meta: &mut ObjectMeta) {
        &mut self.metadata
    }

    fn clear_status(&mut self) {
        self.status = None;
    }

    fn inherit_status(&mut self, current: &Self) {
        self.status = current.status;
    }
}

} // verus!
