//! Services: a stable virtual address in front of the Pods that match a
//! selector.

use vstd::prelude::*;

use crate::duplicate::Duplicate;
use crate::labels::Labels;
use crate::meta::{MetaView, ObjectMeta, ResourceMeta};

verus! {

/// A virtual address with backends.
#[derive(Debug, Clone, PartialEq)]
pub struct Service {
    pub api_version: String,
    pub kind: String,
    pub metadata: ObjectMeta,
    pub spec: ServiceSpec,
}

/// What a `Service` holds.
#[verifier::ext_equal]
pub struct ServiceView {
    pub api_version: Seq<char>,
    pub kind: Seq<char>,
    pub metadata: MetaView,
    pub spec: ServiceSpecView,
}

impl DeepView for Service {
    type V = ServiceView;

    open spec fn deep_view(&self) -> ServiceView {
        ServiceView {
            api_version: self.api_version@,
            kind: self.kind@,
            metadata: self.metadata.deep_view(),
            spec: self.spec.deep_view(),
        }
    }
}

impl Duplicate for Service {
    fn duplicate(&self) -> (copy: Self) {
        Service {
            api_version: self.api_version.clone(),
            kind: self.kind.clone(),
            metadata: self.metadata.duplicate(),
            spec: self.spec.duplicate(),
        }
    }
}

/// Which Pods, and which ports.
#[derive(Debug, Clone, PartialEq)]
pub struct ServiceSpec {
    /// Pods whose labels match all of these are the Service's backends.
    pub selector: Labels,
    /// The port the virtual address listens on.
    pub port: u16,
    /// The port on the backing Pod.
    pub target_port: u16,
    /// The virtual address, once the API server has assigned it.
    pub cluster_ip: Option<String>,
}

/// What a `ServiceSpec` holds.
#[verifier::ext_equal]
pub struct ServiceSpecView {
    pub selector: Map<Seq<char>, Seq<char>>,
    pub port: u16,
    pub target_port: u16,
    pub cluster_ip: Option<Seq<char>>,
}

impl DeepView for ServiceSpec {
    type V = ServiceSpecView;

    open spec fn deep_view(&self) -> ServiceSpecView {
        ServiceSpecView {
            selector: self.selector@,
            port: self.port,
            target_port: self.target_port,
            cluster_ip: self.cluster_ip.deep_view(),
        }
    }
}

impl Duplicate for ServiceSpec {
    fn duplicate(&self) -> (copy: Self) {
        ServiceSpec {
            selector: self.selector.duplicate(),
            port: self.port,
            target_port: self.target_port,
            cluster_ip: self.cluster_ip.duplicate(),
        }
    }
}

impl Default for ServiceSpec {
    fn default() -> (spec: Self)
        ensures
            spec.deep_view() == (ServiceSpecView {
                selector: Map::empty(),
                port: 0,
                target_port: 0,
                cluster_ip: None,
            }),
    {
        ServiceSpec { selector: Labels::new(), port: 0, target_port: 0, cluster_ip: None }
    }
}

impl ResourceMeta for Service {
    open spec fn prefix() -> Seq<char> {
        "services/"@
    }

    open spec fn meta_of(v: ServiceView) -> MetaView {
        v.metadata
    }

    open spec fn with_meta(v: ServiceView, m: MetaView) -> ServiceView {
        ServiceView { metadata: m, ..v }
    }

    open spec fn without_status(v: ServiceView) -> ServiceView {
        v
    }

    open spec fn with_status_of(v: ServiceView, current: ServiceView) -> ServiceView {
        v
    }

    proof fn parts_are_independent(v: ServiceView, m: MetaView, current: ServiceView) {
    }

    fn kind_prefix() -> (prefix: &'static str) {
        "services/"
    }

    fn meta(&self) -> (meta: &ObjectMeta) {
        &self.metadata
    }

    fn meta_mut(&mut self) -> (meta: &mut ObjectMeta) {
        &mut self.metadata
    }

    fn clear_status(&mut self) {
    }

    fn inherit_status(&mut self, current: &Self) {
    }
}

} // verus!
