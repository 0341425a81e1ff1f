//! Endpoints: the addresses of the ready backends of a Service.

use vstd::prelude::*;

use crate::duplicate::Duplicate;
use crate::meta::{MetaView, ObjectMeta, ResourceMeta};

verus! {

/// The backends of the Service of the same name.
#[derive(Debug, Clone, PartialEq)]
pub struct Endpoints {
    pub api_version: String,
    pub kind: String,
    pub metadata: ObjectMeta,
    /// One entry per ready backend.
    pub addresses: Vec<EndpointAddress>,
}

/// What an `Endpoints` holds.
#[verifier::ext_equal]
pub struct EndpointsView {
    pub api_version: Seq<char>,
    pub kind: Seq<char>,
    pub metadata: MetaView,
    pub addresses: Seq<EndpointAddressView>,
}

impl DeepView for Endpoints {
    type V = EndpointsView;

    open spec fn deep_view(&self) -> EndpointsView {
        EndpointsView {
            api_version: self.api_version@,
            kind: self.kind@,
            metadata: self.metadata.deep_view(),
            addresses: self.addresses.deep_view(),
        }
    }
}

impl Duplicate for Endpoints {
    fn duplicate(&self) -> (copy: Self) {
        Endpoints {
            api_version: self.api_version.clone(),
            kind: self.kind.clone(),
            metadata: self.metadata.duplicate(),
            addresses: self.addresses.duplicate(),
        }
    }
}

/// One backend.
#[derive(Debug, Clone, PartialEq)]
pub struct EndpointAddress {
    /// A backend Pod's address.
    pub ip: String,
    /// The Pod port to send to.
    pub port: u16,
}

/// What an `EndpointAddress` holds.
#[verifier::ext_equal]
pub struct EndpointAddressView {
    pub ip: Seq<char>,
    pub port: u16,
}

impl DeepView for EndpointAddress {
    type V = EndpointAddressView;

    open spec fn deep_view(&self) -> EndpointAddressView {
        EndpointAddressView {
            ip: self.ip@,
            port: self.port,
        }
    }
}

impl Duplicate for EndpointAddress {
    fn duplicate(&self) -> (copy: Self) {
        EndpointAddress {
            ip: self.ip.clone(),
            port: self.port,
        }
    }
}

impl ResourceMeta for Endpoints {
    open spec fn prefix() -> Seq<char> {
        "endpoints/"@
    }

    open spec fn meta_of(v: EndpointsView) -> MetaView {
        v.metadata
    }

    open spec fn with_meta(v: EndpointsView, m: MetaView) -> EndpointsView {
        EndpointsView { metadata: m, ..v }
    }

    open spec fn without_status(v: EndpointsView) -> EndpointsView {
        v
    }

    open spec fn with_status_of(v: EndpointsView, current: EndpointsView) -> EndpointsView {
        v
    }

    proof fn parts_are_independent(v: EndpointsView, m: MetaView, current: EndpointsView) {
    }

    fn kind_prefix() -> (prefix: &'static str) {
        "endpoints/"
    }

    fn meta(&self) -> (meta: &ObjectMeta) {
        &self.metadata
    }

    fn meta_mut(&mut self) -> (meta: &mut ObjectMeta) {
        &mut self.metadata
    }

    fn clear_status(&mut self) {
    }

    fn inherit_status(&mut self, current: &Self) {
    }
}

} // verus!
