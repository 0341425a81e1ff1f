//! A small Kubernetes-style cluster manager: the object model, the API
//! server's storage and request rules, the controllers, the scheduler, the
//! node agent, the service proxy and the Raft consensus core underneath.

pub mod apiserver;
pub mod client;
pub mod clock;
pub mod controller;
pub mod copies;
pub mod digest;
pub mod duplicate;
pub mod endpoints;
pub mod identity;
pub mod ipam;
pub mod kube_proxy;
pub mod kubectl;
pub mod labels;
pub mod meta;
pub mod names;
pub mod node;
pub mod order;
pub mod pod;
pub mod raft;
pub mod reconciler;
pub mod replicaset;
pub mod runtime;
pub mod scheduler;
pub mod service;
pub mod store;
pub mod text;
pub mod watcher;
