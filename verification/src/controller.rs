//! What the controllers decide: which objects to write to bring the cluster
//! closer to what is asked for.

pub mod convergence;
pub mod endpoints;
pub mod replicaset;
pub mod request;
pub mod upkeep;
pub mod workqueue;
