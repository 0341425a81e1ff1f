//! Raft consensus. The core is a pure state machine (`machine::RaftNode::step`);
//! persistence, timers and transport live around it.

pub mod applying;
pub mod cluster;
pub mod laws;
pub mod log;
pub mod machine;
pub mod message;
pub mod node;
pub mod progress;
pub mod replay;
pub mod safety;
pub mod storage;
pub mod transition;
pub mod transport;
