//! The API server: storage, requests, watches and the replicated command
//! language.

pub mod answers;
pub mod applier;
pub mod command;
pub mod handlers;
pub mod laws;
pub mod raft_glue;
pub mod requests;
pub mod services;
pub mod storage;
pub mod stores;
pub mod watch;
