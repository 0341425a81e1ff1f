//! The four messages of Raft.

use vstd::prelude::*;

use crate::duplicate::Duplicate;
use crate::raft::log::{LogEntry, LogEntryView, LogIndex, NodeId, Term};

verus! {

#[derive(Debug, Clone, Copy, PartialEq)]
pub struct RequestVoteReq {
    pub term: Term,
    pub candidate_id: NodeId,
    pub last_log_index: LogIndex,
    pub last_log_term: Term,
}

#[derive(Debug, Clone, Copy, PartialEq)]
pub struct RequestVoteResp {
    pub term: Term,
    pub vote_granted: bool,
}

#[derive(Debug, Clone, PartialEq)]
pub struct AppendEntriesReq {
    pub term: Term,
    pub leader_id: NodeId,
    pub prev_log_index: LogIndex,
    pub prev_log_term: Term,
    pub entries: Vec<LogEntry>,
    pub leader_commit: LogIndex,
}

#[derive(Debug, Clone, Copy, PartialEq)]
pub struct AppendEntriesResp {
    pub term: Term,
    pub success: bool,
    pub match_index: LogIndex,
}

#[derive(Debug, Clone, PartialEq)]
pub enum Message {
    RequestVote(RequestVoteReq),
    RequestVoteResp(RequestVoteResp),
    AppendEntries(AppendEntriesReq),
    AppendEntriesResp(AppendEntriesResp),
}

/// What an `AppendEntriesReq` holds.
#[verifier::ext_equal]
pub struct AppendEntriesView {
    pub term: Term,
    pub leader_id: NodeId,
    pub prev_log_index: LogIndex,
    pub prev_log_term: Term,
    pub entries: Seq<LogEntryView>,
    pub leader_commit: LogIndex,
}

/// What a `Message` holds.
#[verifier::ext_equal]
pub enum MessageView {
    RequestVote(RequestVoteReq),
    RequestVoteResp(RequestVoteResp),
    AppendEntries(AppendEntriesView),
    AppendEntriesResp(AppendEntriesResp),
}

impl DeepView for AppendEntriesReq {
    type V = AppendEntriesView;

    open spec fn deep_view(&self) -> AppendEntriesView {
        AppendEntriesView {
            term: self.term,
            leader_id: self.leader_id,
            prev_log_index: self.prev_log_index,
            prev_log_term: self.prev_log_term,
            entries: self.entries.deep_view(),
            leader_commit: self.leader_commit,
        }
    }
}

impl DeepView for Message {
    type V = MessageView;

    open spec fn deep_view(&self) -> MessageView {
        match self {
            Message::RequestVote(req) => MessageView::RequestVote(*req),
            Message::RequestVoteResp(resp) => MessageView::RequestVoteResp(*resp),
            Message::AppendEntries(req) => MessageView::AppendEntries(req.deep_view()),
            Message::AppendEntriesResp(resp) => MessageView::AppendEntriesResp(*resp),
        }
    }
}

impl Duplicate for AppendEntriesReq {
    fn duplicate(&self) -> (copy: Self) {
        AppendEntriesReq {
            term: self.term,
            leader_id: self.leader_id,
            prev_log_index: self.prev_log_index,
            prev_log_term: self.prev_log_term,
            entries: self.entries.duplicate(),
            leader_commit: self.leader_commit,
        }
    }
}

impl Duplicate for Message {
    fn duplicate(&self) -> (copy: Self) {
        match self {
            Message::RequestVote(req) => Message::RequestVote(*req),
            Message::RequestVoteResp(resp) => Message::RequestVoteResp(*resp),
            Message::AppendEntries(req) => Message::AppendEntries(req.duplicate()),
            Message::AppendEntriesResp(resp) => Message::AppendEntriesResp(*resp),
        }
    }
}

} // verus!
