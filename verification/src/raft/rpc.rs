//! The messages that nodes exchange.

use crate::data::Duplicate;
use crate::protocol::{LogEntry, LogEntryModel, Snapshot, SnapshotModel};
use vstd::prelude::*;

verus! {

/// A candidate asks for a vote.
#[derive(Debug, Clone, PartialEq)]
pub struct RequestVoteArgs {
    pub term: u64,
    pub candidate_id: String,
    pub last_log_index: u64,
    pub last_log_term: u64,
}

#[verifier::ext_equal]
pub struct RequestVoteArgsModel {
    pub term: u64,
    pub candidate_id: Seq<char>,
    pub last_log_index: u64,
    pub last_log_term: u64,
}

impl DeepView for RequestVoteArgs {
    type V = RequestVoteArgsModel;

    open spec fn deep_view(&self) -> RequestVoteArgsModel {
        RequestVoteArgsModel {
            term: self.term,
            candidate_id: self.candidate_id@,
            last_log_index: self.last_log_index,
            last_log_term: self.last_log_term,
        }
    }
}

impl Duplicate for RequestVoteArgs {
    fn duplicate(&self) -> (copy: Self) {
        RequestVoteArgs {
            term: self.term,
            candidate_id: self.candidate_id.clone(),
            last_log_index: self.last_log_index,
            last_log_term: self.last_log_term,
        }
    }
}

/// The answer to a request for a vote.
#[derive(Debug, Clone, PartialEq)]
pub struct VoteResponseArgs {
    pub term: u64,
    pub vote_granted: bool,
}

#[verifier::ext_equal]
pub struct VoteResponseArgsModel {
    pub term: u64,
    pub vote_granted: bool,
}

impl DeepView for VoteResponseArgs {
    type V = VoteResponseArgsModel;

    open spec fn deep_view(&self) -> VoteResponseArgsModel {
        VoteResponseArgsModel {
            term: self.term,
            vote_granted: self.vote_granted,
        }
    }
}

impl Duplicate for VoteResponseArgs {
    fn duplicate(&self) -> (copy: Self) {
        VoteResponseArgs {
            term: self.term,
            vote_granted: self.vote_granted,
        }
    }
}

/// The leader replicates log entries, or sends a heartbeat without any.
#[derive(Debug, Clone, PartialEq)]
pub struct AppendEntriesArgs {
    pub term: u64,
    pub leader_id: String,
    pub prev_log_index: u64,
    pub prev_log_term: u64,
    pub entries: Vec<LogEntry>,
    pub leader_commit: u64,
}

#[verifier::ext_equal]
pub struct AppendEntriesArgsModel {
    pub term: u64,
    pub leader_id: Seq<char>,
    pub prev_log_index: u64,
    pub prev_log_term: u64,
    pub entries: Seq<LogEntryModel>,
    pub leader_commit: u64,
}

impl DeepView for AppendEntriesArgs {
    type V = AppendEntriesArgsModel;

    open spec fn deep_view(&self) -> AppendEntriesArgsModel {
        AppendEntriesArgsModel {
            term: self.term,
            leader_id: self.leader_id@,
            prev_log_index: self.prev_log_index,
            prev_log_term: self.prev_log_term,
            entries: self.entries.deep_view(),
            leader_commit: self.leader_commit,
        }
    }
}

impl Duplicate for AppendEntriesArgs {
    fn duplicate(&self) -> (copy: Self) {
        AppendEntriesArgs {
            term: self.term,
            leader_id: self.leader_id.clone(),
            prev_log_index: self.prev_log_index,
            prev_log_term: self.prev_log_term,
            entries: self.entries.duplicate(),
            leader_commit: self.leader_commit,
        }
    }
}

/// A follower's answer to log entries.
#[derive(Debug, Clone, PartialEq)]
pub struct AppendReplyArgs {
    pub term: u64,
    pub success: bool,
}

#[verifier::ext_equal]
pub struct AppendReplyArgsModel {
    pub term: u64,
    pub success: bool,
}

impl DeepView for AppendReplyArgs {
    type V = AppendReplyArgsModel;

    open spec fn deep_view(&self) -> AppendReplyArgsModel {
        AppendReplyArgsModel {
            term: self.term,
            success: self.success,
        }
    }
}

impl Duplicate for AppendReplyArgs {
    fn duplicate(&self) -> (copy: Self) {
        AppendReplyArgs {
            term: self.term,
            success: self.success,
        }
    }
}

/// The leader sends a snapshot to a lagging follower.
#[derive(Debug, PartialEq)]
pub struct InstallSnapshotArgs {
    pub term: u64,
    pub leader_id: String,
    pub last_included_index: u64,
    pub last_included_term: u64,
    pub snapshot: Snapshot,
}

#[verifier::ext_equal]
pub struct InstallSnapshotArgsModel {
    pub term: u64,
    pub leader_id: Seq<char>,
    pub last_included_index: u64,
    pub last_included_term: u64,
    pub snapshot: SnapshotModel,
}

impl DeepView for InstallSnapshotArgs {
    type V = InstallSnapshotArgsModel;

    open spec fn deep_view(&self) -> InstallSnapshotArgsModel {
        InstallSnapshotArgsModel {
            term: self.term,
            leader_id: self.leader_id@,
            last_included_index: self.last_included_index,
            last_included_term: self.last_included_term,
            snapshot: self.snapshot.deep_view(),
        }
    }
}

impl Duplicate for InstallSnapshotArgs {
    fn duplicate(&self) -> (copy: Self) {
        InstallSnapshotArgs {
            term: self.term,
            leader_id: self.leader_id.clone(),
            last_included_index: self.last_included_index,
            last_included_term: self.last_included_term,
            snapshot: self.snapshot.duplicate(),
        }
    }
}

/// A follower's answer to a snapshot.
#[derive(Debug, Clone, PartialEq)]
pub struct InstallSnapshotReplyArgs {
    pub term: u64,
}

#[verifier::ext_equal]
pub struct InstallSnapshotReplyArgsModel {
    pub term: u64,
}

impl DeepView for InstallSnapshotReplyArgs {
    type V = InstallSnapshotReplyArgsModel;

    open spec fn deep_view(&self) -> InstallSnapshotReplyArgsModel {
        InstallSnapshotReplyArgsModel {
            term: self.term,
        }
    }
}

impl Duplicate for InstallSnapshotReplyArgs {
    fn duplicate(&self) -> (copy: Self) {
        InstallSnapshotReplyArgs {
            term: self.term,
        }
    }
}

/// A new server asks to be told of the cluster's members.
#[derive(Debug, Clone, PartialEq)]
pub struct JoinClusterRequest {
    pub candidate_addr: String,
}

#[verifier::ext_equal]
pub struct JoinClusterRequestModel {
    pub candidate_addr: Seq<char>,
}

impl DeepView for JoinClusterRequest {
    type V = JoinClusterRequestModel;

    open spec fn deep_view(&self) -> JoinClusterRequestModel {
        JoinClusterRequestModel {
            candidate_addr: self.candidate_addr@,
        }
    }
}

/// The answer to a new server.
#[derive(Debug, Clone, PartialEq)]
pub struct JoinClusterResponse {
    pub accepted: bool,
    pub term: u64,
    pub leader_addr: String,
    pub peer_addrs: Vec<String>,
    pub reason: String,
}

#[verifier::ext_equal]
pub struct JoinClusterResponseModel {
    pub accepted: bool,
    pub term: u64,
    pub leader_addr: Seq<char>,
    pub peer_addrs: Seq<Seq<char>>,
    pub reason: Seq<char>,
}

impl DeepView for JoinClusterResponse {
    type V = JoinClusterResponseModel;

    open spec fn deep_view(&self) -> JoinClusterResponseModel {
        JoinClusterResponseModel {
            accepted: self.accepted,
            term: self.term,
            leader_addr: self.leader_addr@,
            peer_addrs: self.peer_addrs.deep_view(),
            reason: self.reason@,
        }
    }
}

/// A message between nodes.
#[derive(Debug, PartialEq)]
pub enum RaftMessage {
    RequestVote(RequestVoteArgs),
    VoteResponse(VoteResponseArgs),
    AppendEntries(AppendEntriesArgs),
    AppendReply(AppendReplyArgs),
    InstallSnapshot(InstallSnapshotArgs),
    InstallSnapshotReply(InstallSnapshotReplyArgs),
    RequestPreVote(RequestVoteArgs),
    PreVoteResponse(VoteResponseArgs),
}

#[verifier::ext_equal]
pub enum RaftMessageModel {
    RequestVote(RequestVoteArgsModel),
    VoteResponse(VoteResponseArgsModel),
    AppendEntries(AppendEntriesArgsModel),
    AppendReply(AppendReplyArgsModel),
    InstallSnapshot(InstallSnapshotArgsModel),
    InstallSnapshotReply(InstallSnapshotReplyArgsModel),
    RequestPreVote(RequestVoteArgsModel),
    PreVoteResponse(VoteResponseArgsModel),
}

impl DeepView for RaftMessage {
    type V = RaftMessageModel;

    open spec fn deep_view(&self) -> RaftMessageModel {
        match self {
            RaftMessage::RequestVote(a) => RaftMessageModel::RequestVote(a.deep_view()),
            RaftMessage::VoteResponse(a) => RaftMessageModel::VoteResponse(a.deep_view()),
            RaftMessage::AppendEntries(a) => RaftMessageModel::AppendEntries(a.deep_view()),
            RaftMessage::AppendReply(a) => RaftMessageModel::AppendReply(a.deep_view()),
            RaftMessage::InstallSnapshot(a) => RaftMessageModel::InstallSnapshot(a.deep_view()),
            RaftMessage::InstallSnapshotReply(a) => RaftMessageModel::InstallSnapshotReply(a.deep_view()),
            RaftMessage::RequestPreVote(a) => RaftMessageModel::RequestPreVote(a.deep_view()),
            RaftMessage::PreVoteResponse(a) => RaftMessageModel::PreVoteResponse(a.deep_view()),
        }
    }
}

impl Duplicate for RaftMessage {
    fn duplicate(&self) -> (copy: Self) {
        match self {
            RaftMessage::RequestVote(a) => RaftMessage::RequestVote(a.duplicate()),
            RaftMessage::VoteResponse(a) => RaftMessage::VoteResponse(a.duplicate()),
            RaftMessage::AppendEntries(a) => RaftMessage::AppendEntries(a.duplicate()),
            RaftMessage::AppendReply(a) => RaftMessage::AppendReply(a.duplicate()),
            RaftMessage::InstallSnapshot(a) => RaftMessage::InstallSnapshot(a.duplicate()),
            RaftMessage::InstallSnapshotReply(a) => RaftMessage::InstallSnapshotReply(a.duplicate()),
            RaftMessage::RequestPreVote(a) => RaftMessage::RequestPreVote(a.duplicate()),
            RaftMessage::PreVoteResponse(a) => RaftMessage::PreVoteResponse(a.duplicate()),
        }
    }
}

} // verus!
