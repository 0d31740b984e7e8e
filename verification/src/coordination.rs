//! The vote messages of two-phase commit. They travel beside the log, on a
//! channel of their own.

use vstd::prelude::*;

pub mod pb;

verus! {

/// The leader asks a peer to vote on a transaction.
#[derive(Debug, Clone, PartialEq, Eq)]
pub struct VoteRequest {
    pub term: u64,
    pub tx_id: String,
    pub last_log_index: u64,
    pub last_log_term: u64,
}

/// A peer's vote. `reason` says why a vote was refused, and is empty when it
/// was granted.
#[derive(Debug, Clone, PartialEq, Eq)]
pub struct VoteResponse {
    pub term: u64,
    pub vote_granted: bool,
    pub reason: String,
}

#[verifier::ext_equal]
pub struct VoteRequestModel {
    pub term: u64,
    pub tx_id: Seq<char>,
    pub last_log_index: u64,
    pub last_log_term: u64,
}

#[verifier::ext_equal]
pub struct VoteResponseModel {
    pub term: u64,
    pub vote_granted: bool,
    pub reason: Seq<char>,
}

impl DeepView for VoteRequest {
    type V = VoteRequestModel;

    open spec fn deep_view(&self) -> VoteRequestModel {
        VoteRequestModel {
            term: self.term,
            tx_id: self.tx_id@,
            last_log_index: self.last_log_index,
            last_log_term: self.last_log_term,
        }
    }
}

impl DeepView for VoteResponse {
    type V = VoteResponseModel;

    open spec fn deep_view(&self) -> VoteResponseModel {
        VoteResponseModel { term: self.term, vote_granted: self.vote_granted, reason: self.reason@ }
    }
}

impl From<&VoteRequest> for pb::VoteRequest {
    fn from(d: &VoteRequest) -> (message: Self) {
        pb::VoteRequest {
            term: d.term,
            tx_id: d.tx_id.clone(),
            last_log_index: d.last_log_index,
            last_log_term: d.last_log_term,
        }
    }
}

impl vstd::std_specs::convert::FromSpecImpl<&VoteRequest> for pb::VoteRequest {
    open spec fn obeys_from_spec() -> bool {
        true
    }

    open spec fn from_spec(d: &VoteRequest) -> Self {
        pb::VoteRequest {
            term: d.term,
            tx_id: d.tx_id,
            last_log_index: d.last_log_index,
            last_log_term: d.last_log_term,
        }
    }
}

impl From<&VoteResponse> for pb::VoteResponse {
    fn from(d: &VoteResponse) -> (message: Self) {
        pb::VoteResponse { term: d.term, vote_granted: d.vote_granted, reason: d.reason.clone() }
    }
}

impl vstd::std_specs::convert::FromSpecImpl<&VoteResponse> for pb::VoteResponse {
    open spec fn obeys_from_spec() -> bool {
        true
    }

    open spec fn from_spec(d: &VoteResponse) -> Self {
        pb::VoteResponse { term: d.term, vote_granted: d.vote_granted, reason: d.reason }
    }
}

impl From<pb::VoteRequest> for VoteRequest {
    fn from(p: pb::VoteRequest) -> (request: Self) {
        VoteRequest {
            term: p.term,
            tx_id: p.tx_id,
            last_log_index: p.last_log_index,
            last_log_term: p.last_log_term,
        }
    }
}

impl vstd::std_specs::convert::FromSpecImpl<pb::VoteRequest> for VoteRequest {
    open spec fn obeys_from_spec() -> bool {
        true
    }

    open spec fn from_spec(p: pb::VoteRequest) -> Self {
        VoteRequest {
            term: p.term,
            tx_id: p.tx_id,
            last_log_index: p.last_log_index,
            last_log_term: p.last_log_term,
        }
    }
}

impl From<pb::VoteResponse> for VoteResponse {
    fn from(p: pb::VoteResponse) -> (response: Self) {
        VoteResponse { term: p.term, vote_granted: p.vote_granted, reason: p.reason }
    }
}

impl vstd::std_specs::convert::FromSpecImpl<pb::VoteResponse> for VoteResponse {
    open spec fn obeys_from_spec() -> bool {
        true
    }

    open spec fn from_spec(p: pb::VoteResponse) -> Self {
        VoteResponse { term: p.term, vote_granted: p.vote_granted, reason: p.reason }
    }
}

} // verus!
