//! The request and reply values of the two consensus calls.

use vstd::prelude::*;

verus! {

/// A candidate's solicitation for a vote in `term`.
#[derive(Clone, Copy, Debug, PartialEq, Eq, Structural)]
pub struct VoteRequest {
    pub term: u64,
    pub candidate_id: u64,
}

/// The answer to a [`VoteRequest`]: the answering node's term and its verdict.
#[derive(Clone, Copy, Debug, PartialEq, Eq, Structural)]
pub struct VoteReply {
    pub term: u64,
    pub grant: bool,
}

/// A leader's heartbeat or replication call. `prev_index` is the index the
/// leader assumes the follower has reached, `commit_index` the leader's own
/// commit index.
#[derive(Clone, Copy, Debug, PartialEq, Eq, Structural)]
pub struct EntryRequest {
    pub term: u64,
    pub prev_index: u64,
    pub commit_index: u64,
}

/// The answer to an [`EntryRequest`].
#[derive(Clone, Copy, Debug, PartialEq, Eq, Structural)]
pub struct EntryReply {
    pub term: u64,
    pub success: bool,
}

} // verus!
