//! A node of the cluster: the consensus state, the progress of the user's
//! state machine, and the entry points through which requests from other
//! members and the election timer reach them.
//!
//! A node is owned by one caller at a time. A program that serves requests
//! and runs the timer concurrently keeps the node behind one lock, or feeds
//! one owner from a queue, and calls an entry point for each event.

use crate::applied::AppliedStateMachine;
use crate::consensus::{Campaign, ConsensusState};
use crate::join::{read_join_payload, JoinError};
use crate::membership::{texts, without, without_address, ClusterMembership};
use crate::message::{EntryReply, EntryRequest, VoteReply, VoteRequest};
use crate::model::ConsensusModel;
use crate::timer::ElectionTimer;
use vstd::prelude::*;

verus! {

/// The state of one member of the cluster.
#[derive(Debug)]
pub struct RaftNode {
    pub details: ConsensusState,
    pub state: AppliedStateMachine,
}

impl RaftNode {
    /// The consensus state is one a node can be in.
    pub open spec fn wf(&self) -> bool {
        self.details.wf()
    }

    /// The state of node `id` as it starts: term 0, nothing voted, logged,
    /// committed or applied. Its peers are `nodes` without `local_addr`, the
    /// address the node itself listens on.
    pub fn start(id: u8, local_addr: String, nodes: Vec<String>) -> (node: Self)
        ensures
            node.wf(),
            node.details@ == ConsensusModel::init(id, without(texts(nodes@), local_addr@)),
            node.state@ == 0,
    {
        let peers = without_address(&nodes, &local_addr);
        RaftNode {
            details: ConsensusState::new(id, ClusterMembership::new(peers)),
            state: AppliedStateMachine::new(),
        }
    }

    /// One turn of the timer loop at the instant `now`. If `timer` has run
    /// out, it is restarted with `next_timeout` and a campaign begins, whose
    /// request and targets are returned for sending. Otherwise nothing
    /// changes.
    pub fn run(&mut self, timer: &mut ElectionTimer, now: u64, next_timeout: u64) -> (campaign:
        Option<Campaign>)
        requires
            old(self).wf(),
            old(timer).expired(now) ==> old(self).details@.can_campaign(),
        ensures
            final(self).wf(),
            final(self).state@ == old(self).state@,
            old(timer).expired(now) ==> {
                &&& *final(timer) == (ElectionTimer { last_reset: now, timeout: next_timeout })
                &&& final(self).details@ == old(self).details@.start_election()
                &&& campaign matches Some(c)
                &&& c.request == (VoteRequest {
                    term: final(self).details@.current_term,
                    candidate_id: old(self).details@.id as u64,
                })
                &&& texts(c.targets@) == old(self).details@.cluster
            },
            !old(timer).expired(now) ==> {
                &&& *final(timer) == *old(timer)
                &&& final(self).details@ == old(self).details@
                &&& campaign is None
            },
    {
        if timer.is_expired(now) {
            Some(self.details.start_election(timer, now, next_timeout))
        } else {
            None
        }
    }

    /// Answers a vote request.
    ///
    /// A request from an earlier term is refused. Otherwise the request's
    /// term is observed, and the vote is granted exactly when the node's own
    /// vote record for its current term names the node itself; the candidate
    /// named in the request is not compared with the vote record. The reply
    /// always carries the node's term as it is after the call.
    pub fn request_vote(&mut self, request: VoteRequest) -> (reply: VoteReply)
        requires
            old(self).wf(),
        ensures
            final(self).wf(),
            final(self).details@ == old(self).details@.request_vote(request).0,
            reply == old(self).details@.request_vote(request).1,
            final(self).state@ == old(self).state@,
    {
        if request.term < self.details.current_term() {
            return VoteReply { term: self.details.current_term(), grant: false };
        }
        self.details.observe_term(request.term);
        let grant = match self.details.voted_for() {
            Some(chosen) => chosen == self.details.id(),
            None => false,
        };
        VoteReply { term: self.details.current_term(), grant }
    }

    /// Answers a heartbeat or replication call.
    ///
    /// A call from an earlier term is refused. Otherwise its term is
    /// observed. The call is then refused if its `prev_index` is beyond the
    /// local commit index. Else it succeeds and, if its commit index is
    /// beyond the local one, the local commit index rises to the lesser of
    /// the caller's commit index and the index of the last entry held, so
    /// that the node never claims to have committed what it does not hold.
    /// The reply always carries the node's term as it is after the call.
    pub fn append_entries(&mut self, request: EntryRequest) -> (reply: EntryReply)
        requires
            old(self).wf(),
        ensures
            final(self).wf(),
            final(self).details@ == old(self).details@.append_entries(request).0,
            reply == old(self).details@.append_entries(request).1,
            final(self).state@ == old(self).state@,
    {
        if request.term < self.details.current_term() {
            return EntryReply { term: self.details.current_term(), success: false };
        }
        self.details.observe_term(request.term);
        if request.prev_index > self.details.commit_index() {
            return EntryReply { term: self.details.current_term(), success: false };
        }
        self.details.commit_through(request.commit_index);
        EntryReply { term: self.details.current_term(), success: true }
    }

    /// Answers a join request whose payload is `payload`.
    ///
    /// The payload is decoded as UTF-8 text, and the text is read as a
    /// socket address. Where both succeed, the address is appended to the
    /// membership in its normal text, at once and without a check for
    /// duplicates. Where either fails, the membership stays as it is and the
    /// error says which of the two failed.
    pub fn join(&mut self, payload: Vec<u8>) -> (answer: Result<(), JoinError>)
        requires
            old(self).wf(),
        ensures
            final(self).wf(),
            final(self).details@ == old(self).details@.join(payload@).0,
            answer == old(self).details@.join(payload@).1,
            final(self).state@ == old(self).state@,
    {
        match read_join_payload(payload) {
            Ok(address) => {
                self.details.enroll(address);
                Ok(())
            },
            Err(error) => Err(error),
        }
    }
}

} // verus!
