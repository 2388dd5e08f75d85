//! The consensus state as a mathematical value, and each protocol transition
//! as a function from one such value to the next. The executable types are
//! specified against these functions.

use crate::election::has_quorum;
use crate::join::{joining_address, JoinError};
use crate::log::{last_index_of, well_numbered, LogEntryView};
use crate::message::{EntryReply, EntryRequest, VoteReply, VoteRequest};
use vstd::prelude::*;

verus! {

/// The part a node plays in the current term.
#[derive(Clone, Copy, Debug, PartialEq, Eq, Structural)]
pub enum Role {
    Follower,
    Candidate,
    Leader,
}

/// The protocol state of one node.
pub struct ConsensusModel {
    /// The node's identity, fixed for its lifetime.
    pub id: u8,
    /// The election epoch the node is in.
    pub current_term: u64,
    /// The identity the node voted for in `current_term`, if it has voted.
    pub voted_for: Option<u8>,
    pub role: Role,
    pub log: Seq<LogEntryView>,
    /// The highest log index known to be replicated to a majority.
    pub commit_index: u64,
    /// The peers' addresses; the node itself is not among them.
    pub cluster: Seq<Seq<char>>,
    /// The membership as it was when the latest campaign began.
    pub electorate: Seq<Seq<char>>,
    /// The positions in `electorate` of the peers whose grant has been
    /// tallied in the latest campaign.
    pub supporters: Set<int>,
}

/// The lesser of two indices.
pub open spec fn min_index(a: u64, b: u64) -> u64 {
    if a <= b {
        a
    } else {
        b
    }
}

impl ConsensusModel {
    /// What holds of every state a node can be in.
    pub open spec fn valid(self) -> bool {
        &&& well_numbered(self.log)
        &&& self.log.len() <= u64::MAX
        &&& self.commit_index <= last_index_of(self.log)
        &&& self.supporters.finite()
        &&& forall|i: int| self.supporters.contains(i) ==> 0 <= i < self.electorate.len()
        &&& self.role != Role::Follower ==> self.voted_for == Some(self.id)
        &&& self.role == Role::Leader ==> has_quorum(self.grants(), self.electorate.len())
    }

    /// The affirmative votes of the latest campaign, the node's own included.
    pub open spec fn grants(self) -> nat {
        self.supporters.len() + 1
    }

    /// The state of a node that has just started: term 0, no vote cast,
    /// nothing logged, nothing committed.
    pub open spec fn init(id: u8, cluster: Seq<Seq<char>>) -> ConsensusModel {
        ConsensusModel {
            id,
            current_term: 0,
            voted_for: None,
            role: Role::Follower,
            log: Seq::empty(),
            commit_index: 0,
            cluster,
            electorate: Seq::empty(),
            supporters: Set::empty(),
        }
    }

    /// Seeing `term` anywhere: a higher term is adopted, which empties the
    /// vote record and ends any candidacy or leadership; any other term
    /// changes nothing.
    pub open spec fn observe_term(self, term: u64) -> ConsensusModel {
        if term > self.current_term {
            ConsensusModel { current_term: term, voted_for: None, role: Role::Follower, ..self }
        } else {
            self
        }
    }

    /// Handling a vote request: the state afterwards and the reply.
    ///
    /// A request from an earlier term is refused. Any other request has its
    /// term observed; the vote is then granted exactly when the node's vote
    /// record for its current term names the node itself. The candidate in
    /// the request is not consulted.
    pub open spec fn request_vote(self, request: VoteRequest) -> (ConsensusModel, VoteReply) {
        if request.term < self.current_term {
            (self, VoteReply { term: self.current_term, grant: false })
        } else {
            let next = self.observe_term(request.term);
            (
                next,
                VoteReply { term: next.current_term, grant: next.voted_for == Some(next.id) },
            )
        }
    }

    /// Raising the commit index towards `index`: to the lesser of `index`
    /// and the index of the last entry held, if that is a rise.
    pub open spec fn commit_through(self, index: u64) -> ConsensusModel {
        if index > self.commit_index {
            ConsensusModel {
                commit_index: min_index(index, last_index_of(self.log) as u64),
                ..self
            }
        } else {
            self
        }
    }

    /// Handling a heartbeat or replication call: the state afterwards and the
    /// reply.
    ///
    /// A call from an earlier term is refused. Otherwise its term is
    /// observed; the call is refused if its `prev_index` lies beyond the
    /// local commit index; else it succeeds, and the commit index is raised
    /// towards the caller's commit index.
    pub open spec fn append_entries(self, request: EntryRequest) -> (ConsensusModel, EntryReply) {
        if request.term < self.current_term {
            (self, EntryReply { term: self.current_term, success: false })
        } else {
            let seen = self.observe_term(request.term);
            if request.prev_index > seen.commit_index {
                (seen, EntryReply { term: seen.current_term, success: false })
            } else {
                (
                    seen.commit_through(request.commit_index),
                    EntryReply { term: seen.current_term, success: true },
                )
            }
        }
    }

    /// Taking `address` into the membership, at its end.
    pub open spec fn enroll(self, address: Seq<char>) -> ConsensusModel {
        ConsensusModel { cluster: self.cluster.push(address), ..self }
    }

    /// Handling a join request: the state afterwards and the answer.
    ///
    /// A payload that names an address has that address enrolled, in its
    /// normal text, whether or not it is a member already. Any other payload
    /// is turned down and changes nothing.
    pub open spec fn join(self, payload: Seq<u8>) -> (ConsensusModel, Result<(), JoinError>) {
        match joining_address(payload) {
            Ok(address) => (self.enroll(address), Ok(())),
            Err(error) => (self, Err(error)),
        }
    }

    /// Whether a campaign can begin: the term can still be incremented.
    pub open spec fn can_campaign(self) -> bool {
        self.current_term < u64::MAX
    }

    /// Beginning a campaign: the term goes up by one, the node votes for
    /// itself, and the membership of this moment becomes the electorate. A
    /// node without peers holds a majority by its own vote and leads at once.
    pub open spec fn start_election(self) -> ConsensusModel {
        ConsensusModel {
            current_term: (self.current_term + 1) as u64,
            voted_for: Some(self.id),
            role: if has_quorum(1, self.cluster.len()) {
                Role::Leader
            } else {
                Role::Candidate
            },
            electorate: self.cluster,
            supporters: Set::empty(),
            ..self
        }
    }

    /// Whether a grant from the peer at position `peer`, given in answer to
    /// the campaign of `term`, still counts: the node is a candidate in that
    /// very term, and that peer's grant has not been tallied before.
    pub open spec fn counts(self, term: u64, peer: int) -> bool {
        &&& self.role == Role::Candidate
        &&& term == self.current_term
        &&& 0 <= peer < self.electorate.len()
        &&& !self.supporters.contains(peer)
    }

    /// Taking in what came of the vote request sent to the peer at position
    /// `peer` for the campaign of `term`; `None` stands for a peer that
    /// could not be reached.
    ///
    /// A reply from a higher term is adopted and ends the candidacy, before
    /// anything is tallied. Otherwise a grant that counts is tallied, and
    /// the node leads as soon as the tally is a majority of the electorate
    /// and itself. Nothing else changes the state.
    pub open spec fn record_vote(self, term: u64, peer: int, answer: Option<VoteReply>)
        -> ConsensusModel {
        match answer {
            None => self,
            Some(reply) => {
                if reply.term > self.current_term {
                    self.observe_term(reply.term)
                } else if reply.grant && self.counts(term, peer) {
                    let supporters = self.supporters.insert(peer);
                    ConsensusModel {
                        supporters,
                        role: if has_quorum(supporters.len() + 1, self.electorate.len()) {
                            Role::Leader
                        } else {
                            Role::Candidate
                        },
                        ..self
                    }
                } else {
                    self
                }
            },
        }
    }

    /// Whether one more entry can be appended: its index is representable.
    pub open spec fn can_append(self) -> bool {
        self.log.len() < u64::MAX
    }

    /// Appending an entry of the current term at the end of the log.
    pub open spec fn append_entry(self, payload: Seq<u8>) -> ConsensusModel {
        ConsensusModel {
            log: self.log.push(
                LogEntryView {
                    index: (self.log.len() + 1) as u64,
                    term: self.current_term,
                    payload,
                },
            ),
            ..self
        }
    }

    /// Whether the entries from index `from` on may be discarded: none of
    /// them is committed.
    pub open spec fn can_discard(self, from: u64) -> bool {
        from > self.commit_index
    }

    /// Discarding the entries whose index is `from` or greater.
    pub open spec fn discard_from(self, from: u64) -> ConsensusModel {
        if from <= self.log.len() {
            ConsensusModel { log: self.log.take(from - 1), ..self }
        } else {
            self
        }
    }
}

} // verus!
