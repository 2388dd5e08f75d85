//! The authoritative protocol state of a node and the transitions that the
//! node itself initiates: campaigns, the tally of their votes, stepping
//! down, and what it does to its own log.

use crate::election::quorum_size;
use crate::log::RaftLog;
use crate::membership::{texts, ClusterMembership};
use crate::message::{EntryRequest, VoteReply, VoteRequest};
use crate::model::{ConsensusModel, Role};
use crate::timer::ElectionTimer;
use vstd::prelude::*;
use vstd::set_lib::*;

verus! {

/// The positions at which `granted` holds `true`.
pub open spec fn positions_granted(granted: Seq<bool>) -> Set<int> {
    Set::new(|i: int| 0 <= i < granted.len() && granted[i])
}

proof fn lemma_positions_bounded(granted: Seq<bool>)
    ensures
        positions_granted(granted).finite(),
        positions_granted(granted).len() <= granted.len(),
{
    let range = set_int_range(0, granted.len() as int);
    lemma_int_range(0, granted.len() as int);
    assert(positions_granted(granted).subset_of(range));
    lemma_len_subset(positions_granted(granted), range);
}

/// What a campaign sends out: the request, and the peers to send it to. A
/// reply is reported back under the position of its peer in `targets`.
#[derive(Debug)]
pub struct Campaign {
    pub request: VoteRequest,
    pub targets: Vec<String>,
}

/// Term, vote record, log, commit index and membership of one node, with
/// the tally of its latest campaign.
#[derive(Debug)]
pub struct ConsensusState {
    id: u8,
    current_term: u64,
    voted_for: Option<u8>,
    role: Role,
    log: RaftLog,
    commit_index: u64,
    cluster: ClusterMembership,
    electorate: Vec<String>,
    granted: Vec<bool>,
    peer_grants: usize,
}

impl View for ConsensusState {
    type V = ConsensusModel;

    closed spec fn view(&self) -> ConsensusModel {
        ConsensusModel {
            id: self.id,
            current_term: self.current_term,
            voted_for: self.voted_for,
            role: self.role,
            log: self.log@,
            commit_index: self.commit_index,
            cluster: self.cluster@,
            electorate: texts(self.electorate@),
            supporters: positions_granted(self.granted@),
        }
    }
}

impl ConsensusState {
    /// The tally that is kept beside the grants agrees with them.
    pub closed spec fn consistent(&self) -> bool {
        &&& self.log.wf()
        &&& self.granted@.len() == self.electorate@.len()
        &&& self.peer_grants == positions_granted(self.granted@).len()
    }

    /// The state is one a node can be in.
    pub open spec fn wf(&self) -> bool {
        self@.valid() && self.consistent()
    }

    /// The state of a node `id` that starts with `cluster` as its peers.
    pub fn new(id: u8, cluster: ClusterMembership) -> (state: Self)
        ensures
            state.wf(),
            state@ == ConsensusModel::init(id, cluster@),
    {
        let state = ConsensusState {
            id,
            current_term: 0,
            voted_for: None,
            role: Role::Follower,
            log: RaftLog::new(),
            commit_index: 0,
            cluster,
            electorate: Vec::new(),
            granted: Vec::new(),
            peer_grants: 0,
        };
        proof {
            assert(positions_granted(state.granted@) =~= Set::<int>::empty());
            assert(texts(state.electorate@) =~= Seq::<Seq<char>>::empty());
        }
        state
    }

    /// Adopts `term` if it is higher than the current term, which empties
    /// the vote record and makes the node a follower.
    pub fn observe_term(&mut self, term: u64)
        requires
            old(self).wf(),
        ensures
            final(self).wf(),
            final(self)@ == old(self)@.observe_term(term),
    {
        if term > self.current_term {
            self.current_term = term;
            self.voted_for = None;
            self.role = Role::Follower;
        }
    }

    /// Raises the commit index towards `index`: to `index` itself or, if the
    /// log ends before it, to the index of the last entry held. An `index`
    /// that is not beyond the commit index changes nothing.
    pub fn commit_through(&mut self, index: u64)
        requires
            old(self).wf(),
        ensures
            final(self).wf(),
            final(self)@ == old(self)@.commit_through(index),
    {
        if index > self.commit_index {
            let last_entry_index = self.log.last_index();
            self.commit_index = if index <= last_entry_index {
                index
            } else {
                last_entry_index
            };
        }
    }

    /// Appends `address` to the membership.
    pub fn enroll(&mut self, address: String)
        requires
            old(self).wf(),
        ensures
            final(self).wf(),
            final(self)@ == old(self)@.enroll(address@),
    {
        self.cluster.add(address);
    }

    /// Begins a campaign at the instant `now` and returns what is to be sent
    /// to whom.
    ///
    /// The term goes up by one, the node votes for itself, and `timer` is
    /// restarted with the freshly drawn `timeout`. The peers of this moment
    /// are the electorate of the campaign: members that join later neither
    /// receive the request nor move the majority.
    pub fn start_election(&mut self, timer: &mut ElectionTimer, now: u64, timeout: u64) -> (campaign:
        Campaign)
        requires
            old(self).wf(),
            old(self)@.can_campaign(),
        ensures
            final(self).wf(),
            final(self)@ == old(self)@.start_election(),
            *final(timer) == (ElectionTimer { last_reset: now, timeout }),
            campaign.request == (VoteRequest {
                term: final(self)@.current_term,
                candidate_id: old(self)@.id as u64,
            }),
            texts(campaign.targets@) == old(self)@.cluster,
    {
        let targets = self.cluster.snapshot();
        let electorate = self.cluster.snapshot();
        let mut granted: Vec<bool> = Vec::new();
        let mut i: usize = 0;
        while i < electorate.len()
            invariant
                i <= electorate.len(),
                granted@.len() == i,
                forall|j: int| 0 <= j < i ==> !granted@[j],
            decreases electorate.len() - i,
        {
            granted.push(false);
            i += 1;
        }
        proof {
            assert(positions_granted(granted@) =~= Set::<int>::empty());
        }
        self.role = if electorate.len() == 0 {
            Role::Leader
        } else {
            Role::Candidate
        };
        self.current_term = self.current_term + 1;
        self.voted_for = Some(self.id);
        timer.reset(now, timeout);
        self.electorate = electorate;
        self.granted = granted;
        self.peer_grants = 0;
        Campaign {
            request: VoteRequest { term: self.current_term, candidate_id: self.id as u64 },
            targets,
        }
    }

    /// Takes in what came of the vote request that the campaign of `term`
    /// sent to the peer at position `peer` of its targets, and returns the
    /// node's role afterwards. `None` stands for a peer that could not be
    /// reached: it is left out of the tally.
    pub fn record_vote(&mut self, term: u64, peer: usize, answer: Option<VoteReply>) -> (role:
        Role)
        requires
            old(self).wf(),
        ensures
            final(self).wf(),
            final(self)@ == old(self)@.record_vote(term, peer as int, answer),
            role == final(self)@.role,
    {
        match answer {
            None => {},
            Some(reply) => {
                if reply.term > self.current_term {
                    self.observe_term(reply.term);
                } else if reply.grant && self.role == Role::Candidate && term == self.current_term
                    && peer < self.granted.len() && !self.granted[peer] {
                    let ghost before = positions_granted(self.granted@);
                    proof {
                        lemma_positions_bounded(self.granted@);
                        lemma_positions_bounded(self.granted@.update(peer as int, true));
                        assert(positions_granted(self.granted@.update(peer as int, true))
                            =~= before.insert(peer as int));
                    }
                    self.granted.set(peer, true);
                    self.peer_grants = self.peer_grants + 1;
                    if self.peer_grants >= quorum_size(self.electorate.len()) - 1 {
                        self.role = Role::Leader;
                    }
                }
            },
        }
        self.role
    }

    /// The call a leader sends to its peers, as a heartbeat or to replicate,
    /// for a follower assumed to have reached `prev_index`. A node that does
    /// not lead has nothing to send.
    pub fn entries_request(&self, prev_index: u64) -> (request: Option<EntryRequest>)
        ensures
            request == if self@.role == Role::Leader {
                Some(
                    EntryRequest {
                        term: self@.current_term,
                        prev_index,
                        commit_index: self@.commit_index,
                    },
                )
            } else {
                None
            },
    {
        if self.role == Role::Leader {
            Some(
                EntryRequest {
                    term: self.current_term,
                    prev_index,
                    commit_index: self.commit_index,
                },
            )
        } else {
            None
        }
    }

    /// Appends an entry of the current term with `payload` to the log and
    /// returns its index.
    pub fn append_entry(&mut self, payload: Vec<u8>) -> (index: u64)
        requires
            old(self).wf(),
            old(self)@.can_append(),
        ensures
            final(self).wf(),
            final(self)@ == old(self)@.append_entry(payload@),
            index == old(self)@.log.len() + 1,
    {
        self.log.append(self.current_term, payload)
    }

    /// Discards the entries whose index is `from` or greater, so that a
    /// conflicting suffix can be replaced. Committed entries are never
    /// discarded: where `from` is not beyond the commit index, nothing
    /// happens and the result is `false`.
    pub fn discard_from(&mut self, from: u64) -> (done: bool)
        requires
            old(self).wf(),
        ensures
            final(self).wf(),
            done == old(self)@.can_discard(from),
            final(self)@ == if done {
                old(self)@.discard_from(from)
            } else {
                old(self)@
            },
    {
        if from > self.commit_index {
            self.log.discard_from(from);
            true
        } else {
            false
        }
    }

    /// The node's identity.
    pub fn id(&self) -> (id: u8)
        ensures
            id == self@.id,
    {
        self.id
    }

    /// The term the node is in.
    pub fn current_term(&self) -> (term: u64)
        ensures
            term == self@.current_term,
    {
        self.current_term
    }

    /// The identity the node voted for in its current term, if any.
    pub fn voted_for(&self) -> (vote: Option<u8>)
        ensures
            vote == self@.voted_for,
    {
        self.voted_for
    }

    /// The part the node plays in its current term.
    pub fn role(&self) -> (role: Role)
        ensures
            role == self@.role,
    {
        self.role
    }

    /// The highest index known to be committed.
    pub fn commit_index(&self) -> (index: u64)
        ensures
            index == self@.commit_index,
    {
        self.commit_index
    }

    /// The index of the last entry held, 0 when the log is empty.
    pub fn last_log_index(&self) -> (index: u64)
        requires
            self.wf(),
        ensures
            index == self@.log.len(),
    {
        self.log.last_index()
    }

    /// The log.
    pub fn log(&self) -> (log: &RaftLog)
        ensures
            log@ == self@.log,
    {
        &self.log
    }

    /// The peers.
    pub fn cluster(&self) -> (cluster: &ClusterMembership)
        ensures
            cluster@ == self@.cluster,
    {
        &self.cluster
    }

    /// The number of peers whose grant has been tallied in the latest
    /// campaign. The node's own vote comes on top of these.
    pub fn peer_grants(&self) -> (grants: usize)
        requires
            self.wf(),
        ensures
            grants == self@.supporters.len(),
            grants + 1 == self@.grants(),
    {
        self.peer_grants
    }
}

} // verus!
