//! What holds of a node over its whole life, proved from the transitions of
//! the model.
//!
//! A life is a sequence of events, each taken in by one transition. The laws
//! below hold whatever the events are and in whatever order they come.

use crate::election::{has_quorum, quorum};
use crate::join::{joining_address, JoinError};
use crate::log::last_index_of;
use crate::message::{EntryReply, EntryRequest, VoteReply, VoteRequest};
use crate::model::{ConsensusModel, Role};
use vstd::prelude::*;

verus! {

/// Something that happens to a node.
pub enum Event {
    /// The election timer has run out.
    Timeout,
    /// A candidate asks for the node's vote.
    VoteRequested(VoteRequest),
    /// A leader sends a heartbeat or entries.
    EntriesReceived(EntryRequest),
    /// Someone asks to be contacted, with these bytes as the payload.
    JoinRequested(Seq<u8>),
    /// The peer at position `peer` has answered the vote request of the
    /// campaign of `term`, or could not be reached.
    VoteAnswered { term: u64, peer: int, answer: Option<VoteReply> },
    /// A term was seen in some other message, such as the reply to a
    /// heartbeat.
    TermObserved(u64),
    /// The node learns that the entries up to this index are replicated to
    /// a majority.
    CommitReached(u64),
    /// The node appends an entry with this payload to its log.
    EntryAppended(Seq<u8>),
    /// The node discards its entries from this index on.
    SuffixDiscarded(u64),
}

/// The state after `event`. An event that cannot be taken in (a campaign at
/// the last term, an entry behind the last index, the discarding of
/// committed entries) leaves the state as it is.
pub open spec fn step(state: ConsensusModel, event: Event) -> ConsensusModel {
    match event {
        Event::Timeout => if state.can_campaign() {
            state.start_election()
        } else {
            state
        },
        Event::VoteRequested(request) => state.request_vote(request).0,
        Event::EntriesReceived(request) => state.append_entries(request).0,
        Event::JoinRequested(payload) => state.join(payload).0,
        Event::VoteAnswered { term, peer, answer } => state.record_vote(term, peer, answer),
        Event::TermObserved(term) => state.observe_term(term),
        Event::CommitReached(index) => state.commit_through(index),
        Event::EntryAppended(payload) => if state.can_append() {
            state.append_entry(payload)
        } else {
            state
        },
        Event::SuffixDiscarded(from) => if state.can_discard(from) {
            state.discard_from(from)
        } else {
            state
        },
    }
}

/// The state after all of `events`, in order.
pub open spec fn run(state: ConsensusModel, events: Seq<Event>) -> ConsensusModel
    decreases events.len(),
{
    if events.len() == 0 {
        state
    } else {
        step(run(state, events.drop_last()), events.last())
    }
}

/// Every event leads from a valid state to a valid state.
pub proof fn law_step_keeps_validity(state: ConsensusModel, event: Event)
    requires
        state.valid(),
    ensures
        step(state, event).valid(),
{
    let next = step(state, event);
    match event {
        Event::SuffixDiscarded(from) => {
            if state.can_discard(from) && from <= state.log.len() {
                assert(next.log =~= state.log.take(from - 1));
            }
        },
        _ => {},
    }
}

/// A node that starts valid stays valid for life. In particular its commit
/// index never exceeds the index of the last entry it holds.
pub proof fn law_validity_for_life(state: ConsensusModel, events: Seq<Event>)
    requires
        state.valid(),
    ensures
        run(state, events).valid(),
        run(state, events).commit_index <= last_index_of(run(state, events).log),
    decreases events.len(),
{
    if events.len() > 0 {
        law_validity_for_life(state, events.drop_last());
        law_step_keeps_validity(run(state, events.drop_last()), events.last());
    }
}

/// The state of a node that has just started is valid.
pub proof fn law_start_is_valid(id: u8, cluster: Seq<Seq<char>>)
    ensures
        ConsensusModel::init(id, cluster).valid(),
{
}

/// The term of a node never decreases.
pub proof fn law_term_never_decreases(state: ConsensusModel, events: Seq<Event>)
    ensures
        run(state, events).current_term >= state.current_term,
    decreases events.len(),
{
    if events.len() > 0 {
        law_term_never_decreases(state, events.drop_last());
    }
}

/// A term that a message carries is reached by the node that takes the
/// message in: whichever way a term is seen, the node's term is not below it
/// afterwards.
pub proof fn law_seen_term_is_reached(
    state: ConsensusModel,
    vote: VoteRequest,
    entries: EntryRequest,
    campaign: u64,
    peer: int,
    reply: VoteReply,
    term: u64,
)
    ensures
        state.request_vote(vote).0.current_term >= vote.term,
        state.append_entries(entries).0.current_term >= entries.term,
        state.record_vote(campaign, peer, Some(reply)).current_term >= reply.term,
        state.observe_term(term).current_term >= term,
{
}

/// A higher term, once seen, is adopted: the node is in that term, its vote
/// record is empty, and it neither campaigns nor leads.
pub proof fn law_higher_term_ends_candidacy(state: ConsensusModel, term: u64)
    requires
        term > state.current_term,
    ensures
        state.observe_term(term).current_term == term,
        state.observe_term(term).voted_for == None::<u8>,
        state.observe_term(term).role == Role::Follower,
{
}

/// Once a node has reached term `seen`, then whatever happens to it
/// afterwards, it refuses every vote request and every entries call of an
/// earlier term, changes nothing on their account, and replies with its
/// current term, which is `seen` or higher.
pub proof fn law_stale_term_is_refused(
    state: ConsensusModel,
    seen: u64,
    later: Seq<Event>,
    vote: VoteRequest,
    entries: EntryRequest,
)
    requires
        state.current_term >= seen,
        vote.term < seen,
        entries.term < seen,
    ensures
        ({
            let now = run(state, later);
            &&& now.current_term >= seen
            &&& now.request_vote(vote) == (
                now,
                VoteReply { term: now.current_term, grant: false },
            )
            &&& now.append_entries(entries) == (
                now,
                EntryReply { term: now.current_term, success: false },
            )
        }),
{
    law_term_never_decreases(state, later);
}

/// One event never lowers the term, and changes the vote record of a node
/// that has voted only together with the term.
proof fn lemma_step_keeps_vote(state: ConsensusModel, event: Event)
    ensures
        step(state, event).current_term >= state.current_term,
        state.voted_for is Some && step(state, event).current_term == state.current_term
            ==> step(state, event).voted_for == state.voted_for,
{
}

/// Within one term a vote, once cast, stands: no event changes the vote
/// record of a node that has voted, as long as the term stays the same.
pub proof fn law_vote_stands_within_term(state: ConsensusModel, events: Seq<Event>)
    requires
        state.voted_for is Some,
        run(state, events).current_term == state.current_term,
    ensures
        run(state, events).voted_for == state.voted_for,
    decreases events.len(),
{
    if events.len() > 0 {
        let before = run(state, events.drop_last());
        law_term_never_decreases(state, events.drop_last());
        lemma_step_keeps_vote(before, events.last());
        law_vote_stands_within_term(state, events.drop_last());
    }
}

/// The commit index of a node never decreases.
pub proof fn law_commit_never_decreases(state: ConsensusModel, events: Seq<Event>)
    requires
        state.valid(),
    ensures
        run(state, events).commit_index >= state.commit_index,
    decreases events.len(),
{
    if events.len() > 0 {
        law_commit_never_decreases(state, events.drop_last());
        law_validity_for_life(state, events.drop_last());
    }
}

/// Committed entries are never lost or altered: the log up to the commit
/// index of any moment is part of every later log.
pub proof fn law_committed_entries_stay(state: ConsensusModel, events: Seq<Event>)
    requires
        state.valid(),
    ensures
        run(state, events).log.len() >= state.commit_index,
        run(state, events).log.take(state.commit_index as int) == state.log.take(
            state.commit_index as int,
        ),
    decreases events.len(),
{
    if events.len() > 0 {
        let before = run(state, events.drop_last());
        let after = run(state, events);
        law_committed_entries_stay(state, events.drop_last());
        law_commit_never_decreases(state, events.drop_last());
        law_validity_for_life(state, events.drop_last());
        assert(after.log.take(state.commit_index as int) =~= before.log.take(
            state.commit_index as int,
        ));
    }
}

/// A join request whose payload names no address is answered with an error
/// and changes nothing, the membership least of all.
pub proof fn law_unreadable_join_changes_nothing(state: ConsensusModel, payload: Seq<u8>)
    requires
        joining_address(payload) is Err,
    ensures
        state.join(payload).0 == state,
        state.join(payload).1 == Err::<(), JoinError>(joining_address(payload)->Err_0),
{
}

/// A join request whose payload names an address is acknowledged and makes
/// the membership longer by exactly that address, at its end. The campaign
/// that begins next has the address among its targets.
pub proof fn law_join_adds_one_target(state: ConsensusModel, payload: Seq<u8>)
    requires
        joining_address(payload) is Ok,
    ensures
        ({
            let address = joining_address(payload)->Ok_0;
            let joined = state.join(payload).0;
            &&& state.join(payload).1 == Ok::<(), JoinError>(())
            &&& joined.cluster == state.cluster.push(address)
            &&& joined.cluster.len() == state.cluster.len() + 1
            &&& joined.start_election().electorate == joined.cluster
            &&& joined.start_election().electorate.contains(address)
        }),
{
    let address = joining_address(payload)->Ok_0;
    let joined = state.join(payload).0;
    assert(joined.cluster[state.cluster.len() as int] == address);
}

/// The membership only grows: what it holds at any moment, it holds at the
/// same positions ever after.
pub proof fn law_membership_only_grows(state: ConsensusModel, events: Seq<Event>)
    ensures
        run(state, events).cluster.len() >= state.cluster.len(),
        run(state, events).cluster.take(state.cluster.len() as int) == state.cluster,
    decreases events.len(),
{
    if events.len() > 0 {
        let before = run(state, events.drop_last());
        let after = run(state, events);
        law_membership_only_grows(state, events.drop_last());
        assert(after.cluster.take(state.cluster.len() as int) =~= before.cluster.take(
            state.cluster.len() as int,
        ));
    } else {
        assert(state.cluster.take(state.cluster.len() as int) =~= state.cluster);
    }
}

/// The quorum is a strict majority of the voters, the candidate included:
/// `grants` votes win a campaign among `peers` peers exactly when they reach
/// the quorum, and then they are more than half of `peers + 1`, hence more
/// than half of `peers`.
pub proof fn law_quorum_is_strict_majority(grants: nat, peers: nat)
    ensures
        has_quorum(grants, peers) <==> grants >= quorum(peers),
        has_quorum(grants, peers) ==> 2 * grants > peers + 1 && 2 * grants > peers,
        2 * quorum(peers) > peers + 1,
        2 * (quorum(peers) - 1) <= peers + 1,
{
}

/// A node leads only with a quorum: in every valid state of a leader the
/// grants of its campaign, its own included, are a strict majority of the
/// electorate and itself, where the electorate is the membership as it was
/// when the campaign began.
pub proof fn law_leader_holds_quorum(state: ConsensusModel, events: Seq<Event>)
    requires
        state.valid(),
        run(state, events).role == Role::Leader,
    ensures
        has_quorum(run(state, events).grants(), run(state, events).electorate.len()),
        run(state, events).grants() >= quorum(run(state, events).electorate.len()),
        run(state, events).voted_for == Some(run(state, events).id),
{
    law_validity_for_life(state, events);
}

/// A join during a campaign changes neither its electorate nor its tally:
/// taking in a vote and then a join comes to the same as taking in the join
/// first.
pub proof fn law_join_leaves_campaign_alone(
    state: ConsensusModel,
    payload: Seq<u8>,
    term: u64,
    peer: int,
    answer: Option<VoteReply>,
)
    ensures
        state.join(payload).0.electorate == state.electorate,
        state.join(payload).0.supporters == state.supporters,
        state.join(payload).0.record_vote(term, peer, answer) == state.record_vote(
            term,
            peer,
            answer,
        ).join(payload).0,
{
}

} // verus!
