use raft_node::applied::AppliedStateMachine;
use raft_node::consensus::ConsensusState;
use raft_node::log::RaftLog;
use raft_node::membership::{without_address, ClusterMembership};
use raft_node::message::{EntryReply, EntryRequest, VoteReply, VoteRequest};
use raft_node::model::Role;
use raft_node::node::RaftNode;
use raft_node::timer::ElectionTimer;

fn lone_node() -> RaftNode {
    RaftNode::start(7, "10.0.0.7:7000".to_string(), vec!["10.0.0.8:7000".to_string()])
}

fn campaign(state: &mut ConsensusState) {
    let mut timer = ElectionTimer::new(0, 10);
    state.start_election(&mut timer, 11, 10);
}

fn vote(term: u64) -> VoteRequest {
    VoteRequest { term, candidate_id: 9 }
}

fn entries(term: u64, prev_index: u64, commit_index: u64) -> EntryRequest {
    EntryRequest { term, prev_index, commit_index }
}

#[test]
fn a_node_that_has_not_voted_for_itself_grants_nothing() {
    let mut node = lone_node();
    assert_eq!(node.request_vote(vote(0)), VoteReply { term: 0, grant: false });
    assert_eq!(node.request_vote(vote(2)), VoteReply { term: 2, grant: false });
    assert_eq!(node.details.current_term(), 2);
    assert_eq!(node.details.voted_for(), None);
}

#[test]
fn a_node_affirms_its_own_vote_of_the_current_term() {
    let mut node = lone_node();
    campaign(&mut node.details);
    assert_eq!(node.details.voted_for(), Some(7));
    assert_eq!(node.request_vote(vote(1)), VoteReply { term: 1, grant: true });
    assert_eq!(
        node.request_vote(VoteRequest { term: 1, candidate_id: 7 }),
        VoteReply { term: 1, grant: true }
    );
    assert_eq!(node.request_vote(vote(0)), VoteReply { term: 1, grant: false });
    assert_eq!(node.details.role(), Role::Candidate);
}

#[test]
fn a_request_of_a_higher_term_empties_the_vote_record() {
    let mut node = lone_node();
    campaign(&mut node.details);
    assert_eq!(node.request_vote(vote(6)), VoteReply { term: 6, grant: false });
    assert_eq!(node.details.current_term(), 6);
    assert_eq!(node.details.voted_for(), None);
    assert_eq!(node.details.role(), Role::Follower);
}

#[test]
fn once_a_term_is_seen_earlier_terms_are_refused() {
    let mut node = lone_node();
    node.details.append_entry(vec![1]);
    assert!(node.append_entries(entries(9, 0, 0)).success);
    for stale in [0, 1, 8] {
        assert_eq!(node.request_vote(vote(stale)), VoteReply { term: 9, grant: false });
        assert_eq!(node.append_entries(entries(stale, 0, 1)), EntryReply { term: 9, success: false });
        assert_eq!(node.details.commit_index(), 0);
    }
    campaign(&mut node.details);
    assert_eq!(node.request_vote(vote(9)), VoteReply { term: 10, grant: false });
    assert_eq!(node.append_entries(entries(9, 0, 1)), EntryReply { term: 10, success: false });
    assert_eq!(node.details.role(), Role::Candidate);
}

#[test]
fn the_commit_index_never_goes_back_or_past_the_log() {
    let mut node = lone_node();
    assert_eq!(node.append_entries(entries(1, 0, 5)), EntryReply { term: 1, success: true });
    assert_eq!(node.details.commit_index(), 0);
    for _ in 0..6 {
        node.details.append_entry(Vec::new());
    }
    let mut last = 0;
    for (prev, commit, success, expected) in [
        (0, 2, true, 2),
        (2, 1, true, 2),
        (3, 9, false, 2),
        (1, 4, true, 4),
        (4, 4, true, 4),
        (4, 0, true, 4),
        (0, u64::MAX, true, 6),
        (u64::MAX, u64::MAX, false, 6),
        (6, 7, true, 6),
    ] {
        let reply = node.append_entries(entries(1, prev, commit));
        assert_eq!(reply, EntryReply { term: 1, success });
        assert_eq!(node.details.commit_index(), expected);
        assert!(node.details.commit_index() >= last);
        assert!(node.details.commit_index() <= node.details.last_log_index());
        last = node.details.commit_index();
    }
}

#[test]
fn entries_of_a_higher_term_end_a_leadership() {
    let mut state = ConsensusState::new(1, ClusterMembership::new(Vec::new()));
    campaign(&mut state);
    assert_eq!(state.role(), Role::Leader);
    let mut node = RaftNode { details: state, state: AppliedStateMachine::new() };
    assert_eq!(node.append_entries(entries(1, 0, 0)), EntryReply { term: 1, success: true });
    assert_eq!(node.details.role(), Role::Leader);
    assert_eq!(node.append_entries(entries(2, 5, 0)), EntryReply { term: 2, success: false });
    assert_eq!(node.details.role(), Role::Follower);
    assert_eq!(node.details.current_term(), 2);
}

#[test]
fn entries_are_numbered_from_one() {
    let mut log = RaftLog::new();
    assert_eq!(log.last_index(), 0);
    assert!(log.get(0).is_none());
    assert!(log.get(1).is_none());
    assert_eq!(log.append(3, vec![10]), 1);
    assert_eq!(log.append(3, vec![20]), 2);
    assert_eq!(log.append(4, vec![30]), 3);
    assert_eq!(log.last_index(), 3);
    let second = log.get(2).unwrap();
    assert_eq!((second.index, second.term, second.payload.clone()), (2, 3, vec![20]));
    assert!(log.get(4).is_none());
    log.discard_from(5);
    assert_eq!(log.last_index(), 3);
    log.discard_from(3);
    assert_eq!(log.last_index(), 2);
    assert_eq!(log.append(5, vec![31]), 3);
    assert_eq!(log.get(3).unwrap().term, 5);
    log.discard_from(0);
    assert_eq!(log.last_index(), 0);
}

#[test]
fn committed_entries_are_not_discarded() {
    let mut node = lone_node();
    for i in 0..5u8 {
        node.details.append_entry(vec![i]);
    }
    node.append_entries(entries(0, 0, 3));
    assert_eq!(node.details.commit_index(), 3);
    assert!(!node.details.discard_from(0));
    assert!(!node.details.discard_from(1));
    assert!(!node.details.discard_from(3));
    assert_eq!(node.details.last_log_index(), 5);
    assert!(node.details.discard_from(9));
    assert_eq!(node.details.last_log_index(), 5);
    assert!(node.details.discard_from(4));
    assert_eq!(node.details.last_log_index(), 3);
    assert_eq!(node.details.log().get(3).unwrap().payload, vec![2]);
    assert_eq!(node.details.append_entry(vec![9]), 4);
}

#[test]
fn committed_entries_are_handed_over_once_and_in_order() {
    let mut node = lone_node();
    assert!(node.state.take_committed(&node.details).is_empty());
    for i in 0..5u8 {
        node.details.append_entry(vec![i]);
    }
    assert!(node.state.take_committed(&node.details).is_empty());
    node.append_entries(entries(2, 0, 2));
    let first = node.state.take_committed(&node.details);
    assert_eq!(first.iter().map(|e| e.index).collect::<Vec<_>>(), vec![1, 2]);
    assert_eq!(first[1].payload, vec![1]);
    assert_eq!(first[1].term, 0);
    assert_eq!(node.state.last_applied(), 2);
    assert!(node.state.take_committed(&node.details).is_empty());
    node.append_entries(entries(2, 2, 9));
    let second = node.state.take_committed(&node.details);
    assert_eq!(second.iter().map(|e| e.index).collect::<Vec<_>>(), vec![3, 4, 5]);
    assert_eq!(node.state.last_applied(), 5);
    let fresh = ConsensusState::new(1, ClusterMembership::new(Vec::new()));
    assert!(node.state.take_committed(&fresh).is_empty());
    assert_eq!(node.state.last_applied(), 5);
}

#[test]
fn the_local_address_is_removed_wherever_it_stands() {
    let listed: Vec<String> =
        ["a:1", "b:2", "a:1", "c:3", "a:1"].iter().map(|a| a.to_string()).collect();
    assert_eq!(without_address(&listed, &"a:1".to_string()), vec!["b:2", "c:3"]);
    assert_eq!(without_address(&listed, &"d:4".to_string()), listed);
    assert!(without_address(&Vec::new(), &"a:1".to_string()).is_empty());
    let mut members = ClusterMembership::new(without_address(&listed, &"c:3".to_string()));
    assert_eq!(members.len(), 4);
    assert!(members.contains(&"b:2".to_string()));
    assert!(!members.contains(&"c:3".to_string()));
    members.add("c:3".to_string());
    assert!(members.contains(&"c:3".to_string()));
    assert_eq!(members.address(4).map(|a| a.as_str()), Some("c:3"));
    assert_eq!(members.address(5), None);
    assert_eq!(members.snapshot(), vec!["a:1", "b:2", "a:1", "a:1", "c:3"]);
}
