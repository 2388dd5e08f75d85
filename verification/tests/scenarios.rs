use raft_node::consensus::ConsensusState;
use raft_node::join::JoinError;
use raft_node::membership::ClusterMembership;
use raft_node::message::{EntryReply, EntryRequest, VoteReply, VoteRequest};
use raft_node::model::Role;
use raft_node::node::RaftNode;
use raft_node::timer::ElectionTimer;

fn addresses(list: &[&str]) -> Vec<String> {
    list.iter().map(|a| a.to_string()).collect()
}

fn three_node_cluster() -> RaftNode {
    RaftNode::start(
        1,
        "127.0.0.1:9001".to_string(),
        addresses(&["127.0.0.1:9001", "127.0.0.1:9002", "127.0.0.1:9003"]),
    )
}

/// A node that holds `held` entries and has committed `committed` of them.
fn node_with_log(held: u64, committed: u64) -> RaftNode {
    let mut node = three_node_cluster();
    for i in 0..held {
        let index = node.details.append_entry(vec![i as u8]);
        assert_eq!(index, i + 1);
    }
    let reply = node.append_entries(EntryRequest { term: 0, prev_index: 0, commit_index: committed });
    assert!(reply.success);
    assert_eq!(node.details.commit_index(), committed);
    node
}

#[test]
fn start_leaves_out_the_local_address() {
    let node = three_node_cluster();
    assert_eq!(node.details.id(), 1);
    assert_eq!(node.details.current_term(), 0);
    assert_eq!(node.details.voted_for(), None);
    assert_eq!(node.details.role(), Role::Follower);
    assert_eq!(node.details.commit_index(), 0);
    assert_eq!(node.details.last_log_index(), 0);
    assert_eq!(node.state.last_applied(), 0);
    assert_eq!(
        node.details.cluster().snapshot(),
        addresses(&["127.0.0.1:9002", "127.0.0.1:9003"])
    );
}

#[test]
fn stale_vote_request_is_refused_with_the_current_term() {
    let mut node = three_node_cluster();
    node.details.observe_term(5);
    let reply = node.request_vote(VoteRequest { term: 3, candidate_id: 7 });
    assert_eq!(reply, VoteReply { term: 5, grant: false });
    assert_eq!(node.details.current_term(), 5);
}

#[test]
fn commit_index_rises_to_the_last_entry_held() {
    let mut node = node_with_log(12, 10);
    node.details.observe_term(5);
    let reply = node.append_entries(EntryRequest { term: 5, prev_index: 8, commit_index: 15 });
    assert_eq!(reply, EntryReply { term: 5, success: true });
    assert_eq!(node.details.commit_index(), 12);
}

#[test]
fn entries_beyond_the_commit_index_are_refused() {
    let mut node = node_with_log(12, 10);
    node.details.observe_term(5);
    let reply = node.append_entries(EntryRequest { term: 5, prev_index: 11, commit_index: 15 });
    assert_eq!(reply, EntryReply { term: 5, success: false });
    assert_eq!(node.details.commit_index(), 10);
}

#[test]
fn one_grant_of_two_peers_wins_the_campaign() {
    let mut node = three_node_cluster();
    let mut timer = ElectionTimer::new(0, 150);
    assert!(node.run(&mut timer, 150, 200).is_none());
    let campaign = node.run(&mut timer, 151, 200).expect("the timer has run out");
    assert_eq!(timer, ElectionTimer { last_reset: 151, timeout: 200 });
    assert_eq!(campaign.request, VoteRequest { term: 1, candidate_id: 1 });
    assert_eq!(campaign.targets, addresses(&["127.0.0.1:9002", "127.0.0.1:9003"]));
    assert_eq!(node.details.role(), Role::Candidate);
    assert_eq!(node.details.voted_for(), Some(1));
    assert_eq!(node.details.peer_grants() + 1, 1);

    assert_eq!(node.details.record_vote(1, 0, None), Role::Candidate);
    assert_eq!(
        node.details.record_vote(1, 1, Some(VoteReply { term: 1, grant: true })),
        Role::Leader
    );
    assert_eq!(node.details.peer_grants() + 1, 2);
    assert_eq!(node.details.current_term(), 1);
}

#[test]
fn no_grant_leaves_the_node_a_candidate() {
    let mut node = three_node_cluster();
    let mut timer = ElectionTimer::new(0, 150);
    let campaign = node.details.start_election(&mut timer, 160, 170);
    assert_eq!(campaign.request.term, 1);
    assert_eq!(timer, ElectionTimer { last_reset: 160, timeout: 170 });
    assert_eq!(node.details.record_vote(1, 0, None), Role::Candidate);
    assert_eq!(node.details.record_vote(1, 1, None), Role::Candidate);
    assert_eq!(node.details.peer_grants() + 1, 1);
    assert_eq!(node.details.role(), Role::Candidate);
}

#[test]
fn join_appends_a_valid_address() {
    let mut node = three_node_cluster();
    assert_eq!(node.join(b"127.0.0.1:9001".to_vec()), Ok(()));
    assert_eq!(node.details.cluster().len(), 3);
    assert!(node.details.cluster().contains(&"127.0.0.1:9001".to_string()));
    assert_eq!(
        node.details.cluster().snapshot(),
        addresses(&["127.0.0.1:9002", "127.0.0.1:9003", "127.0.0.1:9001"])
    );
}

#[test]
fn join_refuses_what_is_no_address() {
    let mut node = three_node_cluster();
    assert_eq!(node.join(b"not-an-address".to_vec()), Err(JoinError::InvalidAddress));
    assert_eq!(node.join(vec![0xff, 0xfe, 0x31]), Err(JoinError::MalformedPayload));
    assert_eq!(
        node.details.cluster().snapshot(),
        addresses(&["127.0.0.1:9002", "127.0.0.1:9003"])
    );
}

#[test]
fn a_node_without_peers_leads_at_once() {
    let mut state = ConsensusState::new(4, ClusterMembership::new(Vec::new()));
    let mut timer = ElectionTimer::new(0, 150);
    let campaign = state.start_election(&mut timer, 1, 150);
    assert!(campaign.targets.is_empty());
    assert_eq!(state.role(), Role::Leader);
    assert_eq!(state.current_term(), 1);
}
