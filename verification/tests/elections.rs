use raft_node::consensus::{Campaign, ConsensusState};
use raft_node::election::quorum_size;
use raft_node::membership::ClusterMembership;
use raft_node::message::{EntryRequest, VoteReply, VoteRequest};
use raft_node::model::Role;
use raft_node::node::RaftNode;
use raft_node::timer::ElectionTimer;

fn peers(count: usize) -> Vec<String> {
    (0..count).map(|i| format!("10.0.0.{}:7000", i + 2)).collect()
}

fn state_with_peers(count: usize) -> ConsensusState {
    ConsensusState::new(1, ClusterMembership::new(peers(count)))
}

/// Begins a campaign on a timer of its own.
fn campaign(state: &mut ConsensusState) -> Campaign {
    let mut timer = ElectionTimer::new(0, 10);
    state.start_election(&mut timer, 11, 10)
}

fn grant(term: u64) -> Option<VoteReply> {
    Some(VoteReply { term, grant: true })
}

fn refusal(term: u64) -> Option<VoteReply> {
    Some(VoteReply { term, grant: false })
}

#[test]
fn quorum_is_a_strict_majority_of_all_voters() {
    assert_eq!(quorum_size(0), 1);
    assert_eq!(quorum_size(1), 2);
    assert_eq!(quorum_size(2), 2);
    assert_eq!(quorum_size(3), 3);
    assert_eq!(quorum_size(4), 3);
    assert_eq!(quorum_size(5), 4);
    assert_eq!(quorum_size(usize::MAX), usize::MAX / 2 + 2);
    for peers in 0..50usize {
        let q = quorum_size(peers);
        assert!(2 * q > peers + 1);
        assert!(2 * (q - 1) <= peers + 1);
    }
}

#[test]
fn a_campaign_wins_exactly_at_the_quorum() {
    for count in 1..8usize {
        let mut state = state_with_peers(count);
        let campaign = campaign(&mut state);
        assert_eq!(campaign.targets.len(), count);
        assert_eq!(state.role(), Role::Candidate);
        for peer in 0..count {
            let role = state.record_vote(1, peer, grant(1));
            let grants = peer + 2;
            assert_eq!(state.peer_grants() + 1, grants);
            if grants < quorum_size(count) {
                assert_eq!(role, Role::Candidate, "{} peers, {} grants", count, grants);
            } else {
                assert_eq!(role, Role::Leader, "{} peers, {} grants", count, grants);
                break;
            }
        }
        assert_eq!(state.role(), Role::Leader);
        assert_eq!(state.peer_grants() + 1, quorum_size(count));
    }
}

#[test]
fn five_nodes_need_three_votes() {
    let mut state = state_with_peers(4);
    campaign(&mut state);
    assert_eq!(state.record_vote(1, 3, grant(1)), Role::Candidate);
    assert_eq!(state.record_vote(1, 0, refusal(1)), Role::Candidate);
    assert_eq!(state.record_vote(1, 1, None), Role::Candidate);
    assert_eq!(state.peer_grants() + 1, 2);
    assert_eq!(state.record_vote(1, 2, grant(0)), Role::Leader);
    assert_eq!(state.peer_grants() + 1, 3);
}

#[test]
fn a_peer_is_counted_once() {
    let mut state = state_with_peers(4);
    campaign(&mut state);
    assert_eq!(state.record_vote(1, 2, grant(1)), Role::Candidate);
    assert_eq!(state.record_vote(1, 2, grant(1)), Role::Candidate);
    assert_eq!(state.record_vote(1, 2, grant(1)), Role::Candidate);
    assert_eq!(state.peer_grants() + 1, 2);
}

#[test]
fn a_grant_from_outside_the_electorate_is_ignored() {
    let mut state = state_with_peers(2);
    campaign(&mut state);
    assert_eq!(state.record_vote(1, 2, grant(1)), Role::Candidate);
    assert_eq!(state.record_vote(1, usize::MAX, grant(1)), Role::Candidate);
    assert_eq!(state.peer_grants() + 1, 1);
}

#[test]
fn a_grant_for_an_earlier_campaign_is_ignored() {
    let mut state = state_with_peers(2);
    campaign(&mut state);
    let second = campaign(&mut state);
    assert_eq!(second.request, VoteRequest { term: 2, candidate_id: 1 });
    assert_eq!(state.record_vote(1, 0, grant(1)), Role::Candidate);
    assert_eq!(state.peer_grants() + 1, 1);
    assert_eq!(state.record_vote(2, 0, grant(2)), Role::Leader);
}

#[test]
fn a_higher_term_in_a_reply_ends_the_candidacy() {
    let mut state = state_with_peers(2);
    campaign(&mut state);
    assert_eq!(state.record_vote(1, 0, Some(VoteReply { term: 4, grant: true })), Role::Follower);
    assert_eq!(state.current_term(), 4);
    assert_eq!(state.voted_for(), None);
    assert_eq!(state.record_vote(1, 1, grant(1)), Role::Follower);
    assert_eq!(state.record_vote(4, 1, grant(4)), Role::Follower);
}

#[test]
fn a_leader_steps_down_when_it_sees_a_higher_term() {
    let mut state = state_with_peers(2);
    campaign(&mut state);
    assert_eq!(state.record_vote(1, 0, grant(1)), Role::Leader);
    assert_eq!(
        state.entries_request(0),
        Some(EntryRequest { term: 1, prev_index: 0, commit_index: 0 })
    );
    assert_eq!(state.record_vote(1, 1, refusal(3)), Role::Follower);
    assert_eq!(state.current_term(), 3);
    assert_eq!(state.entries_request(0), None);

    campaign(&mut state);
    state.record_vote(4, 0, grant(4));
    assert_eq!(state.role(), Role::Leader);
    state.observe_term(4);
    assert_eq!(state.role(), Role::Leader);
    state.observe_term(5);
    assert_eq!(state.role(), Role::Follower);
    assert_eq!(state.current_term(), 5);
    state.observe_term(2);
    assert_eq!(state.current_term(), 5);
}

#[test]
fn only_a_leader_has_entries_to_send() {
    let mut state = state_with_peers(2);
    assert_eq!(state.entries_request(3), None);
    campaign(&mut state);
    assert_eq!(state.entries_request(3), None);
    state.record_vote(1, 1, grant(1));
    state.append_entry(vec![1]);
    assert_eq!(
        state.entries_request(3),
        Some(EntryRequest { term: 1, prev_index: 3, commit_index: 0 })
    );
}

#[test]
fn a_join_during_a_campaign_does_not_move_the_quorum() {
    let mut node = RaftNode::start(1, "10.0.0.1:7000".to_string(), peers(2));
    let first = campaign(&mut node.details);
    assert_eq!(first.targets, peers(2));
    assert_eq!(node.join(b"10.0.0.9:7000".to_vec()), Ok(()));
    assert_eq!(node.join(b"10.0.0.10:7000".to_vec()), Ok(()));
    assert_eq!(node.details.cluster().len(), 4);
    assert_eq!(node.details.record_vote(1, 2, grant(1)), Role::Candidate);
    assert_eq!(node.details.record_vote(1, 1, grant(1)), Role::Leader);

    let next = campaign(&mut node.details);
    assert_eq!(next.request.term, 2);
    assert_eq!(
        next.targets,
        vec!["10.0.0.2:7000", "10.0.0.3:7000", "10.0.0.9:7000", "10.0.0.10:7000"]
    );
    assert_eq!(node.details.record_vote(2, 2, grant(2)), Role::Candidate);
    assert_eq!(node.details.record_vote(2, 3, grant(2)), Role::Leader);
}

#[test]
fn a_joined_address_is_kept_in_its_normal_text() {
    let mut node = RaftNode::start(1, "10.0.0.1:7000".to_string(), Vec::new());
    assert_eq!(node.join(b"[0:0:0:0:0:0:0:1]:0080".to_vec()), Ok(()));
    assert_eq!(node.join(b"[::1]:80".to_vec()), Ok(()));
    assert_eq!(node.join(b"10.0.0.1:7000".to_vec()), Ok(()));
    assert_eq!(node.details.cluster().snapshot(), vec!["[::1]:80", "[::1]:80", "10.0.0.1:7000"]);
    assert_eq!(node.details.cluster().address(0).map(|a| a.as_str()), Some("[::1]:80"));
    assert_eq!(node.details.cluster().address(3), None);
    let campaign = campaign(&mut node.details);
    assert_eq!(campaign.targets, vec!["[::1]:80", "[::1]:80", "10.0.0.1:7000"]);
}

#[test]
fn the_timer_fires_only_after_the_timeout() {
    let mut timer = ElectionTimer::new(100, 50);
    assert!(!timer.is_expired(0));
    assert!(!timer.is_expired(100));
    assert!(!timer.is_expired(150));
    assert!(timer.is_expired(151));
    assert!(timer.is_expired(u64::MAX));
    timer.reset(151, 70);
    assert_eq!(timer, ElectionTimer { last_reset: 151, timeout: 70 });
    assert!(!timer.is_expired(221));
    assert!(timer.is_expired(222));
    timer.reset(u64::MAX, 0);
    assert!(!timer.is_expired(u64::MAX));
    assert!(!timer.is_expired(5));
    assert!(!ElectionTimer::new(0, u64::MAX).is_expired(u64::MAX));
    assert!(ElectionTimer::new(0, 0).is_expired(1));
    assert!(!ElectionTimer::new(0, 0).is_expired(0));
}

#[test]
fn a_campaign_restarts_the_timer() {
    let mut state = state_with_peers(2);
    let mut timer = ElectionTimer::new(3, 4);
    let campaign = state.start_election(&mut timer, 2, 9);
    assert_eq!(campaign.request, VoteRequest { term: 1, candidate_id: 1 });
    assert_eq!(timer, ElectionTimer { last_reset: 2, timeout: 9 });
}

#[test]
fn an_idle_turn_changes_nothing() {
    let mut node = RaftNode::start(3, "10.0.0.1:7000".to_string(), peers(2));
    let mut timer = ElectionTimer::new(10, 5);
    for now in [0, 10, 15] {
        assert!(node.run(&mut timer, now, 99).is_none());
        assert_eq!(timer, ElectionTimer { last_reset: 10, timeout: 5 });
        assert_eq!(node.details.current_term(), 0);
        assert_eq!(node.details.role(), Role::Follower);
        assert_eq!(node.details.voted_for(), None);
    }
}

#[test]
fn every_expiry_begins_a_campaign_in_the_next_term() {
    let mut node = RaftNode::start(3, "10.0.0.1:7000".to_string(), peers(2));
    let mut timer = ElectionTimer::new(0, 5);
    let mut campaigns = 0;
    for now in 0..=24u64 {
        if let Some(campaign) = node.run(&mut timer, now, 5) {
            campaigns += 1;
            assert_eq!(campaign.request, VoteRequest { term: campaigns, candidate_id: 3 });
            assert_eq!(timer.last_reset, now);
        }
    }
    assert_eq!(campaigns, 4);
    assert_eq!(node.details.current_term(), 4);
    assert_eq!(node.details.voted_for(), Some(3));
}
