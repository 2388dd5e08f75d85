//! Majority arithmetic for election campaigns.

use vstd::prelude::*;

verus! {

/// The smallest number of affirmative votes (the candidate's own included)
/// that wins a campaign started with `peers` other members: a strict majority
/// of the `peers + 1` voters.
pub open spec fn quorum(peers: nat) -> nat {
    (peers + 1) / 2 + 1
}

/// Whether `grants` affirmative votes are a strict majority of the
/// `peers + 1` voters.
pub open spec fn has_quorum(grants: nat, peers: nat) -> bool {
    2 * grants > peers + 1
}

/// Computes the quorum for a membership of `peers` other members.
pub fn quorum_size(peers: usize) -> (q: usize)
    ensures
        q == quorum(peers as nat),
        forall|grants: nat| has_quorum(grants, peers as nat) <==> grants >= q,
{
    peers / 2 + peers % 2 + 1
}

} // verus!
