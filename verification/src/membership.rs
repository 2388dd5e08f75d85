//! The peers a node will contact: a growing list of address texts that leaves
//! out the node's own address.

use vstd::prelude::*;

verus! {

/// The character sequences of a list of strings, in order.
pub open spec fn texts(strings: Seq<String>) -> Seq<Seq<char>> {
    strings.map_values(|s: String| s@)
}

/// `addresses` without every occurrence of `excluded`, order kept.
pub open spec fn without(addresses: Seq<Seq<char>>, excluded: Seq<char>) -> Seq<Seq<char>> {
    addresses.filter(|a: Seq<char>| a != excluded)
}

/// Copies `nodes` without the entries equal to `excluded`.
pub fn without_address(nodes: &Vec<String>, excluded: &String) -> (kept: Vec<String>)
    ensures
        texts(kept@) == without(texts(nodes@), excluded@),
{
    let ghost all = texts(nodes@);
    let ghost differs = |a: Seq<char>| a != excluded@;
    let mut kept: Vec<String> = Vec::new();
    let mut i: usize = 0;
    assert(all.take(0) =~= Seq::<Seq<char>>::empty());
    assert(Seq::<Seq<char>>::empty().filter(differs) =~= texts(kept@)) by {
        reveal(Seq::filter);
    }
    while i < nodes.len()
        invariant
            i <= nodes.len(),
            all == texts(nodes@),
            differs == |a: Seq<char>| a != excluded@,
            texts(kept@) == all.take(i as int).filter(differs),
        decreases nodes.len() - i,
    {
        let ghost before = texts(kept@);
        proof {
            all.lemma_take_succ_push(i as int);
            all.take(i as int).lemma_filter_push(all[i as int], differs);
        }
        if nodes[i] != *excluded {
            let node = nodes[i].clone();
            kept.push(node);
            assert(texts(kept@) =~= before.push(all[i as int]));
        }
        i += 1;
    }
    assert(all.take(i as int) =~= all);
    kept
}

/// The addresses of the other members of the cluster. The list only grows,
/// and an address may occur in it more than once.
#[derive(Debug)]
pub struct ClusterMembership {
    peers: Vec<String>,
}

impl View for ClusterMembership {
    type V = Seq<Seq<char>>;

    closed spec fn view(&self) -> Seq<Seq<char>> {
        texts(self.peers@)
    }
}

impl ClusterMembership {
    /// A membership of exactly `peers`.
    pub fn new(peers: Vec<String>) -> (members: Self)
        ensures
            members@ == texts(peers@),
    {
        ClusterMembership { peers }
    }

    /// The number of peers.
    pub fn len(&self) -> (n: usize)
        ensures
            n == self@.len(),
    {
        self.peers.len()
    }

    /// The address at position `i`, if there are that many peers.
    pub fn address(&self, i: usize) -> (address: Option<&String>)
        ensures
            match address {
                Some(a) => i < self@.len() && a@ == self@[i as int],
                None => i >= self@.len(),
            },
    {
        if i < self.peers.len() {
            Some(&self.peers[i])
        } else {
            None
        }
    }

    /// Whether `address` is one of the peers.
    pub fn contains(&self, address: &String) -> (found: bool)
        ensures
            found == self@.contains(address@),
    {
        let mut i: usize = 0;
        while i < self.peers.len()
            invariant
                i <= self.peers.len(),
                forall|j: int| 0 <= j < i ==> self@[j] != address@,
            decreases self.peers.len() - i,
        {
            if self.peers[i] == *address {
                assert(self@[i as int] == address@);
                return true;
            }
            i += 1;
        }
        false
    }

    /// Appends `address` to the peers. Nothing is checked: an address that is
    /// already present is added once more.
    pub fn add(&mut self, address: String)
        ensures
            final(self)@ == old(self)@.push(address@),
    {
        let ghost before = self@;
        self.peers.push(address);
        assert(self@ =~= before.push(address@));
    }

    /// A copy of the peers' addresses as they are now, in order.
    pub fn snapshot(&self) -> (addresses: Vec<String>)
        ensures
            texts(addresses@) == self@,
    {
        let mut addresses: Vec<String> = Vec::new();
        let mut i: usize = 0;
        while i < self.peers.len()
            invariant
                i <= self.peers.len(),
                texts(addresses@) == self@.take(i as int),
            decreases self.peers.len() - i,
        {
            let ghost before = texts(addresses@);
            let peer = self.peers[i].clone();
            addresses.push(peer);
            assert(texts(addresses@) =~= before.push(self@[i as int]));
            assert(self@.take(i as int + 1) =~= self@.take(i as int).push(self@[i as int]));
            i += 1;
        }
        assert(self@.take(i as int) =~= self@);
        addresses
    }
}

} // verus!
