//! The registry of remote endpoints found by discovery: no duplicates, never
//! this device itself, in order of discovery.

use vstd::prelude::*;

verus! {

/// An IP address as plain bits.
#[derive(Clone, Copy, Debug, PartialEq, Eq, Structural)]
pub enum HostAddr {
    V4(u32),
    V6(u128),
}

/// A remote endpoint: an address and a UDP port.
#[derive(Clone, Copy, Debug, PartialEq, Eq, Structural)]
pub struct Endpoint {
    pub addr: HostAddr,
    pub port: u16,
}

/// Each endpoint occurs at most once in `s`.
pub open spec fn no_duplicates(s: Seq<Endpoint>) -> bool {
    forall|i: int, j: int| 0 <= i < j < s.len() ==> s[i] != s[j]
}

/// The endpoints known so far.
pub struct PeerList {
    peers: Vec<Endpoint>,
}

impl PeerList {
    /// The known endpoints, in order of discovery.
    pub closed spec fn view_peers(&self) -> Seq<Endpoint> {
        self.peers@
    }

    pub closed spec fn wf(&self) -> bool {
        no_duplicates(self.peers@)
    }

    /// An empty registry.
    pub fn new() -> (r: PeerList)
        ensures
            r.wf(),
            r.view_peers() == Seq::<Endpoint>::empty(),
    {
        PeerList { peers: Vec::new() }
    }

    /// Whether `peer` is known.
    pub fn contains(&self, peer: Endpoint) -> (r: bool)
        ensures
            r == self.view_peers().contains(peer),
    {
        let mut i: usize = 0;
        while i < self.peers.len()
            invariant
                i <= self.peers@.len(),
                forall|j: int| 0 <= j < i ==> self.peers@[j] != peer,
            decreases self.peers@.len() - i,
        {
            if self.peers[i] == peer {
                return true;
            }
            i += 1;
        }
        false
    }

    /// Records an endpoint that discovery resolved. It is added at the back
    /// unless it is this device (`own`) or already known. Returns whether it
    /// was added.
    pub fn record_resolved(&mut self, own: Endpoint, peer: Endpoint) -> (added: bool)
        requires
            old(self).wf(),
        ensures
            final(self).wf(),
            added == (peer != own && !old(self).view_peers().contains(peer)),
            added ==> final(self).view_peers() == old(self).view_peers().push(peer),
            !added ==> final(self).view_peers() == old(self).view_peers(),
    {
        if peer == own || self.contains(peer) {
            return false;
        }
        self.peers.push(peer);
        proof {
            let s = self.peers@;
            assert forall|i: int, j: int| 0 <= i < j < s.len() implies s[i] != s[j] by {
                if j == s.len() - 1 {
                    assert(old(self).peers@[i] == s[i]);
                }
            }
        }
        true
    }

    /// A copy of the known endpoints, taken at the moment of a send.
    pub fn snapshot(&self) -> (r: Vec<Endpoint>)
        ensures
            r@ == self.view_peers(),
    {
        self.peers.clone()
    }

    /// Number of known endpoints.
    pub fn len(&self) -> (r: usize)
        ensures
            r == self.view_peers().len(),
    {
        self.peers.len()
    }
}

} // verus!
