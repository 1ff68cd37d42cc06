//! Network addresses of peers.
use vstd::prelude::*;

verus! {

/// An IP address: IPv4 as its 32-bit value, IPv6 as its 128-bit value. Addresses of
/// different families are never equal.
#[derive(Clone, Copy, PartialEq, Eq, Structural, Debug)]
pub enum PeerIp {
    V4(u32),
    V6(u128),
}

/// A node's address: IP and TCP port.
#[derive(Clone, Copy, PartialEq, Eq, Structural, Debug)]
pub struct Peer {
    pub ip: PeerIp,
    pub port: u16,
}

/// Whether `peer` occurs in `known_peers`.
pub open spec fn spec_peer_exists(known_peers: Seq<Peer>, peer: Peer) -> bool {
    exists|i: int| 0 <= i < known_peers.len() && known_peers[i] == peer
}

/// Whether `peer` occurs in `known_peers`.
pub fn peer_exists(known_peers: &[Peer], peer: &Peer) -> (found: bool)
    ensures
        found == spec_peer_exists(known_peers@, *peer),
{
    let mut i: usize = 0;
    while i < known_peers.len()
        invariant
            i <= known_peers.len(),
            forall|j: int| 0 <= j < i ==> known_peers@[j] != *peer,
        decreases known_peers.len() - i,
    {
        if known_peers[i] == *peer {
            return true;
        }
        i = i + 1;
    }
    false
}

} // verus!
