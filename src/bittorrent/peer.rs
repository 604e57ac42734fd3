use vstd::prelude::*;

verus! {

/// Bytes of one entry in the tracker's compact peer list.
pub const PEER_SIZE: usize = 6;

/// A peer of the swarm: the id the coordinator gave it, its IPv4 address as
/// four octets, and its port.
#[derive(Debug, Clone, Copy, PartialEq, Eq)]
pub struct Peer {
    pub id: usize,
    pub ip: [u8; 4],
    pub port: u16,
}

impl Peer {
    pub fn new() -> (r: Peer)
        ensures
            r.id == 0,
            r.ip@ == seq![1u8, 1, 1, 1],
            r.port == 0,
    {
        let ip: [u8; 4] = [1u8, 1, 1, 1];
        assert(ip@ =~= seq![1u8, 1, 1, 1]);
        Peer { id: 0, ip, port: 0 }
    }
}

} // verus!
