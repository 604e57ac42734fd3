use vstd::prelude::*;

verus! {

/// The failures of the BitTorrent engine.
#[derive(Debug, Clone, Copy, PartialEq, Eq, Structural)]
pub enum TorrentError {
    /// The metainfo could not be decoded or breaks its invariants.
    InvalidMetainfo,
    /// The tracker's compact peer list is not a whole number of entries.
    InvalidPeers,
    /// The remote handshake is short, malformed or for another torrent.
    Handshake,
    /// A frame or message does not follow the peer-wire protocol.
    Protocol,
    /// A downloaded piece does not match its expected hash.
    HashMismatch,
    /// The download ended before every piece was received.
    Download,
}

} // verus!
