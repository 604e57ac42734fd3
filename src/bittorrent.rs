//! The BitTorrent engine: metainfo, tracker peers, the peer-wire codec,
//! per-peer session state, piece jobs and reassembly.
pub mod assembly;
pub mod bencode;
pub mod client;
pub mod digest;
pub mod error;
pub mod handshake;
pub mod message;
pub mod parser;
pub mod peer;
pub mod piece;
pub mod torrent;
pub mod tracker;
pub mod worker;
