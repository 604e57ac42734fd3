//! A BitTorrent swarm client and a segmented HTTP downloader.
//!
//! The modules here hold the protocol logic of both engines (frame codecs,
//! piece bookkeeping, peer state, reassembly, range planning) with their
//! contracts. Sockets, threads and HTTP transfers are driven by the caller.
mod bytes;
mod strings;
pub mod bittorrent;
pub mod ftp;
pub mod http;
pub mod parser;
