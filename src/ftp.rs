//! The arguments of the FTP fetcher; the transfer itself is driven by the
//! caller over an FTP client.
pub mod parser;
