//! The segmented HTTP engine: probing a resource, planning byte ranges, and
//! the settings of a download.
pub mod error;
pub mod http;
pub mod parser;
pub mod pattern;
