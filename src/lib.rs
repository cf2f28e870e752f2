//! A log-structured file system engine: an append-only log of segments, the summary that
//! tells live blocks from garbage, a cleaner that reclaims segments, and recovery from a
//! checkpoint by rolling forward over the segments sealed after it.

pub mod addr;
pub mod codec;
pub mod dir;
pub mod dirty;
pub mod error;
pub mod file;
pub mod fs;
pub mod imap;
pub mod layout;
pub mod log;
pub mod recovery;
