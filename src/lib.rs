//! Bulk submission of torrent sources to a Transmission daemon: the tree of
//! named groups and its traversal into jobs, the choice of how each source is
//! sent, the session handshake and the bounded dispatch of the jobs.

pub mod config;
pub mod entry;
pub mod path;
pub mod pipeline;
pub mod session;
pub mod torrent;
