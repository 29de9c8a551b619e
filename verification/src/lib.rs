//! A small BitTorrent client core: the peer handshake, the piece bookkeeping
//! of a download, the handling of peer messages, and the choice of a tracker.

pub mod handshake;
pub mod message;
pub mod piece_manager;
pub mod random;
pub mod session;
pub mod text;
pub mod tracker;
