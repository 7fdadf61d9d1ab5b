//! A BitTorrent download engine: torrent metadata, tracker announces, the peer
//! wire protocol and the piece manager, with the decisions of each stated as
//! contracts and proved.

pub mod connection;
pub mod download;
pub mod error;
pub mod file;
pub mod hashing;
pub mod magnet;
pub mod peer;
pub mod piece;
pub mod text;
pub mod torrent;
pub mod tracker;
