//! The verified core of a BitTorrent client for single-file torrents:
//! the bencode codec, the metainfo model and piece geometry, the peer
//! wire framing, the tracker protocol, and the piece assembly and
//! verification that the download scheduler relies on.  Sockets, files
//! and threads live outside the library and hand it plain values.

pub mod bencode;
pub mod cli;
pub mod error;
pub mod hash;
pub mod json;
pub mod magnet;
pub mod text;
pub mod torrent;
pub mod types;
