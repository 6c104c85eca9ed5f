pub mod download;
pub mod handshake_message;
pub mod message;
pub mod piece;
pub mod torrent;
pub mod tracker;
