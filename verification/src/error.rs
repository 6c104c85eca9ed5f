use vstd::prelude::*;

use crate::bencode::errors::DecodeError;
use crate::torrent::message::MessageTag;

verus! {

/// The failure surface of the whole client.  Failures that arise
/// outside the library (sockets, files, the tracker's transport) are
/// carried as their descriptions.
#[derive(Debug, PartialEq)]
pub enum Error {
    BadHandshake,
    DecodeError(DecodeError),
    FileError(String),
    TrackerHttpError(String),
    KeyNotFoundInTrackerResponse { key: String },
    TrackerIntervalIsNotInteger,
    TrackerIntervalIsNotByteString,
    TrackerFailureReasonIsNotUtf8,
    TrackerFailureInResponse { failure_reason: String },
    InvalidMessageLength { minimum_length: u32, actual_length: u32 },
    NotEnoughData { minimum_length: u32, actual_length: u32 },
    InvalidMagnetLink,
    InvalidPeerIdLength { peer_id: String, expected_length: u8 },
    SocketError(String),
    TorrentParseError(String),
    Unknown,
    UnrecognizedMessageTag(u8),
}

} // verus!
