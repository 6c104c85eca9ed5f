use vstd::prelude::*;

use vstd::string::StringSliceAdditionalSpecFns;

use crate::bencode::decoder::decode;
use crate::bencode::model::{decode_err_matches, parse_value};
use crate::error::Error;
use crate::text::{
    dec_chars, hex_digit, lossy_chars, push_char, u64_to_string, wrap_u32,
};
use crate::types::{dict_find, dict_get, BValue, DataType};

verus! {

/// What the tracker answered: either a failure reason, or the announce
/// interval with the peers' endpoints.
#[derive(Debug)]
pub enum TrackerResponse {
    Success { interval: u32, peers: Vec<String> },
    Failure(String),
}

/// The texts of a sequence of strings.
pub open spec fn strings_view(s: Seq<String>) -> Seq<Seq<char>> {
    s.map_values(|x: String| x@)
}

impl TrackerResponse {
    pub fn failure(reason: String) -> (r: Self)
        ensures
            r matches TrackerResponse::Failure(s) && s@ == reason@,
    {
        Self::Failure(reason)
    }

    pub fn ok(interval: u32, peers: Vec<String>) -> (r: Self)
        ensures
            r matches TrackerResponse::Success { interval: i, peers: p } && i == interval
                && strings_view(p@) == strings_view(peers@),
    {
        Self::Success { interval, peers }
    }
}

/// The percent-encoding the announce request carries for raw bytes:
/// a percent sign and two lowercase hexadecimal digits for every byte.
pub open spec fn urlencoded(bytes: Seq<u8>) -> Seq<char>
    decreases bytes.len(),
{
    if bytes.len() == 0 {
        Seq::empty()
    } else {
        urlencoded(bytes.drop_last()) + seq![
            '%',
            hex_digit(bytes.last() / 16),
            hex_digit(bytes.last() % 16),
        ]
    }
}

/// Percent-encodes every byte, as the announce request requires of the
/// info-hash.
pub fn urlencode_bytes(bytes: &[u8]) -> (r: String)
    ensures
        r@ == urlencoded(bytes@),
{
    let mut s = String::new();
    let mut i: usize = 0;
    proof {
        assert(bytes@.subrange(0, 0) =~= Seq::<u8>::empty());
    }
    while i < bytes.len()
        invariant
            i <= bytes@.len(),
            s@ == urlencoded(bytes@.subrange(0, i as int)),
        decreases bytes@.len() - i,
    {
        let b = bytes[i];
        push_char(&mut s, '%');
        let hi = b / 16;
        let lo = b % 16;
        push_char(
            &mut s,
            if hi < 10 {
                (0x30 + hi) as char
            } else {
                (0x57 + hi) as char
            },
        );
        push_char(
            &mut s,
            if lo < 10 {
                (0x30 + lo) as char
            } else {
                (0x57 + lo) as char
            },
        );
        proof {
            assert(bytes@.subrange(0, i as int + 1).drop_last() =~= bytes@.subrange(0, i as int));
            assert(bytes@.subrange(0, i as int + 1).last() == bytes@[i as int]);
            assert(s@ =~= urlencoded(bytes@.subrange(0, i as int + 1)));
        }
        i = i + 1;
    }
    proof {
        assert(bytes@.subrange(0, bytes@.len() as int) =~= bytes@);
    }
    s
}

/// The announce URL: the tracker URL with the percent-encoded
/// info-hash, the peer id, the port, the transfer counters, and the
/// request for compact peer encoding.
pub open spec fn spec_announce_url(
    tracker_url: Seq<char>,
    info_hash: Seq<u8>,
    peer_id: Seq<char>,
    port: u16,
    uploaded: u64,
    downloaded: u64,
    left: u64,
) -> Seq<char> {
    tracker_url + "?info_hash="@ + urlencoded(info_hash) + "&peer_id="@ + peer_id + "&port="@
        + dec_chars(port as nat) + "&uploaded="@ + dec_chars(uploaded as nat) + "&downloaded="@
        + dec_chars(downloaded as nat) + "&left="@ + dec_chars(left as nat) + "&compact=1"@
}

/// Builds the announce URL for a tracker request.
pub fn build_announce_url(
    tracker_url: &str,
    info_hash: &[u8],
    peer_id: &str,
    port: u16,
    uploaded: u64,
    downloaded: u64,
    left: u64,
) -> (r: String)
    ensures
        r@ == spec_announce_url(
            tracker_url@,
            info_hash@,
            peer_id@,
            port,
            uploaded,
            downloaded,
            left,
        ),
{
    let mut s = tracker_url.to_owned();
    s.append("?info_hash=");
    s.append(urlencode_bytes(info_hash).as_str());
    s.append("&peer_id=");
    s.append(peer_id);
    s.append("&port=");
    s.append(u64_to_string(port as u64).as_str());
    s.append("&uploaded=");
    s.append(u64_to_string(uploaded).as_str());
    s.append("&downloaded=");
    s.append(u64_to_string(downloaded).as_str());
    s.append("&left=");
    s.append(u64_to_string(left).as_str());
    s.append("&compact=1");
    proof {
        assert(s@ =~= spec_announce_url(
            tracker_url@,
            info_hash@,
            peer_id@,
            port,
            uploaded,
            downloaded,
            left,
        ));
    }
    s
}

/// The textual endpoint of one six-byte compact peer record: the four
/// address bytes in decimal joined by dots, a colon, and the big-endian
/// port.
pub open spec fn peer_endpoint(c: Seq<u8>) -> Seq<char> {
    dec_chars(c[0] as nat) + seq!['.'] + dec_chars(c[1] as nat) + seq!['.'] + dec_chars(
        c[2] as nat,
    ) + seq!['.'] + dec_chars(c[3] as nat) + seq![':'] + dec_chars((c[4] * 256 + c[5]) as nat)
}

/// The endpoints of a compact peer list: one per whole six-byte record,
/// any trailing remainder ignored.
pub open spec fn peer_list(b: Seq<u8>) -> Seq<Seq<char>> {
    Seq::new((b.len() / 6) as nat, |i: int| peer_endpoint(b.subrange(6 * i, 6 * i + 6)))
}

pub open spec fn key_failure_reason() -> Seq<u8> {
    "failure reason".spec_bytes()
}

pub open spec fn key_interval() -> Seq<u8> {
    "interval".spec_bytes()
}

pub open spec fn key_peers() -> Seq<u8> {
    "peers".spec_bytes()
}

/// What a well-shaped tracker reply holds: a failure reason, or the
/// interval and the compact peer bytes.
pub enum TrackerOutcome {
    Failed(Seq<u8>),
    Peers(u32, Seq<u8>),
}

/// Whether a decoded tracker reply is well shaped, and what it says.
/// A dictionary with a `failure reason` byte string is a failure; one
/// with an `interval` integer and a `peers` byte string is a success.
pub open spec fn spec_tracker_outcome(v: BValue) -> Option<TrackerOutcome> {
    match v {
        BValue::Dict(d) => match dict_find(d, key_failure_reason()) {
            Some(BValue::Bytes(reason)) => Some(TrackerOutcome::Failed(reason)),
            Some(_) => None,
            None => match dict_find(d, key_interval()) {
                Some(BValue::Int(iv)) => match dict_find(d, key_peers()) {
                    Some(BValue::Bytes(pb)) => Some(
                        TrackerOutcome::Peers(((iv % 0x100000000) as u32), pb),
                    ),
                    _ => None,
                },
                _ => None,
            },
        },
        _ => None,
    }
}

/// Reads a bencoded tracker reply: either the failure reason it
/// carries, or the interval and the peer endpoints decoded from the
/// six-byte compact records.
pub fn parse_tracker_response(body: &[u8]) -> (r: Result<TrackerResponse, Error>)
    ensures
        match parse_value(body@) {
            Err(m) => r matches Err(e) && (e matches Error::DecodeError(de)
                && decode_err_matches(de, m)),
            Ok(p) => match spec_tracker_outcome(p.0) {
                Some(TrackerOutcome::Failed(reason)) => r matches Ok(t) && (
                t matches TrackerResponse::Failure(s) && s@ == lossy_chars(reason)),
                Some(TrackerOutcome::Peers(iv, pb)) => r matches Ok(t) && (
                t matches TrackerResponse::Success { interval, peers } && interval == iv
                    && strings_view(peers@) == peer_list(pb)),
                None => r is Err,
            },
        },
{
    let decoded = match decode(body) {
        Ok(p) => p.0,
        Err(e) => {
            return Err(Error::DecodeError(e));
        },
    };
    let entries = match decoded.as_dict() {
        Some(d) => d,
        None => {
            return Err(Error::KeyNotFoundInTrackerResponse { key: "info".to_owned() });
        },
    };
    match dict_get(entries, "failure reason") {
        Some(v) => {
            let reason = match v.as_str() {
                Some(s) => s,
                None => {
                    return Err(Error::TrackerFailureReasonIsNotUtf8);
                },
            };
            return Ok(TrackerResponse::failure(reason));
        },
        None => {},
    };
    let interval: u32 = match dict_get(entries, "interval") {
        Some(v) => match v.as_i64() {
            Some(x) => wrap_u32(x),
            None => {
                return Err(Error::TrackerIntervalIsNotInteger);
            },
        },
        None => {
            return Err(Error::KeyNotFoundInTrackerResponse { key: "interval".to_owned() });
        },
    };
    let peer_bytes = match dict_get(entries, "peers") {
        Some(v) => match v.as_byte_string() {
            Some(b) => b,
            None => {
                return Err(Error::TrackerIntervalIsNotByteString);
            },
        },
        None => {
            return Err(Error::KeyNotFoundInTrackerResponse { key: "peers".to_owned() });
        },
    };
    let data = peer_bytes.get_data();
    let ghost pb = data@;
    let count: usize = data.len() / 6;
    let mut peers: Vec<String> = Vec::new();
    let mut i: usize = 0;
    proof {
        assert(strings_view(peers@) =~= peer_list(pb).subrange(0, 0));
    }
    while i < count
        invariant
            i <= count,
            count == pb.len() / 6,
            pb == data@,
            pb.len() <= usize::MAX,
            peers@.len() == i,
            strings_view(peers@) == peer_list(pb).subrange(0, i as int),
        decreases count - i,
    {
        proof {
            assert(pb.len() == 6 * (pb.len() as int / 6) + pb.len() as int % 6) by {
                vstd::arithmetic::div_mod::lemma_fundamental_div_mod(pb.len() as int, 6);
            }
            assert(6 * (i as int) + 6 <= pb.len());
        }
        let c0 = data[6 * i];
        let c1 = data[6 * i + 1];
        let c2 = data[6 * i + 2];
        let c3 = data[6 * i + 3];
        let c4 = data[6 * i + 4];
        let c5 = data[6 * i + 5];
        let port: u32 = (c4 as u32) * 256 + (c5 as u32);
        let mut ep = u64_to_string(c0 as u64);
        push_char(&mut ep, '.');
        ep.append(u64_to_string(c1 as u64).as_str());
        push_char(&mut ep, '.');
        ep.append(u64_to_string(c2 as u64).as_str());
        push_char(&mut ep, '.');
        ep.append(u64_to_string(c3 as u64).as_str());
        push_char(&mut ep, ':');
        ep.append(u64_to_string(port as u64).as_str());
        proof {
            let chunk = pb.subrange(6 * (i as int), 6 * (i as int) + 6);
            assert(chunk[0] == c0 && chunk[1] == c1 && chunk[2] == c2 && chunk[3] == c3
                && chunk[4] == c4 && chunk[5] == c5);
            assert(ep@ =~= peer_endpoint(chunk));
        }
        let ghost peers0 = peers@;
        peers.push(ep);
        proof {
            assert forall|j: int|
                0 <= j < peers@.len() implies strings_view(peers@)[j] == peer_list(pb).subrange(
                0,
                i as int + 1,
            )[j] by {
                if j < i {
                    assert(peers@[j] == peers0[j]);
                    assert(strings_view(peers0)[j] == peer_list(pb).subrange(0, i as int)[j]);
                }
            }
            assert(strings_view(peers@) =~= peer_list(pb).subrange(0, i as int + 1));
        }
        i = i + 1;
    }
    proof {
        assert(peer_list(pb).subrange(0, count as int) =~= peer_list(pb));
    }
    Ok(TrackerResponse::ok(interval, peers))
}

} // verus!
