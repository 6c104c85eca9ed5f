use bittorrent::error::Error;
use bittorrent::torrent::tracker::{
    build_announce_url, parse_tracker_response, urlencode_bytes, TrackerResponse,
};

#[test]
fn announce_url_carries_every_parameter() {
    let info_hash: Vec<u8> = vec![0x00, 0x1F, 0xAB, 0xFF];
    let url = build_announce_url(
        "http://tracker.example/announce",
        info_hash.as_slice(),
        "12345678901234567890",
        6881,
        0,
        0,
        12345,
    );
    assert_eq!(
        url,
        "http://tracker.example/announce?info_hash=%00%1f%ab%ff&peer_id=12345678901234567890&port=6881&uploaded=0&downloaded=0&left=12345&compact=1"
    );
}

#[test]
fn urlencoding_covers_every_byte() {
    assert_eq!(urlencode_bytes(&[]), "");
    assert_eq!(urlencode_bytes(&[0x0, 0x10, 0x99, 0xFE]), "%00%10%99%fe");
}

#[test]
fn tracker_reply_with_one_compact_peer() {
    let mut body = b"d8:intervali900e5:peers6:".to_vec();
    body.extend_from_slice(&[165, 232, 33, 77, 0xC9, 0x0B]);
    body.push(b'e');
    match parse_tracker_response(body.as_slice()).unwrap() {
        TrackerResponse::Success { interval, peers } => {
            assert_eq!(interval, 900);
            assert_eq!(peers, vec!["165.232.33.77:51467".to_owned()]);
        },
        TrackerResponse::Failure(reason) => panic!("unexpected failure: {reason}"),
    }
}

#[test]
fn tracker_reply_with_several_peers_ignores_ragged_tail() {
    let mut body = b"d8:intervali60e5:peers8:".to_vec();
    body.extend_from_slice(&[1, 2, 3, 4, 0x00, 0x50, 9, 9]);
    body.push(b'e');
    match parse_tracker_response(body.as_slice()).unwrap() {
        TrackerResponse::Success { interval, peers } => {
            assert_eq!(interval, 60);
            assert_eq!(peers, vec!["1.2.3.4:80".to_owned()]);
        },
        TrackerResponse::Failure(reason) => panic!("unexpected failure: {reason}"),
    }
}

#[test]
fn tracker_failure_reason_is_surfaced() {
    let body = b"d14:failure reason12:bad request e";
    match parse_tracker_response(body).unwrap() {
        TrackerResponse::Failure(reason) => assert_eq!(reason, "bad request "),
        TrackerResponse::Success { .. } => panic!("expected a failure"),
    }
}

#[test]
fn tracker_reply_errors() {
    assert!(matches!(
        parse_tracker_response(b"xyz"),
        Err(Error::DecodeError(_))
    ));
    assert!(matches!(
        parse_tracker_response(b"le"),
        Err(Error::KeyNotFoundInTrackerResponse { .. })
    ));
    assert!(matches!(
        parse_tracker_response(b"d8:intervali900ee"),
        Err(Error::KeyNotFoundInTrackerResponse { .. })
    ));
    assert!(matches!(
        parse_tracker_response(b"d8:interval3:abc5:peers0:e"),
        Err(Error::TrackerIntervalIsNotInteger)
    ));
    assert!(matches!(
        parse_tracker_response(b"d8:intervali900e5:peersi1ee"),
        Err(Error::TrackerIntervalIsNotByteString)
    ));
    assert!(matches!(
        parse_tracker_response(b"d14:failure reasoni5ee"),
        Err(Error::TrackerFailureReasonIsNotUtf8)
    ));
}

#[test]
fn tracker_response_constructors() {
    match TrackerResponse::failure("oops".to_owned()) {
        TrackerResponse::Failure(reason) => assert_eq!(reason, "oops"),
        _ => panic!("expected a failure"),
    }
    match TrackerResponse::ok(30, vec!["1.1.1.1:1".to_owned()]) {
        TrackerResponse::Success { interval, peers } => {
            assert_eq!(interval, 30);
            assert_eq!(peers, vec!["1.1.1.1:1".to_owned()]);
        },
        _ => panic!("expected a success"),
    }
}
