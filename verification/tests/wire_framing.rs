use bittorrent::error::Error;
use bittorrent::torrent::download::piece_block_from_message;
use bittorrent::torrent::handshake_message::HandshakeMessage;
use bittorrent::torrent::message::{Message, MessageTag};

#[test]
fn unchoke_round_trip() {
    let bytes = Message::unchoke().to_bytes();
    assert_eq!(bytes, vec![0x00, 0x00, 0x00, 0x01, 0x01]);
    let parsed = Message::parse(bytes.as_slice()).unwrap();
    assert_eq!(*parsed.get_tag(), MessageTag::Unchoke);
    assert!(parsed.get_payload().is_empty());
}

#[test]
fn request_frame_bytes() {
    let bytes = Message::request(0, 0, 16384).to_bytes();
    assert_eq!(
        bytes,
        vec![
            0x00, 0x00, 0x00, 0x0D, 0x06, 0x00, 0x00, 0x00, 0x00, 0x00, 0x00, 0x00, 0x00, 0x00,
            0x00, 0x40, 0x00
        ]
    );
}

#[test]
fn piece_frame_layout() {
    let block = [0xAAu8, 0xBB, 0xCC];
    let bytes = Message::piece(1, 16384, &block).to_bytes();
    let mut expected: Vec<u8> = Vec::new();
    expected.extend_from_slice(&[0x00, 0x00, 0x00, 0x0C]);
    expected.push(0x07);
    expected.extend_from_slice(&[0x00, 0x00, 0x00, 0x01]);
    expected.extend_from_slice(&[0x00, 0x00, 0x40, 0x00]);
    expected.extend_from_slice(&block);
    assert_eq!(bytes, expected);
}

#[test]
fn piece_frame_parses_back() {
    let block = [0x01u8, 0x02, 0x03, 0x04];
    let bytes = Message::piece(7, 32768, &block).to_bytes();
    let parsed = Message::parse(bytes.as_slice()).unwrap();
    assert_eq!(*parsed.get_tag(), MessageTag::Piece);
    let extracted = piece_block_from_message(&parsed, 7, 32768, 4).unwrap();
    assert_eq!(extracted, block.to_vec());
    assert!(piece_block_from_message(&parsed, 7, 32768, 5).is_none());
    assert!(piece_block_from_message(&parsed, 8, 32768, 4).is_none());
}

#[test]
fn bitfield_frame_parses_back() {
    let bytes = Message::bitfield(&[0b1010_0000]).to_bytes();
    let parsed = Message::parse(bytes.as_slice()).unwrap();
    assert_eq!(*parsed.get_tag(), MessageTag::Bitfield);
    assert_eq!(parsed.get_payload(), &vec![0b1010_0000]);
}

#[test]
fn parse_rejects_short_and_unknown_frames() {
    assert_eq!(
        Message::parse(&[0, 0, 0]).unwrap_err(),
        Error::NotEnoughData { minimum_length: 5, actual_length: 3 }
    );
    assert_eq!(
        Message::parse(&[0, 0, 0, 1, 13]).unwrap_err(),
        Error::UnrecognizedMessageTag(13)
    );
    assert_eq!(*Message::parse(&[0, 0, 0, 1, 0]).unwrap().get_tag(), MessageTag::Choke);
    assert_eq!(
        Message::parse(&[0, 0, 0, 0, 1]).unwrap_err(),
        Error::InvalidMessageLength { minimum_length: 1, actual_length: 0 }
    );
    assert_eq!(
        Message::parse(&[0, 0, 0, 2, 1]).unwrap_err(),
        Error::NotEnoughData { minimum_length: 6, actual_length: 5 }
    );
    assert_eq!(
        Message::parse(&[0, 0, 0, 9, 7, 0, 0, 0, 0]).unwrap_err(),
        Error::NotEnoughData { minimum_length: 13, actual_length: 9 }
    );
    assert_eq!(
        Message::parse(&[0, 0, 0, 2, 7, 0, 0, 0, 0]).unwrap_err(),
        Error::InvalidMessageLength { minimum_length: 9, actual_length: 2 }
    );
}

#[test]
fn message_tag_bytes_round_trip() {
    for b in [0u8, 1, 2, 3, 4, 5, 6, 7, 8, 9, 20] {
        let tag = MessageTag::from_byte(b).unwrap();
        assert_eq!(tag.as_byte(), b);
    }
    assert_eq!(MessageTag::from_byte(10).unwrap_err(), Error::UnrecognizedMessageTag(10));
}

#[test]
fn handshake_bytes_round_trip() {
    let info_hash = [0x11u8; 20];
    let peer_id = *b"12345678901234567890";
    let message = HandshakeMessage::new(&info_hash, &peer_id);
    let bytes = message.to_bytes();
    assert_eq!(bytes.len(), 68);
    assert_eq!(bytes[0], 19);
    assert_eq!(&bytes[1..20], b"BitTorrent protocol");
    assert_eq!(&bytes[20..28], &[0u8; 8]);
    assert_eq!(&bytes[28..48], &info_hash);
    assert_eq!(&bytes[48..68], &peer_id);

    let parsed = HandshakeMessage::from_bytes(bytes.as_slice());
    assert_eq!(parsed.get_info_hash().as_slice(), &info_hash);
    assert_eq!(parsed.get_peer_id().as_slice(), &peer_id);
    assert!(!parsed.is_extension_supported());

    let magnet = HandshakeMessage::new_magnet(&info_hash, &peer_id);
    let magnet_bytes = magnet.to_bytes();
    assert_eq!(&magnet_bytes[20..28], &[0, 0, 0, 0, 0, 0x10, 0, 0]);
    assert!(HandshakeMessage::from_bytes(magnet_bytes.as_slice()).is_extension_supported());
}

#[test]
fn handshake_display_line() {
    let info_hash = [0u8; 20];
    let peer_id = *b"12345678901234567890";
    let message = HandshakeMessage::new(&info_hash, &peer_id);
    assert_eq!(
        message.display_text(),
        format!("Peer ID: {}\n", hex::encode(peer_id))
    );
}

#[test]
fn handshake_reply_validation() {
    let info_hash = [0x22u8; 20];
    let peer_id = *b"abcdefghijklmnopqrst";
    let bytes = HandshakeMessage::new(&info_hash, &peer_id).to_bytes();
    let reply = HandshakeMessage::from_wire(bytes.as_slice()).unwrap();
    assert!(reply.matches_info_hash(&info_hash));
    assert!(!reply.matches_info_hash(&[0x23u8; 20]));

    assert_eq!(
        HandshakeMessage::from_wire(&bytes[0..67]).unwrap_err(),
        Error::BadHandshake
    );
    let mut wrong_first = bytes.clone();
    wrong_first[0] = 18;
    assert_eq!(
        HandshakeMessage::from_wire(wrong_first.as_slice()).unwrap_err(),
        Error::BadHandshake
    );
    let mut wrong_name = bytes.clone();
    wrong_name[1] = b'b';
    assert_eq!(
        HandshakeMessage::from_wire(wrong_name.as_slice()).unwrap_err(),
        Error::BadHandshake
    );
}

#[test]
fn simple_message_constructors() {
    assert_eq!(*Message::choke().get_tag(), MessageTag::Choke);
    assert_eq!(*Message::not_interested().get_tag(), MessageTag::NotInterested);
    assert_eq!(Message::interested().to_bytes(), vec![0, 0, 0, 1, 2]);
    assert_eq!(Message::have(258).to_bytes(), vec![0, 0, 0, 5, 4, 0, 0, 1, 2]);
    assert_eq!(
        Message::cancel(1, 2, 3).to_bytes(),
        vec![0, 0, 0, 13, 8, 0, 0, 0, 1, 0, 0, 0, 2, 0, 0, 0, 3]
    );
    let extended = Message::extended(0, b"d1:md11:ut_metadatai1eee");
    assert_eq!(*extended.get_tag(), MessageTag::Extended);
    assert_eq!(extended.get_payload()[0], 0);
}

#[test]
fn intermediate_have_frames_parse() {
    let bytes = Message::have(9).to_bytes();
    let parsed = Message::parse(bytes.as_slice()).unwrap();
    assert_eq!(*parsed.get_tag(), MessageTag::Have);
    assert_eq!(parsed.get_payload(), &vec![0, 0, 0, 9]);
    let request = Message::request(1, 2, 3).to_bytes();
    assert_eq!(*Message::parse(request.as_slice()).unwrap().get_tag(), MessageTag::Request);
}

#[test]
fn extension_bit_is_read_from_byte_twenty_five_alone() {
    let info_hash = [0x11u8; 20];
    let peer_id = *b"12345678901234567890";
    let mut bytes = HandshakeMessage::new_magnet(&info_hash, &peer_id).to_bytes();
    // a peer that also advertises other reserved bits still supports it
    bytes[27] |= 0x01;
    bytes[20] |= 0x80;
    let parsed = HandshakeMessage::from_bytes(bytes.as_slice());
    assert!(parsed.is_extension_supported());
    // other reserved bits alone do not advertise the extension
    bytes[25] = 0;
    let parsed = HandshakeMessage::from_bytes(bytes.as_slice());
    assert!(!parsed.is_extension_supported());
}
