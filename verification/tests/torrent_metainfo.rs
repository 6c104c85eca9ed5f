use bittorrent::bencode::encoder::{bencode, bencode_dict};
use bittorrent::torrent::piece::{get_last_piece_length, Block, Piece, DEFAULT_BLOCK_SIZE};
use bittorrent::torrent::torrent::{Torrent, TorrentParseError};
use bittorrent::types::{ByteString, DataType};
use sha1::Digest;

fn fixture_torrent_bytes() -> (Vec<u8>, Vec<u8>, Vec<u8>) {
    // two pieces: a 20-byte file with 16-byte pieces
    let hashes: Vec<u8> = (0u8..40).collect();
    let info = vec![
        (b"length".to_vec(), DataType::Integer(20)),
        (b"piece length".to_vec(), DataType::Integer(16)),
        (b"pieces".to_vec(), DataType::ByteString(ByteString::new(&hashes))),
    ];
    let info_bytes = bencode_dict(&info);
    let top = DataType::Dict(vec![
        (
            b"announce".to_vec(),
            DataType::ByteString(ByteString::new(&b"http://tracker.example/announce".to_vec())),
        ),
        (b"info".to_vec(), DataType::Dict(info)),
    ]);
    (bencode(&top), info_bytes, hashes)
}

#[test]
fn parse_reads_all_fields() {
    let (bytes, info_bytes, hashes) = fixture_torrent_bytes();
    let torrent = Torrent::parse(bytes.as_slice()).unwrap();
    assert_eq!(torrent.get_announce(), "http://tracker.example/announce");
    assert_eq!(torrent.get_length(), 20);
    assert_eq!(torrent.get_piece_length(), 16);
    let expected_hash = sha1::Sha1::digest(&info_bytes).to_vec();
    assert_eq!(torrent.get_info_hash(), &expected_hash);

    let pieces = torrent.get_pieces();
    assert_eq!(pieces.len(), 2);
    assert_eq!(pieces[0].get_index(), 0);
    assert_eq!(pieces[0].get_hash().as_slice(), &hashes[0..20]);
    assert_eq!(pieces[0].get_begin(), 0);
    assert_eq!(pieces[0].get_length(), 16);
    assert_eq!(pieces[1].get_index(), 1);
    assert_eq!(pieces[1].get_hash().as_slice(), &hashes[20..40]);
    assert_eq!(pieces[1].get_begin(), 16);
    assert_eq!(pieces[1].get_length(), 4);

    // each piece is one short block here, far below the block size
    let blocks = pieces[1].get_blocks();
    assert_eq!(blocks.len(), 1);
    assert_eq!(blocks[0].get_begin(), 0);
    assert_eq!(blocks[0].get_length(), 4);
}

#[test]
fn info_text_lists_every_field() {
    let (bytes, info_bytes, hashes) = fixture_torrent_bytes();
    let torrent = Torrent::parse(bytes.as_slice()).unwrap();
    let expected = format!(
        "Tracker URL: {}\nLength: {}\nInfo Hash: {}\nPiece Length: {}\nPiece Hashes:\n{}\n{}",
        "http://tracker.example/announce",
        20,
        hex::encode(sha1::Sha1::digest(&info_bytes)),
        16,
        hex::encode(&hashes[0..20]),
        hex::encode(&hashes[20..40]),
    );
    assert_eq!(torrent.info_text(), expected);
}

#[test]
fn parse_rejects_missing_fields() {
    let no_announce = bencode(&DataType::Dict(vec![(
        b"info".to_vec(),
        DataType::Dict(vec![]),
    )]));
    assert!(matches!(
        Torrent::parse(no_announce.as_slice()),
        Err(TorrentParseError::InvalidMetaInfo(_))
    ));

    let not_bencoded = Torrent::parse(b"xyz");
    assert!(matches!(not_bencoded, Err(TorrentParseError::DecodeError(_))));

    let ragged_pieces = bencode(&DataType::Dict(vec![
        (
            b"announce".to_vec(),
            DataType::ByteString(ByteString::new(&b"http://t/a".to_vec())),
        ),
        (
            b"info".to_vec(),
            DataType::Dict(vec![
                (b"length".to_vec(), DataType::Integer(1)),
                (b"piece length".to_vec(), DataType::Integer(1)),
                (b"pieces".to_vec(), DataType::ByteString(ByteString::new(&vec![0u8; 19]))),
            ]),
        ),
    ]));
    assert!(matches!(
        Torrent::parse(ragged_pieces.as_slice()),
        Err(TorrentParseError::InvalidMetaInfo(_))
    ));
}

#[test]
fn last_piece_takes_the_remainder() {
    assert_eq!(get_last_piece_length(20, 16), 4);
    assert_eq!(get_last_piece_length(32, 16), 16);
    assert_eq!(get_last_piece_length(1, 16), 1);
}

#[test]
fn blocks_tile_large_pieces() {
    // a piece of two full blocks and a remainder
    let hashes: Vec<u8> = vec![7u8; 20];
    let piece_len: i64 = (2 * DEFAULT_BLOCK_SIZE + 100) as i64;
    let top = DataType::Dict(vec![
        (
            b"announce".to_vec(),
            DataType::ByteString(ByteString::new(&b"http://t/a".to_vec())),
        ),
        (
            b"info".to_vec(),
            DataType::Dict(vec![
                (b"length".to_vec(), DataType::Integer(piece_len)),
                (b"piece length".to_vec(), DataType::Integer(piece_len)),
                (b"pieces".to_vec(), DataType::ByteString(ByteString::new(&hashes))),
            ]),
        ),
    ]);
    let torrent = Torrent::parse(bencode(&top).as_slice()).unwrap();
    let pieces = torrent.get_pieces();
    assert_eq!(pieces.len(), 1);
    let blocks = pieces[0].get_blocks();
    assert_eq!(blocks.len(), 3);
    assert_eq!(blocks[0].get_begin(), 0);
    assert_eq!(blocks[0].get_length(), DEFAULT_BLOCK_SIZE);
    assert_eq!(blocks[1].get_begin(), DEFAULT_BLOCK_SIZE);
    assert_eq!(blocks[1].get_length(), DEFAULT_BLOCK_SIZE);
    assert_eq!(blocks[2].get_begin(), 2 * DEFAULT_BLOCK_SIZE);
    assert_eq!(blocks[2].get_length(), 100);
    assert_eq!(pieces[0].get_length() as i64, piece_len);
}

#[test]
fn piece_accessors_report_constructor_values() {
    let piece = Piece::new(3, vec![9u8; 20], vec![Block::new(0, 5), Block::new(5, 2)], 48);
    assert_eq!(piece.get_index(), 3);
    assert_eq!(piece.get_begin(), 48);
    assert_eq!(piece.get_hash(), &vec![9u8; 20]);
    assert_eq!(piece.get_length(), 7);
    assert_eq!(piece.get_blocks().len(), 2);
}

fn torrent_bytes_with_info(entries: Vec<(Vec<u8>, DataType)>) -> Vec<u8> {
    bencode(&DataType::Dict(vec![
        (
            b"announce".to_vec(),
            DataType::ByteString(ByteString::new(&b"http://t/a".to_vec())),
        ),
        (b"info".to_vec(), DataType::Dict(entries)),
    ]))
}

#[test]
fn parse_rejects_inconsistent_or_signed_geometry() {
    // one digest but a length that needs two pieces
    let mismatched = torrent_bytes_with_info(vec![
        (b"length".to_vec(), DataType::Integer(40)),
        (b"piece length".to_vec(), DataType::Integer(16)),
        (b"pieces".to_vec(), DataType::ByteString(ByteString::new(&vec![0u8; 20]))),
    ]);
    match Torrent::parse(mismatched.as_slice()) {
        Err(TorrentParseError::InvalidMetaInfo(message)) => assert_eq!(
            message,
            "The number of piece digests does not match the length and the piece length."
        ),
        other => panic!("expected a metainfo error, got {other:?}"),
    }

    // a negative length
    let negative = torrent_bytes_with_info(vec![
        (b"length".to_vec(), DataType::Integer(-1)),
        (b"piece length".to_vec(), DataType::Integer(16)),
        (b"pieces".to_vec(), DataType::ByteString(ByteString::new(&vec![0u8; 20]))),
    ]);
    match Torrent::parse(negative.as_slice()) {
        Err(TorrentParseError::InvalidMetaInfo(message)) => {
            assert_eq!(message, "The 'length' value is not an unsigned 64-bit count.")
        }
        other => panic!("expected a metainfo error, got {other:?}"),
    }

    // a piece length beyond 32 unsigned bits
    let oversized = torrent_bytes_with_info(vec![
        (b"length".to_vec(), DataType::Integer(16)),
        (b"piece length".to_vec(), DataType::Integer(0x1_0000_0000)),
        (b"pieces".to_vec(), DataType::ByteString(ByteString::new(&vec![0u8; 20]))),
    ]);
    match Torrent::parse(oversized.as_slice()) {
        Err(TorrentParseError::InvalidMetaInfo(message)) => {
            assert_eq!(message, "The 'piece length' value is not an unsigned 32-bit count.")
        }
        other => panic!("expected a metainfo error, got {other:?}"),
    }

    // a zero piece length with content
    let zero = torrent_bytes_with_info(vec![
        (b"length".to_vec(), DataType::Integer(16)),
        (b"piece length".to_vec(), DataType::Integer(0)),
        (b"pieces".to_vec(), DataType::ByteString(ByteString::new(&vec![0u8; 20]))),
    ]);
    match Torrent::parse(zero.as_slice()) {
        Err(TorrentParseError::InvalidMetaInfo(message)) => {
            assert_eq!(message, "The piece length is zero.")
        }
        other => panic!("expected a metainfo error, got {other:?}"),
    }
}

#[test]
fn checked_piece_length_is_the_block_sum() {
    let piece = Piece::new(0, vec![1u8; 20], vec![Block::new(0, 7), Block::new(7, 9)], 0);
    assert_eq!(piece.try_length(), Some(16));
    let oversized = Piece::new(
        0,
        vec![1u8; 20],
        vec![Block::new(0, u32::MAX), Block::new(0, u32::MAX)],
        0,
    );
    assert_eq!(oversized.try_length(), None);
}
