use bittorrent::cli::peer_id;
use bittorrent::hash::matches_sha1;
use bittorrent::torrent::download::{next_piece_index, piece_buffer, place_block, verify_piece};
use bittorrent::torrent::piece::{Block, Piece};
use sha1::Digest;

#[test]
fn sha1_digest_matches_a_known_vector() {
    let data = b"abc".to_vec();
    let expected = hex::decode("a9993e364706816aba3e25717850c26c9cd0d89d").unwrap();
    assert!(matches_sha1(&data, &expected));
    assert!(!matches_sha1(&data, &data));
    assert!(!matches_sha1(&b"abd".to_vec(), &expected));
}

#[test]
fn a_piece_assembles_from_blocks_and_verifies() {
    let content = b"hello".to_vec();
    let digest = sha1::Sha1::digest(&content).to_vec();
    let piece = Piece::new(0, digest, vec![Block::new(0, 3), Block::new(3, 2)], 0);
    let mut buffer = piece_buffer(&piece);
    assert_eq!(buffer, vec![0u8; 5]);
    place_block(&mut buffer, 0, b"hel");
    place_block(&mut buffer, 3, b"lo");
    assert_eq!(buffer, content);
    assert!(verify_piece(&buffer, &piece));
    place_block(&mut buffer, 0, b"xel");
    assert!(!verify_piece(&buffer, &piece));
}

#[test]
fn the_work_queue_hands_out_indices_from_the_back() {
    let mut queue: Vec<usize> = vec![0, 1, 2];
    assert_eq!(next_piece_index(&mut queue), Some(2));
    assert_eq!(next_piece_index(&mut queue), Some(1));
    assert_eq!(next_piece_index(&mut queue), Some(0));
    assert_eq!(next_piece_index(&mut queue), None);
    assert!(queue.is_empty());
}

#[test]
fn the_peer_id_is_twenty_ascii_digits() {
    let id = peer_id();
    assert_eq!(id, b"12345678901234567890".to_vec());
}
