use vstd::prelude::*;

use crate::hash::{matches_sha1, sha1_of};
use crate::torrent::message::{u32_be, Message, MessageTag};
use crate::torrent::piece::{blocks_total, Piece};
use crate::text::bytes_eq;

verus! {

/// A fresh zeroed buffer for a piece's bytes.
pub fn piece_buffer(piece: &Piece) -> (r: Vec<u8>)
    requires
        blocks_total(piece@.blocks) <= u32::MAX,
    ensures
        r@.len() == blocks_total(piece@.blocks),
        forall|i: int| 0 <= i < r@.len() ==> r@[i] == 0u8,
{
    let len = piece.get_length();
    let mut r: Vec<u8> = Vec::new();
    let mut i: u32 = 0;
    while i < len
        invariant
            i <= len,
            r@.len() == i,
            forall|j: int| 0 <= j < r@.len() ==> r@[j] == 0u8,
        decreases len - i,
    {
        r.push(0);
        i = i + 1;
    }
    r
}

/// A buffer with one range overwritten: the bytes before it, the new
/// data, the bytes after it.
pub open spec fn spliced(buffer: Seq<u8>, begin: int, data: Seq<u8>) -> Seq<u8> {
    buffer.subrange(0, begin) + data + buffer.subrange(begin + data.len(), buffer.len() as int)
}

/// Writes to two ranges that do not overlap land the same bytes in
/// either order, so workers that write their own pieces may interleave
/// freely.
pub proof fn lemma_disjoint_writes_commute(
    buffer: Seq<u8>,
    a_begin: int,
    a: Seq<u8>,
    b_begin: int,
    b: Seq<u8>,
)
    requires
        0 <= a_begin,
        0 <= b_begin,
        a_begin + a.len() <= b_begin || b_begin + b.len() <= a_begin,
        a_begin + a.len() <= buffer.len(),
        b_begin + b.len() <= buffer.len(),
    ensures
        spliced(spliced(buffer, a_begin, a), b_begin, b) == spliced(
            spliced(buffer, b_begin, b),
            a_begin,
            a,
        ),
{
    assert(spliced(spliced(buffer, a_begin, a), b_begin, b) =~= spliced(
        spliced(buffer, b_begin, b),
        a_begin,
        a,
    ));
}

/// Writes a downloaded block into the piece buffer at its offset,
/// leaving every other byte unchanged.
pub fn place_block(buffer: &mut Vec<u8>, begin: usize, data: &[u8])
    requires
        begin + data@.len() <= old(buffer)@.len(),
    ensures
        final(buffer)@.len() == old(buffer)@.len(),
        final(buffer)@ == spliced(old(buffer)@, begin as int, data@),
{
    let ghost orig = buffer@;
    let cap = buffer.len();
    proof {
        assert(orig.len() == cap);
    }
    let mut i: usize = 0;
    while i < data.len()
        invariant
            i <= data@.len(),
            orig.len() <= usize::MAX,
            begin + data@.len() <= orig.len(),
            buffer@.len() == orig.len(),
            forall|j: int| 0 <= j < begin ==> buffer@[j] == orig[j],
            forall|j: int| 0 <= j < i ==> buffer@[begin + j] == data@[j],
            forall|j: int| begin + data@.len() <= j < orig.len() ==> buffer@[j] == orig[j],
        decreases data@.len() - i,
    {
        let b = data[i];
        buffer[begin + i] = b;
        i = i + 1;
    }
    proof {
        assert(buffer@ =~= spliced(orig, begin as int, data@));
    }
}

/// The block carried by a Piece message, provided the message answers
/// exactly the request that was sent: same piece index, same offset,
/// and a block of the requested length.
pub fn piece_block_from_message(msg: &Message, index: u32, begin: u32, length: u32) -> (r: Option<
    Vec<u8>,
>)
    ensures
        match r {
            Some(b) => msg@.tag == MessageTag::Piece && msg@.payload == u32_be(index) + u32_be(
                begin,
            ) + b@ && b@.len() == length,
            None => msg@.tag != MessageTag::Piece || msg@.payload.len() != 8 + length
                || msg@.payload.subrange(0, 4) != u32_be(index) || msg@.payload.subrange(4, 8)
                != u32_be(begin),
        },
{
    match msg.get_tag() {
        MessageTag::Piece => {},
        _ => {
            return None;
        },
    }
    let payload = msg.get_payload();
    if (payload.len() as u64) != 8 + (length as u64) {
        return None;
    }
    let expected_index = crate::torrent::message::u32_to_be(index);
    let expected_begin = crate::torrent::message::u32_to_be(begin);
    if !bytes_eq(&payload.as_slice()[0..4], expected_index.as_slice()) {
        return None;
    }
    if !bytes_eq(&payload.as_slice()[4..8], expected_begin.as_slice()) {
        return None;
    }
    let block = vstd::slice::slice_to_vec(&payload.as_slice()[8..payload.len()]);
    proof {
        assert(msg@.payload =~= u32_be(index) + u32_be(begin) + block@);
    }
    Some(block)
}

/// Whether downloaded piece bytes carry the expected SHA-1 digest.
pub fn verify_piece(data: &Vec<u8>, piece: &Piece) -> (r: bool)
    ensures
        r == (sha1_of(data@) == piece@.hash),
{
    matches_sha1(data, piece.get_hash())
}

/// Takes the next piece index off the back of the shared work queue,
/// if any is left.
pub fn next_piece_index(queue: &mut Vec<usize>) -> (r: Option<usize>)
    ensures
        match r {
            Some(i) => old(queue)@.len() > 0 && i == old(queue)@.last() && final(queue)@ == old(
                queue,
            )@.drop_last(),
            None => old(queue)@.len() == 0 && final(queue)@ == old(queue)@,
        },
{
    queue.pop()
}

} // verus!
