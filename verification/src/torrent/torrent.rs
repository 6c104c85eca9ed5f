use vstd::prelude::*;

use vstd::string::StringSliceAdditionalSpecFns;

use crate::bencode::decoder::decode;
use crate::bencode::encoder::bencode;
use crate::bencode::errors::DecodeError;
use crate::bencode::model::{decode_err_matches, enc, parse_value};
use crate::hash::{sha1_digest, sha1_of};
use crate::text::{dec_chars, hex_chars, hex_encode, push_char, u64_to_string};
use crate::torrent::piece::{
    build_blocks, get_last_piece_length, spec_blocks, Piece, PieceModel,
};
use crate::types::{dict_find, dict_get, BValue, DataType};

verus! {

/// Failure of reading a `.torrent` file: either its bytes are not
/// bencoded, or the decoded value lacks the required shape.
#[derive(Debug, PartialEq)]
pub enum TorrentParseError {
    DecodeError(DecodeError),
    InvalidMetaInfo(String),
}

/// What a metainfo dictionary holds, field by field, before any
/// geometry is derived: the raw announce bytes, the info entries, and
/// the three required info fields.
pub struct MetainfoModel {
    pub announce: Seq<u8>,
    pub info: Seq<(Seq<u8>, BValue)>,
    pub length: u64,
    pub piece_length: u32,
    pub pieces_bytes: Seq<u8>,
}

pub open spec fn key_announce() -> Seq<u8> {
    "announce".spec_bytes()
}

pub open spec fn key_info() -> Seq<u8> {
    "info".spec_bytes()
}

pub open spec fn key_length() -> Seq<u8> {
    "length".spec_bytes()
}

pub open spec fn key_piece_length() -> Seq<u8> {
    "piece length".spec_bytes()
}

pub open spec fn key_pieces() -> Seq<u8> {
    "pieces".spec_bytes()
}

/// The number of pieces the `pieces` byte string describes.
pub open spec fn spec_piece_count(m: MetainfoModel) -> int {
    m.pieces_bytes.len() as int / 20
}

/// Whether a decoded value is a well-shaped metainfo dictionary, and
/// its fields if so.  The required fields are `announce` (a byte
/// string) and an `info` dictionary with `length` (an unsigned 64-bit
/// count) and `piece length` (an unsigned 32-bit count) integers and a
/// `pieces` byte string whose length is a multiple of twenty.  The
/// geometry must be consistent and fit the machine: at most `u32::MAX`
/// pieces, all piece offsets within an unsigned 64-bit file, and the
/// digest count equal to the ceiling of the length over the piece
/// length.
pub open spec fn spec_metainfo(v: BValue) -> Option<MetainfoModel> {
    match v {
        BValue::Dict(d) => match dict_find(d, key_announce()) {
            Some(BValue::Bytes(announce)) => match dict_find(d, key_info()) {
                Some(BValue::Dict(info)) => match dict_find(info, key_length()) {
                    Some(BValue::Int(len)) => match dict_find(info, key_piece_length()) {
                        Some(BValue::Int(pl)) => match dict_find(info, key_pieces()) {
                            Some(BValue::Bytes(pieces_bytes)) => {
                                if 0 <= len <= u64::MAX && 0 <= pl <= u32::MAX {
                                    let m = MetainfoModel {
                                        announce,
                                        info,
                                        length: (len as u64),
                                        piece_length: (pl as u32),
                                        pieces_bytes,
                                    };
                                    let n = spec_piece_count(m);
                                    if pieces_bytes.len() % 20 == 0 && n <= u32::MAX && n
                                        * m.piece_length <= u64::MAX && (if m.length == 0 {
                                        n == 0
                                    } else {
                                        m.piece_length > 0 && n * m.piece_length >= m.length && (
                                        n - 1) * m.piece_length < m.length
                                    }) {
                                        Some(m)
                                    } else {
                                        None
                                    }
                                } else {
                                    None
                                }
                            },
                            _ => None,
                        },
                        _ => None,
                    },
                    _ => None,
                },
                _ => None,
            },
            _ => None,
        },
        _ => None,
    }
}

/// The message a rejected metainfo carries, naming the offending field
/// or the geometric inconsistency, following the order in which the
/// fields are examined.
pub open spec fn spec_metainfo_err(v: BValue) -> Seq<char> {
    match v {
        BValue::Dict(d) => match dict_find(d, key_announce()) {
            Some(BValue::Bytes(_)) => match dict_find(d, key_info()) {
                Some(BValue::Dict(info)) => match dict_find(info, key_length()) {
                    Some(BValue::Int(len)) => if !(0 <= len <= u64::MAX) {
                        "The 'length' value is not an unsigned 64-bit count."@
                    } else {
                        match dict_find(info, key_piece_length()) {
                            Some(BValue::Int(pl)) => if !(0 <= pl <= u32::MAX) {
                                "The 'piece length' value is not an unsigned 32-bit count."@
                            } else {
                                match dict_find(info, key_pieces()) {
                                    Some(BValue::Bytes(pieces_bytes)) => {
                                        let length = len as u64;
                                        let p = pl as u32;
                                        let n = pieces_bytes.len() as int / 20;
                                        if pieces_bytes.len() % 20 != 0 {
                                            "The length of the 'pieces' value is not a multiple of 20."@
                                        } else if n > u32::MAX {
                                            "Too many pieces."@
                                        } else if n * p > u64::MAX {
                                            "The pieces do not fit an unsigned 64-bit file."@
                                        } else if length == 0 {
                                            "The number of piece digests does not match the length and the piece length."@
                                        } else if p == 0 {
                                            "The piece length is zero."@
                                        } else {
                                            "The number of piece digests does not match the length and the piece length."@
                                        }
                                    },
                                    Some(_) => "Could not convert the value of the 'pieces' key into a byte string."@,
                                    None => "Could not find the 'pieces' key."@,
                                }
                            },
                            Some(_) => "Could not convert the value of the 'piece length' key into i64."@,
                            None => "Could not find the 'piece length' key."@,
                        }
                    },
                    Some(_) => "Could not convert the value of the 'length' key to i64."@,
                    None => "Could not find the 'length' key."@,
                },
                Some(_) => "Could not convert the value for the 'info' key into a dict."@,
                None => "Could not find the 'info' key."@,
            },
            Some(_) => "Could not convert the value for the 'announce' key into a string."@,
            None => "Could not find the 'announce' key."@,
        },
        _ => "Could not convert into a Torrent. Only dicts are supported."@,
    }
}

/// The length of piece `i` out of `n`: a full piece, except the last,
/// which takes the remainder of the total length when there is one.
pub open spec fn spec_piece_length_at(total: u64, piece_length: u32, n: int, i: int) -> int {
    if i < n - 1 {
        piece_length as int
    } else if total as int % piece_length as int > 0 {
        total as int % piece_length as int
    } else {
        piece_length as int
    }
}

/// The lengths of the first `k` pieces, added up.
pub open spec fn sum_piece_lengths(total: u64, piece_length: u32, n: int, k: int) -> int
    decreases k,
{
    if k <= 0 {
        0
    } else {
        sum_piece_lengths(total, piece_length, n, k - 1) + spec_piece_length_at(
            total,
            piece_length,
            n,
            k - 1,
        )
    }
}

proof fn lemma_sum_full_pieces(total: u64, piece_length: u32, n: int, k: int)
    requires
        0 <= k <= n - 1 || (0 <= k <= n && total as int % piece_length as int == 0
            && piece_length > 0 && n == total as int / piece_length as int),
    ensures
        k <= n - 1 ==> sum_piece_lengths(total, piece_length, n, k) == k * piece_length,
        (total as int % piece_length as int == 0 && piece_length > 0 && n == total as int
            / piece_length as int && k <= n) ==> sum_piece_lengths(total, piece_length, n, k)
            == k * piece_length,
    decreases k,
{
    if k > 0 {
        lemma_sum_full_pieces(total, piece_length, n, k - 1);
        assert((k - 1) * piece_length as int + piece_length as int == k * piece_length as int)
            by (nonlinear_arith);
        if total as int % piece_length as int == 0 && piece_length > 0 && n == total as int
            / piece_length as int && k == n {
            vstd::arithmetic::div_mod::lemma_fundamental_div_mod(
                total as int,
                piece_length as int,
            );
            assert((n - 1) * piece_length as int + piece_length as int == n
                * piece_length as int) by (nonlinear_arith);
        }
    }
}

/// The piece geometry covers the file exactly: with the piece count
/// the ceiling of length over piece length, every piece but the last
/// is full, the last takes what remains, and all lengths add up to the
/// total.
pub proof fn lemma_pieces_cover_length(total: u64, piece_length: u32, n: int)
    requires
        piece_length > 0,
        n == (total as int + piece_length as int - 1) / (piece_length as int),
    ensures
        sum_piece_lengths(total, piece_length, n, n) == total,
        forall|i: int|
            0 <= i < n - 1 ==> spec_piece_length_at(total, piece_length, n, i)
                == piece_length as int,
        n > 0 ==> spec_piece_length_at(total, piece_length, n, n - 1) == total as int - (n - 1)
            * piece_length as int,
{
    let p = piece_length as int;
    let t = total as int;
    let q = t / p;
    let r = t % p;
    vstd::arithmetic::div_mod::lemma_fundamental_div_mod(t, p);
    if r == 0 {
        assert(t + p - 1 == q * p + (p - 1));
        vstd::arithmetic::div_mod::lemma_fundamental_div_mod_converse(t + p - 1, p, q, p - 1);
        assert(n == q);
        if n == 0 {
            assert(q * p == 0) by (nonlinear_arith)
                requires
                    q == 0,
            ;
            assert(t == 0);
        } else {
            lemma_sum_full_pieces(total, piece_length, n, n);
            assert(sum_piece_lengths(total, piece_length, n, n) == n * p);
            assert(t - (n - 1) * p == p) by (nonlinear_arith)
                requires
                    t == q * p + r,
                    r == 0,
                    n == q,
            ;
        }
    } else {
        assert((q + 1) * p == q * p + p) by (nonlinear_arith);
        assert(t + p - 1 == (q + 1) * p + (r - 1));
        vstd::arithmetic::div_mod::lemma_fundamental_div_mod_converse(t + p - 1, p, q + 1, r - 1);
        assert(n == q + 1);
        lemma_sum_full_pieces(total, piece_length, n, n - 1);
        assert(sum_piece_lengths(total, piece_length, n, n) == sum_piece_lengths(
            total,
            piece_length,
            n,
            n - 1,
        ) + spec_piece_length_at(total, piece_length, n, n - 1));
        assert(sum_piece_lengths(total, piece_length, n, n - 1) == (n - 1) * p);
        assert((n - 1) * p == q * p) by (nonlinear_arith)
            requires
                n == q + 1,
        ;
    }
}

/// The bytes the blocks of the first `k` pieces cover altogether.
pub open spec fn sum_piece_blocks(pieces: Seq<PieceModel>, k: int) -> int
    decreases k,
{
    if k <= 0 {
        0
    } else {
        sum_piece_blocks(pieces, k - 1) + crate::torrent::piece::blocks_total(
            pieces[k - 1].blocks,
        )
    }
}

/// The whole geometry covers the file: when the digest count is the
/// ceiling of length over piece length, the blocks of every piece cover
/// exactly that piece, and all pieces together cover exactly the total
/// length.
pub proof fn lemma_geometry_covers_file(m: MetainfoModel)
    requires
        m.piece_length > 0,
        spec_piece_count(m) == (m.length as int + m.piece_length as int - 1) / (
        m.piece_length as int),
    ensures
        forall|i: int|
            0 <= i < spec_piece_count(m) ==> crate::torrent::piece::blocks_total(
                #[trigger] spec_pieces(m)[i].blocks,
            ) == spec_piece_length_at(m.length, m.piece_length, spec_piece_count(m), i),
        sum_piece_blocks(spec_pieces(m), spec_piece_count(m)) == m.length,
{
    let n = spec_piece_count(m);
    lemma_pieces_cover_length(m.length, m.piece_length, n);
    assert forall|i: int|
        0 <= i < n implies crate::torrent::piece::blocks_total(
        #[trigger] spec_pieces(m)[i].blocks,
    ) == spec_piece_length_at(m.length, m.piece_length, n, i) by {
        let plen = spec_piece_length_at(m.length, m.piece_length, n, i);
        assert(0 <= plen <= m.piece_length) by {
            if i >= n - 1 {
                vstd::arithmetic::div_mod::lemma_mod_bound(
                    m.length as int,
                    m.piece_length as int,
                );
            }
        }
        crate::torrent::piece::lemma_blocks_cover_piece(plen as u32);
    }
    lemma_sum_blocks_eq_lengths(m, n);
}

proof fn lemma_sum_blocks_eq_lengths(m: MetainfoModel, k: int)
    requires
        m.piece_length > 0,
        spec_piece_count(m) == (m.length as int + m.piece_length as int - 1) / (
        m.piece_length as int),
        0 <= k <= spec_piece_count(m),
    ensures
        sum_piece_blocks(spec_pieces(m), k) == sum_piece_lengths(
            m.length,
            m.piece_length,
            spec_piece_count(m),
            k,
        ),
    decreases k,
{
    let n = spec_piece_count(m);
    if k > 0 {
        lemma_sum_blocks_eq_lengths(m, k - 1);
        let plen = spec_piece_length_at(m.length, m.piece_length, n, k - 1);
        assert(0 <= plen <= m.piece_length) by {
            if k - 1 >= n - 1 {
                vstd::arithmetic::div_mod::lemma_mod_bound(
                    m.length as int,
                    m.piece_length as int,
                );
            }
        }
        crate::torrent::piece::lemma_blocks_cover_piece(plen as u32);
        assert(spec_pieces(m)[k - 1].blocks == spec_blocks(plen as u32));
    }
}

/// A well-shaped metainfo has exactly the ceiling of length over piece
/// length many pieces, and a torrent read from it carries pieces whose
/// blocks cover the file's whole length.
pub proof fn lemma_parsed_torrent_geometry(v: BValue, t: TorrentModel)
    requires
        spec_metainfo(v) is Some,
        torrent_realizes(t, spec_metainfo(v)->Some_0),
    ensures
        t.length == 0 ==> t.pieces.len() == 0,
        t.length > 0 ==> t.pieces.len() == (t.length as int + t.piece_length as int - 1) / (
        t.piece_length as int),
        sum_piece_blocks(t.pieces, t.pieces.len() as int) == t.length,
{
    let m = spec_metainfo(v)->Some_0;
    let n = spec_piece_count(m);
    let p = m.piece_length as int;
    let length = m.length as int;
    assert(t.pieces.len() == n);
    if m.length == 0 {
        assert(n == 0);
        assert(sum_piece_blocks(t.pieces, 0) == 0);
    } else {
        let slack = n * p - length;
        assert(0 <= slack) by (nonlinear_arith)
            requires
                n * p >= length,
                slack == n * p - length,
        ;
        assert(slack < p) by (nonlinear_arith)
            requires
                (n - 1) * p < length,
                slack == n * p - length,
        ;
        assert(length + p - 1 == n * p + (p - 1 - slack));
        vstd::arithmetic::div_mod::lemma_fundamental_div_mod_converse(
            length + p - 1,
            p,
            n,
            p - 1 - slack,
        );
        lemma_geometry_covers_file(m);
        lemma_sum_blocks_congruence(t.pieces, spec_pieces(m), n);
    }
}

/// Equal piece tables have equal block sums.
proof fn lemma_sum_blocks_congruence(a: Seq<PieceModel>, b: Seq<PieceModel>, k: int)
    requires
        a == b,
    ensures
        sum_piece_blocks(a, k) == sum_piece_blocks(b, k),
{
}

/// The pieces a metainfo describes: for each twenty-byte digest, a
/// piece at offset `i * piece_length` tiled into blocks.
pub open spec fn spec_pieces(m: MetainfoModel) -> Seq<PieceModel> {
    Seq::new(
        spec_piece_count(m) as nat,
        |i: int|
            PieceModel {
                index: i as u32,
                hash: m.pieces_bytes.subrange(20 * i, 20 * i + 20),
                blocks: spec_blocks(
                    spec_piece_length_at(
                        m.length,
                        m.piece_length,
                        spec_piece_count(m),
                        i,
                    ) as u32,
                ),
                begin: ((i * m.piece_length) as u64),
            },
    )
}

pub open spec fn pieces_models(s: Seq<Piece>) -> Seq<PieceModel> {
    s.map_values(|p: Piece| p@)
}

/// What a parsed torrent is.
pub struct TorrentModel {
    pub announce: Seq<char>,
    pub length: u64,
    pub info_hash: Seq<u8>,
    pub piece_length: u32,
    pub pieces: Seq<PieceModel>,
}

/// Whether a torrent value realizes a metainfo: the announce text is
/// the lossy reading of the announce bytes, the info-hash is the SHA-1
/// digest of the re-encoded info dictionary, and the pieces follow the
/// derived geometry.
pub open spec fn torrent_realizes(t: TorrentModel, m: MetainfoModel) -> bool {
    &&& t.announce == crate::text::lossy_chars(m.announce)
    &&& t.length == m.length
    &&& t.info_hash == sha1_of(enc(BValue::Dict(m.info)))
    &&& t.piece_length == m.piece_length
    &&& t.pieces == spec_pieces(m)
}

/// The hexadecimal digests of the pieces, one per line.
pub open spec fn hash_lines(pieces: Seq<PieceModel>) -> Seq<char>
    decreases pieces.len(),
{
    if pieces.len() == 0 {
        Seq::empty()
    } else if pieces.len() == 1 {
        hex_chars(pieces[0].hash)
    } else {
        hash_lines(pieces.drop_last()) + seq!['\n'] + hex_chars(pieces.last().hash)
    }
}

/// The text the info subcommand prints for a torrent.
pub open spec fn spec_info_text(t: TorrentModel) -> Seq<char> {
    "Tracker URL: "@ + t.announce + "\nLength: "@ + dec_chars(t.length as nat)
        + "\nInfo Hash: "@ + hex_chars(t.info_hash) + "\nPiece Length: "@ + dec_chars(
        t.piece_length as nat,
    ) + "\nPiece Hashes:\n"@ + hash_lines(t.pieces)
}

/// A single-file torrent: where to announce, how long the file is, the
/// swarm identity, and the piece geometry.
#[derive(Debug)]
pub struct Torrent {
    announce: String,
    length: u64,
    info_hash: Vec<u8>,
    piece_length: u32,
    pieces: Vec<Piece>,
}

impl View for Torrent {
    type V = TorrentModel;

    closed spec fn view(&self) -> TorrentModel {
        TorrentModel {
            announce: self.announce@,
            length: self.length,
            info_hash: self.info_hash@,
            piece_length: self.piece_length,
            pieces: pieces_models(self.pieces@),
        }
    }
}

/// Splits the `pieces` digests into the torrent's pieces, each with its
/// offset and blocks.
pub fn parse_pieces(hashes: &Vec<u8>, torrent_length: u64, piece_length: u32) -> (r: Vec<Piece>)
    requires
        hashes@.len() % 20 == 0,
        hashes@.len() / 20 <= u32::MAX,
        hashes@.len() >= 20 ==> piece_length > 0,
        (hashes@.len() / 20) * piece_length <= u64::MAX,
    ensures
        pieces_models(r@) == Seq::new(
            (hashes@.len() / 20) as nat,
            |i: int|
                PieceModel {
                    index: i as u32,
                    hash: hashes@.subrange(20 * i, 20 * i + 20),
                    blocks: spec_blocks(
                        spec_piece_length_at(
                            torrent_length,
                            piece_length,
                            hashes@.len() as int / 20,
                            i,
                        ) as u32,
                    ),
                    begin: ((i * piece_length) as u64),
                },
        ),
{
    let total: usize = hashes.len();
    let n: usize = total / 20;
    let ghost target = Seq::new(
        (hashes@.len() / 20) as nat,
        |i: int|
            PieceModel {
                index: i as u32,
                hash: hashes@.subrange(20 * i, 20 * i + 20),
                blocks: spec_blocks(
                    spec_piece_length_at(
                        torrent_length,
                        piece_length,
                        hashes@.len() as int / 20,
                        i,
                    ) as u32,
                ),
                begin: ((i * piece_length) as u64),
            },
    );
    let mut pieces: Vec<Piece> = Vec::new();
    let mut i: usize = 0;
    let mut position: u64 = 0;
    while i < n
        invariant
            i <= n,
            n == hashes@.len() / 20,
            hashes@.len() % 20 == 0,
            hashes@.len() <= usize::MAX,
            n <= u32::MAX,
            n > 0 ==> piece_length > 0,
            n * piece_length <= u64::MAX,
            i < n ==> position == i * piece_length,
            pieces@.len() == i,
            pieces_models(pieces@) == target.subrange(0, i as int),
            target == Seq::new(
                (hashes@.len() / 20) as nat,
                |j: int|
                    PieceModel {
                        index: j as u32,
                        hash: hashes@.subrange(20 * j, 20 * j + 20),
                        blocks: spec_blocks(
                            spec_piece_length_at(
                                torrent_length,
                                piece_length,
                                hashes@.len() as int / 20,
                                j,
                            ) as u32,
                        ),
                        begin: ((j * piece_length) as u64),
                    },
            ),
        decreases n - i,
    {
        proof {
            assert((i as int + 1) * piece_length as int <= n as int * piece_length as int)
                by (nonlinear_arith)
                requires
                    i < n,
                    piece_length >= 0,
            ;
            assert(i as int * piece_length as int + piece_length as int == (i as int + 1)
                * piece_length as int) by (nonlinear_arith);
            assert(hashes@.len() == 20 * (n as int)) by {
                vstd::arithmetic::div_mod::lemma_fundamental_div_mod(hashes@.len() as int, 20);
            }
            assert(20 * (i as int) + 20 <= hashes@.len());
        }
        let hash = vstd::slice::slice_to_vec(&hashes[20 * i..20 * i + 20]);
        let this_len: u32 = if i == n - 1 {
            get_last_piece_length(torrent_length, piece_length)
        } else {
            piece_length
        };
        let blocks = build_blocks(this_len);
        let ghost pieces0 = pieces@;
        pieces.push(Piece::new(i as u32, hash, blocks, position));
        proof {
            assert forall|j: int|
                0 <= j < pieces@.len() implies pieces_models(pieces@)[j] == target.subrange(
                0,
                i as int + 1,
            )[j] by {
                if j < i {
                    assert(pieces@[j] == pieces0[j]);
                    assert(pieces_models(pieces0)[j] == target.subrange(0, i as int)[j]);
                }
            }
            assert(pieces_models(pieces@) =~= target.subrange(0, i as int + 1));
        }
        proof {
            assert(this_len <= piece_length);
        }
        position = position + (this_len as u64);
        i = i + 1;
    }
    proof {
        assert(target.subrange(0, n as int) =~= target);
    }
    pieces
}

impl Torrent {
    pub fn get_announce(&self) -> (r: &str)
        ensures
            r@ == self@.announce,
    {
        self.announce.as_str()
    }

    pub fn get_length(&self) -> (r: u64)
        ensures
            r == self@.length,
    {
        self.length
    }

    pub fn get_info_hash(&self) -> (r: &Vec<u8>)
        ensures
            r@ == self@.info_hash,
    {
        &self.info_hash
    }

    pub fn get_piece_length(&self) -> (r: u32)
        ensures
            r == self@.piece_length,
    {
        self.piece_length
    }

    pub fn get_pieces(&self) -> (r: &Vec<Piece>)
        ensures
            pieces_models(r@) == self@.pieces,
    {
        &self.pieces
    }

    /// The lines the client prints for the info subcommand: the
    /// tracker URL, the length, the info-hash in hexadecimal, the
    /// piece length, and one hexadecimal digest line per piece --
    /// for a parsed torrent, exactly the ceiling of the length over
    /// the piece length many (`lemma_parsed_torrent_geometry`).
    pub fn info_text(&self) -> (r: String)
        ensures
            r@ == spec_info_text(self@),
    {
        let mut s = "Tracker URL: ".to_owned();
        s.append(self.announce.as_str());
        s.append("\nLength: ");
        s.append(u64_to_string(self.length).as_str());
        s.append("\nInfo Hash: ");
        s.append(hex_encode(&self.info_hash).as_str());
        s.append("\nPiece Length: ");
        s.append(u64_to_string(self.piece_length as u64).as_str());
        s.append("\nPiece Hashes:\n");
        let ghost head = s@;
        let mut i: usize = 0;
        proof {
            assert(self@.pieces.subrange(0, 0) =~= Seq::<PieceModel>::empty());
        }
        while i < self.pieces.len()
            invariant
                i <= self.pieces@.len(),
                self@.pieces == pieces_models(self.pieces@),
                self@.pieces.len() == self.pieces@.len(),
                s@ == head + hash_lines(self@.pieces.subrange(0, i as int)),
            decreases self.pieces@.len() - i,
        {
            if i > 0 {
                push_char(&mut s, '\n');
            }
            s.append(hex_encode(self.pieces[i].get_hash()).as_str());
            proof {
                assert(self@.pieces.subrange(0, i as int + 1).drop_last() =~= self@.pieces
                    .subrange(0, i as int));
                assert(self@.pieces[i as int] == self.pieces@[i as int]@);
                assert(s@ =~= head + hash_lines(self@.pieces.subrange(0, i as int + 1)));
            }
            i = i + 1;
        }
        proof {
            assert(self@.pieces.subrange(0, self@.pieces.len() as int) =~= self@.pieces);
            assert(s@ =~= spec_info_text(self@));
        }
        s
    }

    /// Reads a torrent out of an already decoded value.
    pub fn from_value(data: &DataType) -> (r: Result<Torrent, TorrentParseError>)
        ensures
            match spec_metainfo(data@) {
                Some(m) => r matches Ok(t) && torrent_realizes(t@, m),
                None => r matches Err(e) && (e matches TorrentParseError::InvalidMetaInfo(s)
                    && s@ == spec_metainfo_err(data@)),
            },
    {
        let entries = match data.as_dict() {
            Some(d) => d,
            None => {
                return Err(
                    TorrentParseError::InvalidMetaInfo(
                        "Could not convert into a Torrent. Only dicts are supported.".to_owned(),
                    ),
                );
            },
        };
        let announce = match dict_get(entries, "announce") {
            Some(v) => match v.as_str() {
                Some(s) => s,
                None => {
                    return Err(
                        TorrentParseError::InvalidMetaInfo(
                            "Could not convert the value for the 'announce' key into a string."
                                .to_owned(),
                        ),
                    );
                },
            },
            None => {
                return Err(
                    TorrentParseError::InvalidMetaInfo(
                        "Could not find the 'announce' key.".to_owned(),
                    ),
                );
            },
        };
        let info = match dict_get(entries, "info") {
            Some(v) => v,
            None => {
                return Err(
                    TorrentParseError::InvalidMetaInfo("Could not find the 'info' key.".to_owned()),
                );
            },
        };
        let info_as_dict = match info.as_dict() {
            Some(d) => d,
            None => {
                return Err(
                    TorrentParseError::InvalidMetaInfo(
                        "Could not convert the value for the 'info' key into a dict.".to_owned(),
                    ),
                );
            },
        };
        let length: u64 = match dict_get(info_as_dict, "length") {
            Some(v) => match v.as_i64() {
                Some(x) => {
                    if x < 0 {
                        return Err(
                            TorrentParseError::InvalidMetaInfo(
                                "The 'length' value is not an unsigned 64-bit count.".to_owned(),
                            ),
                        );
                    }
                    x as u64
                },
                None => {
                    return Err(
                        TorrentParseError::InvalidMetaInfo(
                            "Could not convert the value of the 'length' key to i64.".to_owned(),
                        ),
                    );
                },
            },
            None => {
                return Err(
                    TorrentParseError::InvalidMetaInfo(
                        "Could not find the 'length' key.".to_owned(),
                    ),
                );
            },
        };
        let info_bencoded = bencode(info);
        let info_hash = sha1_digest(&info_bencoded);
        let piece_length: u32 = match dict_get(info_as_dict, "piece length") {
            Some(v) => match v.as_i64() {
                Some(x) => {
                    if x < 0 || x > 0xFFFFFFFFi64 {
                        return Err(
                            TorrentParseError::InvalidMetaInfo(
                                "The 'piece length' value is not an unsigned 32-bit count."
                                    .to_owned(),
                            ),
                        );
                    }
                    x as u32
                },
                None => {
                    return Err(
                        TorrentParseError::InvalidMetaInfo(
                            "Could not convert the value of the 'piece length' key into i64."
                                .to_owned(),
                        ),
                    );
                },
            },
            None => {
                return Err(
                    TorrentParseError::InvalidMetaInfo(
                        "Could not find the 'piece length' key.".to_owned(),
                    ),
                );
            },
        };
        let pieces_byte_string = match dict_get(info_as_dict, "pieces") {
            Some(v) => match v.as_byte_string() {
                Some(b) => b,
                None => {
                    return Err(
                        TorrentParseError::InvalidMetaInfo(
                            "Could not convert the value of the 'pieces' key into a byte string."
                                .to_owned(),
                        ),
                    );
                },
            },
            None => {
                return Err(
                    TorrentParseError::InvalidMetaInfo(
                        "Could not find the 'pieces' key.".to_owned(),
                    ),
                );
            },
        };
        let hashes = pieces_byte_string.get_data();
        if hashes.len() % 20 != 0 {
            return Err(
                TorrentParseError::InvalidMetaInfo(
                    "The length of the 'pieces' value is not a multiple of 20.".to_owned(),
                ),
            );
        }
        let n = hashes.len() / 20;
        if (n as u64) > (u32::MAX as u64) {
            return Err(
                TorrentParseError::InvalidMetaInfo("Too many pieces.".to_owned()),
            );
        }
        let prod: u64 = match (n as u64).checked_mul(piece_length as u64) {
            Some(p) => p,
            None => {
                return Err(
                    TorrentParseError::InvalidMetaInfo(
                        "The pieces do not fit an unsigned 64-bit file.".to_owned(),
                    ),
                );
            },
        };
        if length == 0 {
            if n != 0 {
                return Err(
                    TorrentParseError::InvalidMetaInfo(
                        "The number of piece digests does not match the length and the piece length."
                            .to_owned(),
                    ),
                );
            }
        } else {
            if piece_length == 0 {
                return Err(
                    TorrentParseError::InvalidMetaInfo("The piece length is zero.".to_owned()),
                );
            }
            if prod < length {
                return Err(
                    TorrentParseError::InvalidMetaInfo(
                        "The number of piece digests does not match the length and the piece length."
                            .to_owned(),
                    ),
                );
            }
            proof {
                assert(n >= 1);
                assert((n as int - 1) * piece_length as int == n as int * piece_length as int
                    - piece_length as int) by (nonlinear_arith);
                assert(prod >= piece_length) by (nonlinear_arith)
                    requires
                        n >= 1,
                        prod == n as int * piece_length as int,
                        piece_length >= 0,
                ;
            }
            if prod - (piece_length as u64) >= length {
                return Err(
                    TorrentParseError::InvalidMetaInfo(
                        "The number of piece digests does not match the length and the piece length."
                            .to_owned(),
                    ),
                );
            }
        }
        let pieces = parse_pieces(hashes, length, piece_length);
        let r = Torrent { announce, length, info_hash, piece_length, pieces };
        proof {
            assert(spec_metainfo(data@) is Some);
            let m = spec_metainfo(data@)->Some_0;
            assert(m.pieces_bytes == hashes@);
            assert(m.length == length);
            assert(m.piece_length == piece_length);
            assert(r@.pieces =~= spec_pieces(m));
        }
        Ok(r)
    }

    /// Reads a torrent out of the bytes of a `.torrent` file.
    pub fn parse(data: &[u8]) -> (r: Result<Torrent, TorrentParseError>)
        ensures
            match parse_value(data@) {
                Err(m) => r matches Err(e) && (e matches TorrentParseError::DecodeError(de)
                    && decode_err_matches(de, m)),
                Ok(p) => match spec_metainfo(p.0) {
                    Some(m) => r matches Ok(t) && torrent_realizes(t@, m),
                    None => r matches Err(e) && (
                    e matches TorrentParseError::InvalidMetaInfo(s) && s@ == spec_metainfo_err(
                        p.0,
                    )),
                },
            },
    {
        let decoded = match decode(data) {
            Ok(p) => p.0,
            Err(e) => {
                return Err(TorrentParseError::DecodeError(e));
            },
        };
        Torrent::from_value(&decoded)
    }
}

} // verus!
