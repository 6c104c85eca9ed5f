use vstd::prelude::*;

verus! {

/// The wire-level transfer unit inside a piece: sixteen kibibytes,
/// except for a shorter final block.
pub const DEFAULT_BLOCK_SIZE: u32 = 16384;

/// What a block is: its offset inside its piece and its length.
pub struct BlockModel {
    pub begin: u32,
    pub length: u32,
}

/// One block of a piece.
#[derive(Debug, Clone, Copy)]
pub struct Block {
    begin: u32,
    length: u32,
}

impl View for Block {
    type V = BlockModel;

    closed spec fn view(&self) -> BlockModel {
        BlockModel { begin: self.begin, length: self.length }
    }
}

impl Block {
    pub fn new(begin: u32, length: u32) -> (r: Block)
        ensures
            r@ == (BlockModel { begin, length }),
    {
        Block { begin, length }
    }

    pub fn get_begin(&self) -> (r: u32)
        ensures
            r == self@.begin,
    {
        self.begin
    }

    pub fn get_length(&self) -> (r: u32)
        ensures
            r == self@.length,
    {
        self.length
    }
}

pub open spec fn block_models(s: Seq<Block>) -> Seq<BlockModel> {
    s.map_values(|b: Block| b@)
}

/// The number of blocks that tile a piece of the given length.
pub open spec fn spec_block_count(piece_length: u32) -> int {
    piece_length as int / DEFAULT_BLOCK_SIZE as int + (
    if piece_length as int % DEFAULT_BLOCK_SIZE as int > 0 {
        1int
    } else {
        0int
    })
}

/// The blocks that tile a piece of the given length: full blocks in
/// order, then the remainder if there is one.
pub open spec fn spec_blocks(piece_length: u32) -> Seq<BlockModel> {
    Seq::new(
        spec_block_count(piece_length) as nat,
        |j: int|
            BlockModel {
                begin: (j * DEFAULT_BLOCK_SIZE as int) as u32,
                length: if j < piece_length as int / DEFAULT_BLOCK_SIZE as int {
                    DEFAULT_BLOCK_SIZE
                } else {
                    (piece_length as int % DEFAULT_BLOCK_SIZE as int) as u32
                },
            },
    )
}

/// The number of bytes the blocks cover altogether.
pub open spec fn blocks_total(s: Seq<BlockModel>) -> int
    decreases s.len(),
{
    if s.len() == 0 {
        0
    } else {
        blocks_total(s.drop_last()) + s.last().length
    }
}

pub proof fn lemma_blocks_total_prefix(s: Seq<BlockModel>, i: int)
    requires
        0 <= i <= s.len(),
    ensures
        blocks_total(s.subrange(0, i)) <= blocks_total(s),
        blocks_total(s) >= 0,
    decreases s.len(),
{
    if i < s.len() {
        assert(s.subrange(0, i) =~= s.drop_last().subrange(0, i));
        lemma_blocks_total_prefix(s.drop_last(), i);
    } else {
        assert(s.subrange(0, i) =~= s);
        if s.len() > 0 {
            lemma_blocks_total_prefix(s.drop_last(), s.len() - 1);
        }
    }
}

/// The blocks of a piece tile it exactly: their lengths add up to the
/// piece length.
pub proof fn lemma_blocks_cover_piece(piece_length: u32)
    ensures
        blocks_total(spec_blocks(piece_length)) == piece_length,
{
    let full = piece_length as int / DEFAULT_BLOCK_SIZE as int;
    lemma_blocks_partial_total(piece_length, spec_block_count(piece_length));
    assert(DEFAULT_BLOCK_SIZE as int * full + piece_length as int % DEFAULT_BLOCK_SIZE as int
        == piece_length as int) by {
        vstd::arithmetic::div_mod::lemma_fundamental_div_mod(
            piece_length as int,
            DEFAULT_BLOCK_SIZE as int,
        );
    }
}

/// The first `k` blocks cover `k` full block sizes, or the whole piece
/// when the remainder block is among them.
proof fn lemma_blocks_partial_total(piece_length: u32, k: int)
    requires
        0 <= k <= spec_block_count(piece_length),
    ensures
        blocks_total(spec_blocks(piece_length).subrange(0, k)) == (
        if k <= piece_length as int / DEFAULT_BLOCK_SIZE as int {
            k * DEFAULT_BLOCK_SIZE as int
        } else {
            (k - 1) * DEFAULT_BLOCK_SIZE as int + piece_length as int % DEFAULT_BLOCK_SIZE as int
        }),
        k == spec_block_count(piece_length) ==> blocks_total(spec_blocks(piece_length)) == (
        if k <= piece_length as int / DEFAULT_BLOCK_SIZE as int {
            k * DEFAULT_BLOCK_SIZE as int
        } else {
            (k - 1) * DEFAULT_BLOCK_SIZE as int + piece_length as int % DEFAULT_BLOCK_SIZE as int
        }),
    decreases k,
{
    let s = spec_blocks(piece_length);
    if k == 0 {
        assert(s.subrange(0, 0) =~= Seq::<BlockModel>::empty());
    } else {
        lemma_blocks_partial_total(piece_length, k - 1);
        assert(s.subrange(0, k).drop_last() =~= s.subrange(0, k - 1));
        assert(blocks_total(s.subrange(0, k)) == blocks_total(s.subrange(0, k - 1))
            + s[k - 1].length);
    }
    if k == spec_block_count(piece_length) {
        assert(s.subrange(0, k) =~= s);
    }
}

/// What a piece is: its index, its expected digest, its offset in the
/// output file, and the blocks that tile it.
pub struct PieceModel {
    pub index: u32,
    pub hash: Seq<u8>,
    pub blocks: Seq<BlockModel>,
    pub begin: u64,
}

/// One piece of the torrent: the unit of integrity checking.
#[derive(Debug)]
pub struct Piece {
    index: u32,
    hash: Vec<u8>,
    blocks: Vec<Block>,
    begin: u64,
}

impl View for Piece {
    type V = PieceModel;

    closed spec fn view(&self) -> PieceModel {
        PieceModel {
            index: self.index,
            hash: self.hash@,
            blocks: block_models(self.blocks@),
            begin: self.begin,
        }
    }
}

impl Piece {
    pub fn new(index: u32, hash: Vec<u8>, blocks: Vec<Block>, begin: u64) -> (r: Piece)
        requires
            hash@.len() == 20,
        ensures
            r@ == (PieceModel { index, hash: hash@, blocks: block_models(blocks@), begin }),
    {
        Piece { index, hash, blocks, begin }
    }

    pub fn get_index(&self) -> (r: u32)
        ensures
            r == self@.index,
    {
        self.index
    }

    pub fn get_hash(&self) -> (r: &Vec<u8>)
        ensures
            r@ == self@.hash,
    {
        &self.hash
    }

    pub fn get_blocks(&self) -> (r: &Vec<Block>)
        ensures
            block_models(r@) == self@.blocks,
    {
        &self.blocks
    }

    pub fn get_begin(&self) -> (r: u64)
        ensures
            r == self@.begin,
    {
        self.begin
    }

    /// The length of the piece: what its blocks cover altogether.
    pub fn get_length(&self) -> (r: u32)
        requires
            blocks_total(self@.blocks) <= u32::MAX,
        ensures
            r == blocks_total(self@.blocks),
    {
        let mut sum: u32 = 0;
        let mut i: usize = 0;
        proof {
            assert(self@.blocks.subrange(0, 0) =~= Seq::<BlockModel>::empty());
        }
        while i < self.blocks.len()
            invariant
                i <= self.blocks@.len(),
                self@.blocks == block_models(self.blocks@),
                self@.blocks.len() == self.blocks@.len(),
                blocks_total(self@.blocks) <= u32::MAX,
                sum == blocks_total(self@.blocks.subrange(0, i as int)),
            decreases self.blocks@.len() - i,
        {
            proof {
                lemma_blocks_total_prefix(self@.blocks, i as int + 1);
                assert(self@.blocks.subrange(0, i as int + 1).drop_last() =~= self@.blocks
                    .subrange(0, i as int));
                assert(blocks_total(self@.blocks.subrange(0, i as int + 1)) == blocks_total(
                    self@.blocks.subrange(0, i as int),
                ) + self@.blocks[i as int].length);
                assert(self@.blocks[i as int] == self.blocks@[i as int]@);
            }
            sum = sum + self.blocks[i].get_length();
            i = i + 1;
        }
        proof {
            assert(self@.blocks.subrange(0, self@.blocks.len() as int) =~= self@.blocks);
        }
        sum
    }
}

impl Piece {
    /// The length of the piece when it fits a 32-bit count, which the
    /// wire protocol requires; the blocks of an oversized piece table
    /// add up to more.
    pub fn try_length(&self) -> (r: Option<u32>)
        ensures
            match r {
                Some(l) => l == blocks_total(self@.blocks),
                None => blocks_total(self@.blocks) > u32::MAX,
            },
    {
        let mut sum: u32 = 0;
        let mut i: usize = 0;
        proof {
            assert(self@.blocks.subrange(0, 0) =~= Seq::<BlockModel>::empty());
        }
        while i < self.blocks.len()
            invariant
                i <= self.blocks@.len(),
                self@.blocks == block_models(self.blocks@),
                self@.blocks.len() == self.blocks@.len(),
                sum == blocks_total(self@.blocks.subrange(0, i as int)),
            decreases self.blocks@.len() - i,
        {
            proof {
                lemma_blocks_total_prefix(self@.blocks, i as int + 1);
                assert(self@.blocks.subrange(0, i as int + 1).drop_last() =~= self@.blocks
                    .subrange(0, i as int));
                assert(blocks_total(self@.blocks.subrange(0, i as int + 1)) == blocks_total(
                    self@.blocks.subrange(0, i as int),
                ) + self@.blocks[i as int].length);
                assert(self@.blocks[i as int] == self.blocks@[i as int]@);
            }
            sum = match sum.checked_add(self.blocks[i].get_length()) {
                Some(next) => next,
                None => {
                    return None;
                },
            };
            i = i + 1;
        }
        proof {
            assert(self@.blocks.subrange(0, self@.blocks.len() as int) =~= self@.blocks);
        }
        Some(sum)
    }
}

/// The blocks that tile a piece of the given length.
pub fn build_blocks(piece_length: u32) -> (r: Vec<Block>)
    ensures
        block_models(r@) == spec_blocks(piece_length),
{
    let full: u32 = piece_length / DEFAULT_BLOCK_SIZE;
    let residue: u32 = piece_length % DEFAULT_BLOCK_SIZE;
    let mut blocks: Vec<Block> = Vec::new();
    let mut i: u32 = 0;
    while i < full
        invariant
            i <= full,
            full == piece_length / DEFAULT_BLOCK_SIZE,
            residue == piece_length % DEFAULT_BLOCK_SIZE,
            blocks@.len() == i,
            block_models(blocks@) == spec_blocks(piece_length).subrange(0, i as int),
        decreases full - i,
    {
        proof {
            assert(i as int * DEFAULT_BLOCK_SIZE as int <= (full as int - 1)
                * DEFAULT_BLOCK_SIZE as int) by (nonlinear_arith)
                requires
                    i < full,
            ;
            assert(full as int * DEFAULT_BLOCK_SIZE as int <= piece_length as int) by {
                vstd::arithmetic::div_mod::lemma_fundamental_div_mod(
                    piece_length as int,
                    DEFAULT_BLOCK_SIZE as int,
                );
            }
            assert((full as int - 1) * DEFAULT_BLOCK_SIZE as int == full as int
                * DEFAULT_BLOCK_SIZE as int - DEFAULT_BLOCK_SIZE as int) by (nonlinear_arith);
        }
        let ghost blocks0 = blocks@;
        blocks.push(Block::new(i * DEFAULT_BLOCK_SIZE, DEFAULT_BLOCK_SIZE));
        proof {
            assert(block_models(blocks@) =~= spec_blocks(piece_length).subrange(
                0,
                i as int + 1,
            ));
        }
        i = i + 1;
    }
    if residue > 0 {
        proof {
            assert(full as int * DEFAULT_BLOCK_SIZE as int == piece_length as int
                - residue as int) by {
                vstd::arithmetic::div_mod::lemma_fundamental_div_mod(
                    piece_length as int,
                    DEFAULT_BLOCK_SIZE as int,
                );
            }
        }
        let ghost blocks0 = blocks@;
        blocks.push(Block::new(piece_length - residue, residue));
        proof {
            assert forall|j: int|
                0 <= j < blocks@.len() implies block_models(blocks@)[j] == spec_blocks(
                piece_length,
            )[j] by {
                if j < full {
                    assert(blocks@[j] == blocks0[j]);
                    assert(block_models(blocks0)[j] == spec_blocks(piece_length).subrange(
                        0,
                        full as int,
                    )[j]);
                }
            }
            assert(block_models(blocks@) =~= spec_blocks(piece_length));
        }
    } else {
        proof {
            assert(spec_blocks(piece_length).subrange(0, full as int) =~= spec_blocks(
                piece_length,
            ));
        }
    }
    blocks
}

/// The length of the final piece: the remainder of the total length by
/// the piece length, or a full piece when it divides evenly.
pub fn get_last_piece_length(torrent_length: u64, piece_length: u32) -> (r: u32)
    requires
        piece_length > 0,
    ensures
        r == (if torrent_length as int % piece_length as int > 0 {
            torrent_length as int % piece_length as int
        } else {
            piece_length as int
        }),
{
    let residue = torrent_length % piece_length as u64;
    if residue > 0 {
        residue as u32
    } else {
        piece_length
    }
}

} // verus!
