//! Rows of four tiles packed into sixteen bits, and the slide-and-merge rule on a row.
//!
//! A tile is stored as its rank: 0 is an empty cell, `k >= 1` is the tile that shows `2^k`.
//! A row holds four ranks of four bits each, the leftmost tile in the highest bits.
use vstd::prelude::*;

verus! {

/// The highest rank that a packed tile can hold.
pub const MAX_RANK: u8 = 15;

/// The tile at position `i` (0 is the leftmost) of a packed row.
pub open spec fn row_tile(row: u16, i: int) -> u8 {
    if i == 0 {
        ((row >> 12) & 0xF) as u8
    } else if i == 1 {
        ((row >> 8) & 0xF) as u8
    } else if i == 2 {
        ((row >> 4) & 0xF) as u8
    } else {
        (row & 0xF) as u8
    }
}

/// The four tiles of a packed row, leftmost first.
pub open spec fn row_tiles(row: u16) -> Seq<u8> {
    seq![row_tile(row, 0), row_tile(row, 1), row_tile(row, 2), row_tile(row, 3)]
}

/// The packed row made of four ranks, `a` leftmost.
pub open spec fn pack_bits(a: u8, b: u8, c: u8, d: u8) -> u16 {
    (a as u16) << 12 | (b as u16) << 8 | (c as u16) << 4 | (d as u16)
}

/// The packed row whose tiles are the first four entries of `tiles`.
pub open spec fn pack_tiles(tiles: Seq<u8>) -> u16 {
    pack_bits(tiles[0], tiles[1], tiles[2], tiles[3])
}

/// True when every entry is a rank that fits four bits.
pub open spec fn all_ranks(tiles: Seq<u8>) -> bool {
    forall|i: int| 0 <= i < tiles.len() ==> tiles[i] <= MAX_RANK
}

/// The row with its tiles in the opposite order, as a bit permutation.
pub open spec fn reverse_bits(row: u16) -> u16 {
    (row >> 12) | ((row >> 4) & 0x00F0) | ((row << 4) & 0x0F00) | (row << 12)
}

proof fn lemma_unpack_bits(row: u16)
    by (bit_vector)
    ensures
        (row & 0xF000) >> 12 == (row >> 12) & 0xF,
        (row & 0x0F00) >> 8 == (row >> 8) & 0xF,
        (row & 0x00F0) >> 4 == (row >> 4) & 0xF,
        (row >> 12) & 0xF < 16,
        (row >> 8) & 0xF < 16,
        (row >> 4) & 0xF < 16,
        row & 0xF < 16,
        pack_bits(
            ((row >> 12) & 0xF) as u8,
            ((row >> 8) & 0xF) as u8,
            ((row >> 4) & 0xF) as u8,
            (row & 0xF) as u8,
        ) == row,
{
}

proof fn lemma_pack_bits(a: u8, b: u8, c: u8, d: u8)
    by (bit_vector)
    requires
        a <= 15,
        b <= 15,
        c <= 15,
        d <= 15,
    ensures
        ((pack_bits(a, b, c, d) >> 12) & 0xF) as u8 == a,
        ((pack_bits(a, b, c, d) >> 8) & 0xF) as u8 == b,
        ((pack_bits(a, b, c, d) >> 4) & 0xF) as u8 == c,
        (pack_bits(a, b, c, d) & 0xF) as u8 == d,
{
}

proof fn lemma_reverse_bits(row: u16)
    by (bit_vector)
    ensures
        (reverse_bits(row) >> 12) & 0xF == row & 0xF,
        (reverse_bits(row) >> 8) & 0xF == (row >> 4) & 0xF,
        (reverse_bits(row) >> 4) & 0xF == (row >> 8) & 0xF,
        reverse_bits(row) & 0xF == (row >> 12) & 0xF,
        reverse_bits(reverse_bits(row)) == row,
{
}

/// Packing the tiles of a row gives the row back.
pub proof fn lemma_pack_of_tiles(row: u16)
    ensures
        pack_tiles(row_tiles(row)) == row,
{
    lemma_unpack_bits(row);
}

/// The tiles of a packed sequence of four ranks are that sequence.
pub proof fn lemma_tiles_of_pack(tiles: Seq<u8>)
    requires
        tiles.len() == 4,
        all_ranks(tiles),
    ensures
        row_tiles(pack_tiles(tiles)) == tiles,
{
    lemma_pack_bits(tiles[0], tiles[1], tiles[2], tiles[3]);
    assert(row_tiles(pack_tiles(tiles)) =~= tiles);
}

/// Two packed rows with the same tiles are the same row.
pub proof fn lemma_rows_equal_by_tiles(a: u16, b: u16)
    requires
        row_tiles(a) == row_tiles(b),
    ensures
        a == b,
{
    lemma_pack_of_tiles(a);
    lemma_pack_of_tiles(b);
}

/// Reversing a row twice gives the row back, and reversing mirrors the tiles.
pub proof fn lemma_reverse_involution(row: u16)
    ensures
        reverse_bits(reverse_bits(row)) == row,
        row_tiles(reverse_bits(row)) == row_tiles(row).reverse(),
{
    lemma_reverse_bits(row);
    assert(row_tiles(reverse_bits(row)) =~= row_tiles(row).reverse());
}

/// Packs four ranks into a row, leftmost first; `None` when one of them needs more than four
/// bits.
pub fn u8x4_to_u16(row: [u8; 4]) -> (packed: Option<u16>)
    ensures
        packed.is_some() <==> all_ranks(row@),
        packed matches Some(bits) ==> bits == pack_tiles(row@) && row_tiles(bits) == row@,
{
    if row[0] > MAX_RANK || row[1] > MAX_RANK || row[2] > MAX_RANK || row[3] > MAX_RANK {
        return None;
    }
    proof {
        lemma_tiles_of_pack(row@);
    }
    Some((row[0] as u16) << 12 | (row[1] as u16) << 8 | (row[2] as u16) << 4 | (row[3] as u16))
}

/// Splits a packed row into its four tiles, leftmost first.
pub fn u16_to_u8x4(row: u16) -> (tiles: [u8; 4])
    ensures
        tiles@ == row_tiles(row),
        all_ranks(tiles@),
{
    proof {
        lemma_unpack_bits(row);
    }
    let t0: u8 = ((row & 0xF000) >> 12) as u8;
    let t1: u8 = ((row & 0x0F00) >> 8) as u8;
    let t2: u8 = ((row & 0x00F0) >> 4) as u8;
    let t3: u8 = (row & 0x000F) as u8;
    let tiles = [t0, t1, t2, t3];
    assert(tiles@ =~= row_tiles(row));
    tiles
}

/// Four tiles packed into sixteen bits, leftmost tile in the highest four.
#[derive(PartialEq, Eq, Structural, Hash, Clone, Copy, Debug)]
pub struct Row(pub u16);

impl View for Row {
    type V = Seq<u8>;

    open spec fn view(&self) -> Seq<u8> {
        row_tiles(self.0)
    }
}

impl Default for Row {
    fn default() -> (row: Row)
        ensures
            row.0 == 0,
    {
        Row(0)
    }
}

impl Row {
    /// The row with the tiles in the opposite order.
    pub open spec fn reversed(self) -> Row {
        Row(reverse_bits(self.0))
    }

    /// Packs four ranks into a row. When a rank needs more than four bits the error is the
    /// position of the first such rank.
    pub fn pack(row: [u8; 4]) -> (packed: Result<Row, usize>)
        ensures
            packed.is_ok() <==> all_ranks(row@),
            packed matches Ok(r) ==> r@ == row@ && r.0 == pack_tiles(row@),
            packed matches Err(at) ==> at < 4 && row[at as int] > MAX_RANK && forall|i: int|
                0 <= i < at ==> row[i] <= MAX_RANK,
    {
        if row[0] > MAX_RANK {
            return Err(0);
        }
        if row[1] > MAX_RANK {
            return Err(1);
        }
        if row[2] > MAX_RANK {
            return Err(2);
        }
        if row[3] > MAX_RANK {
            return Err(3);
        }
        proof {
            lemma_tiles_of_pack(row@);
        }
        Ok(Row((row[0] as u16) << 12 | (row[1] as u16) << 8 | (row[2] as u16) << 4 | (row[3] as u16)))
    }

    /// The row that a table index stands for.
    pub fn from_index(index: usize) -> (row: Row)
        requires
            index <= u16::MAX,
        ensures
            row.0 == index,
    {
        Row(index as u16)
    }

    /// The four tiles of the row, leftmost first.
    pub fn unpack(self) -> (tiles: [u8; 4])
        ensures
            tiles@ == self@,
            all_ranks(tiles@),
    {
        u16_to_u8x4(self.0)
    }

    /// The row with the tiles in the opposite order.
    pub fn reverse(self) -> (out: Row)
        ensures
            out == self.reversed(),
            out@ == self@.reverse(),
    {
        proof {
            lemma_reverse_involution(self.0);
        }
        Row((self.0 >> 12) | ((self.0 >> 4) & 0x00F0) | ((self.0 << 4) & 0x0F00) | (self.0 << 12))
    }
}

} // verus!
