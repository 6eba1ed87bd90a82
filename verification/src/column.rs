//! Columns of four tiles, one tile in each sixteen-bit lane of a 64-bit word.
//!
//! A column is what a vertical move produces for one column of the grid: the top tile sits in
//! the lowest four bits of the highest lane, the bottom tile in the lowest four bits of the
//! word. All other bits are zero.
use vstd::prelude::*;
use crate::row::{row_tiles, Row};
use crate::slide::{move_row_left, move_row_right, slide_left, slide_right};

verus! {

/// The bits of a 64-bit word that a column may use.
pub const COLUMN_MASK: u64 = 0x000F_000F_000F_000F;

/// The tile at position `i` (0 is the top) of a column word.
pub open spec fn column_tile(col: u64, i: int) -> u8 {
    if i == 0 {
        ((col >> 48) & 0xF) as u8
    } else if i == 1 {
        ((col >> 32) & 0xF) as u8
    } else if i == 2 {
        ((col >> 16) & 0xF) as u8
    } else {
        (col & 0xF) as u8
    }
}

/// The four tiles of a column word, top first.
pub open spec fn column_tiles(col: u64) -> Seq<u8> {
    seq![column_tile(col, 0), column_tile(col, 1), column_tile(col, 2), column_tile(col, 3)]
}

/// The column word that holds the tiles of a packed row, leftmost tile on top.
pub open spec fn spread_bits(row: u16) -> u64 {
    ((row as u64) | (row as u64) << 12 | (row as u64) << 24 | (row as u64) << 36) & COLUMN_MASK
}

proof fn lemma_spread_bits(row: u16)
    by (bit_vector)
    ensures
        (spread_bits(row) >> 48) & 0xF == (row >> 12) & 0xF,
        (spread_bits(row) >> 32) & 0xF == (row >> 8) & 0xF,
        (spread_bits(row) >> 16) & 0xF == (row >> 4) & 0xF,
        spread_bits(row) & 0xF == row & 0xF,
        spread_bits(row) & !COLUMN_MASK == 0,
{
}

/// Spreading a row keeps its tiles, in order, and uses no bit outside the column mask.
pub proof fn lemma_spread_keeps_tiles(row: u16)
    ensures
        column_tiles(spread_bits(row)) == row_tiles(row),
        spread_bits(row) & !COLUMN_MASK == 0,
{
    lemma_spread_bits(row);
    assert(column_tiles(spread_bits(row)) =~= row_tiles(row));
}

/// Four tiles of one grid column, top tile in the highest lane.
#[derive(PartialEq, Eq, Structural, Clone, Copy, Debug)]
pub struct Column(pub u64);

impl View for Column {
    type V = Seq<u8>;

    open spec fn view(&self) -> Seq<u8> {
        column_tiles(self.0)
    }
}

impl Default for Column {
    fn default() -> (col: Column)
        ensures
            col.0 == 0,
    {
        Column(0)
    }
}

impl Column {
    /// True when the word uses only the four tile positions of a column.
    pub open spec fn well_formed(self) -> bool {
        self.0 & !COLUMN_MASK == 0
    }

    /// The column that holds the tiles of `row`, leftmost tile on top.
    pub fn from_row(row: Row) -> (col: Column)
        ensures
            col.0 == spread_bits(row.0),
            col@ == row@,
            col.well_formed(),
    {
        proof {
            lemma_spread_keeps_tiles(row.0);
        }
        let wide: u64 = row.0 as u64;
        Column((wide | wide << 12 | wide << 24 | wide << 36) & COLUMN_MASK)
    }
}

/// Slides a packed row towards its first tile and lays the result out as a column: the
/// effect of an upward move on one column of the grid.
pub fn move_row_up(row: Row) -> (col: Column)
    ensures
        col@ == slide_left(row@),
        col.well_formed(),
{
    Column::from_row(move_row_left(row))
}

/// Slides a packed row towards its last tile and lays the result out as a column: the
/// effect of a downward move on one column of the grid.
pub fn move_row_down(row: Row) -> (col: Column)
    ensures
        col@ == slide_right(row@),
        col.well_formed(),
{
    Column::from_row(move_row_right(row))
}

} // verus!
