//! The 4×4 grid of the game, sixteen tiles packed into one 64-bit word.
//!
//! The four rows are packed top row first: the top row takes the highest sixteen bits. Tile
//! `k`, counted row by row from the top-left corner, takes the four bits that start at bit
//! `60 - 4 * k`.
use vstd::prelude::*;
use crate::column::{Column, COLUMN_MASK};
use crate::row::{row_tiles, Row};

verus! {

/// The tile at position `k` of a grid word; position 0 is the top-left corner, position 15
/// the bottom-right one, and positions run along the rows.
pub open spec fn grid_tile(bits: u64, k: int) -> u8 {
    ((bits >> ((60 - 4 * k) as u64)) & 0xF) as u8
}

/// The sixteen tiles of a grid word, row by row from the top-left corner.
pub open spec fn grid_tiles(bits: u64) -> Seq<u8> {
    Seq::new(16, |k: int| grid_tile(bits, k))
}

/// The packed row `r` (0 is the top row) of a grid word.
pub open spec fn grid_row(bits: u64, r: int) -> u16 {
    if r == 0 {
        ((bits >> 48) & 0xFFFF) as u16
    } else if r == 1 {
        ((bits >> 32) & 0xFFFF) as u16
    } else if r == 2 {
        ((bits >> 16) & 0xFFFF) as u16
    } else {
        (bits & 0xFFFF) as u16
    }
}

/// The grid word made of four packed rows, `r0` on top.
pub open spec fn join_rows(r0: u16, r1: u16, r2: u16, r3: u16) -> u64 {
    (r0 as u64) << 48 | (r1 as u64) << 32 | (r2 as u64) << 16 | (r3 as u64)
}

/// The grid word made of four column words, `c0` leftmost.
pub open spec fn join_columns(c0: u64, c1: u64, c2: u64, c3: u64) -> u64 {
    c0 << 12 | c1 << 8 | c2 << 4 | c3
}

/// Row `r` of a tile sequence that is laid out row by row.
pub open spec fn row_of(tiles: Seq<u8>, r: int) -> Seq<u8> {
    seq![tiles[4 * r], tiles[4 * r + 1], tiles[4 * r + 2], tiles[4 * r + 3]]
}

/// Column `c` of a tile sequence that is laid out row by row, top tile first.
pub open spec fn column_of(tiles: Seq<u8>, c: int) -> Seq<u8> {
    seq![tiles[c], tiles[4 + c], tiles[8 + c], tiles[12 + c]]
}

proof fn lemma_row_bits(bits: u64)
    by (bit_vector)
    ensures
        (bits & 0xFFFF_0000_0000_0000) >> 48 == (bits >> 48) & 0xFFFF,
        (bits & 0x0000_FFFF_0000_0000) >> 32 == (bits >> 32) & 0xFFFF,
        (bits & 0x0000_0000_FFFF_0000) >> 16 == (bits >> 16) & 0xFFFF,
        (bits >> 48) & 0xFFFF <= 0xFFFF,
        (bits >> 32) & 0xFFFF <= 0xFFFF,
        (bits >> 16) & 0xFFFF <= 0xFFFF,
        bits & 0xFFFF <= 0xFFFF,
        join_rows(
            ((bits >> 48) & 0xFFFF) as u16,
            ((bits >> 32) & 0xFFFF) as u16,
            ((bits >> 16) & 0xFFFF) as u16,
            (bits & 0xFFFF) as u16,
        ) == bits,
{
}

proof fn lemma_row_tile_bits(bits: u64)
    by (bit_vector)
    ensures
        (((((bits >> 48) & 0xFFFF) as u16) >> 12) & 0xF) as u8 == ((bits >> 60) & 0xF) as u8,
        (((((bits >> 48) & 0xFFFF) as u16) >> 8) & 0xF) as u8 == ((bits >> 56) & 0xF) as u8,
        (((((bits >> 48) & 0xFFFF) as u16) >> 4) & 0xF) as u8 == ((bits >> 52) & 0xF) as u8,
        ((((bits >> 48) & 0xFFFF) as u16) & 0xF) as u8 == ((bits >> 48) & 0xF) as u8,
        (((((bits >> 32) & 0xFFFF) as u16) >> 12) & 0xF) as u8 == ((bits >> 44) & 0xF) as u8,
        (((((bits >> 32) & 0xFFFF) as u16) >> 8) & 0xF) as u8 == ((bits >> 40) & 0xF) as u8,
        (((((bits >> 32) & 0xFFFF) as u16) >> 4) & 0xF) as u8 == ((bits >> 36) & 0xF) as u8,
        ((((bits >> 32) & 0xFFFF) as u16) & 0xF) as u8 == ((bits >> 32) & 0xF) as u8,
        (((((bits >> 16) & 0xFFFF) as u16) >> 12) & 0xF) as u8 == ((bits >> 28) & 0xF) as u8,
        (((((bits >> 16) & 0xFFFF) as u16) >> 8) & 0xF) as u8 == ((bits >> 24) & 0xF) as u8,
        (((((bits >> 16) & 0xFFFF) as u16) >> 4) & 0xF) as u8 == ((bits >> 20) & 0xF) as u8,
        ((((bits >> 16) & 0xFFFF) as u16) & 0xF) as u8 == ((bits >> 16) & 0xF) as u8,
        ((((bits & 0xFFFF) as u16) >> 12) & 0xF) as u8 == ((bits >> 12) & 0xF) as u8,
        ((((bits & 0xFFFF) as u16) >> 8) & 0xF) as u8 == ((bits >> 8) & 0xF) as u8,
        ((((bits & 0xFFFF) as u16) >> 4) & 0xF) as u8 == ((bits >> 4) & 0xF) as u8,
        (((bits & 0xFFFF) as u16) & 0xF) as u8 == ((bits >> 0) & 0xF) as u8,
{
}

proof fn lemma_join_rows_bits(r0: u16, r1: u16, r2: u16, r3: u16)
    by (bit_vector)
    ensures
        ((join_rows(r0, r1, r2, r3) >> 48) & 0xFFFF) as u16 == r0,
        ((join_rows(r0, r1, r2, r3) >> 32) & 0xFFFF) as u16 == r1,
        ((join_rows(r0, r1, r2, r3) >> 16) & 0xFFFF) as u16 == r2,
        (join_rows(r0, r1, r2, r3) & 0xFFFF) as u16 == r3,
{
}

/// The tiles of row `r` of a grid word are the tiles of its packed row `r`.
pub proof fn lemma_row_tiles_of_grid(bits: u64, r: int)
    requires
        0 <= r < 4,
    ensures
        row_tiles(grid_row(bits, r)) == row_of(grid_tiles(bits), r),
{
    lemma_row_tile_bits(bits);
    assert(row_tiles(grid_row(bits, r)) =~= row_of(grid_tiles(bits), r));
}

/// Joining the four packed rows of a grid word gives the word back.
pub proof fn lemma_join_of_rows(bits: u64)
    ensures
        join_rows(grid_row(bits, 0), grid_row(bits, 1), grid_row(bits, 2), grid_row(bits, 3))
            == bits,
{
    lemma_row_bits(bits);
}

/// The packed rows of a joined word are the rows that were joined.
pub proof fn lemma_rows_of_join(r0: u16, r1: u16, r2: u16, r3: u16)
    ensures
        grid_row(join_rows(r0, r1, r2, r3), 0) == r0,
        grid_row(join_rows(r0, r1, r2, r3), 1) == r1,
        grid_row(join_rows(r0, r1, r2, r3), 2) == r2,
        grid_row(join_rows(r0, r1, r2, r3), 3) == r3,
{
    lemma_join_rows_bits(r0, r1, r2, r3);
}

/// Two grid words with the same sixteen tiles are the same word.
pub proof fn lemma_grids_equal_by_tiles(a: u64, b: u64)
    requires
        grid_tiles(a) == grid_tiles(b),
    ensures
        a == b,
{
    assert forall|r: int| 0 <= r < 4 implies grid_row(a, r) == grid_row(b, r) by {
        lemma_row_tiles_of_grid(a, r);
        lemma_row_tiles_of_grid(b, r);
        crate::row::lemma_rows_equal_by_tiles(grid_row(a, r), grid_row(b, r));
    }
    lemma_join_of_rows(a);
    lemma_join_of_rows(b);
}

/// The grid word with rows and columns exchanged: two swaps of four-bit blocks, then two
/// swaps of eight-bit blocks.
pub open spec fn transpose_bits(bits: u64) -> u64 {
    let a = (bits & 0xF0F0_0F0F_F0F0_0F0F) | ((bits & 0x0000_F0F0_0000_F0F0) << 12) | ((bits
        & 0x0F0F_0000_0F0F_0000) >> 12);
    (a & 0xFF00_FF00_00FF_00FF) | ((a & 0x00FF_00FF_0000_0000) >> 24) | ((a
        & 0x0000_0000_FF00_FF00) << 24)
}

proof fn lemma_transpose_bits(bits: u64)
    by (bit_vector)
    ensures
        transpose_bits(transpose_bits(bits)) == bits,
        ((transpose_bits(bits) >> 60) & 0xF) as u8 == ((bits >> 60) & 0xF) as u8,
        ((transpose_bits(bits) >> 56) & 0xF) as u8 == ((bits >> 44) & 0xF) as u8,
        ((transpose_bits(bits) >> 52) & 0xF) as u8 == ((bits >> 28) & 0xF) as u8,
        ((transpose_bits(bits) >> 48) & 0xF) as u8 == ((bits >> 12) & 0xF) as u8,
        ((transpose_bits(bits) >> 44) & 0xF) as u8 == ((bits >> 56) & 0xF) as u8,
        ((transpose_bits(bits) >> 40) & 0xF) as u8 == ((bits >> 40) & 0xF) as u8,
        ((transpose_bits(bits) >> 36) & 0xF) as u8 == ((bits >> 24) & 0xF) as u8,
        ((transpose_bits(bits) >> 32) & 0xF) as u8 == ((bits >> 8) & 0xF) as u8,
        ((transpose_bits(bits) >> 28) & 0xF) as u8 == ((bits >> 52) & 0xF) as u8,
        ((transpose_bits(bits) >> 24) & 0xF) as u8 == ((bits >> 36) & 0xF) as u8,
        ((transpose_bits(bits) >> 20) & 0xF) as u8 == ((bits >> 20) & 0xF) as u8,
        ((transpose_bits(bits) >> 16) & 0xF) as u8 == ((bits >> 4) & 0xF) as u8,
        ((transpose_bits(bits) >> 12) & 0xF) as u8 == ((bits >> 48) & 0xF) as u8,
        ((transpose_bits(bits) >> 8) & 0xF) as u8 == ((bits >> 32) & 0xF) as u8,
        ((transpose_bits(bits) >> 4) & 0xF) as u8 == ((bits >> 16) & 0xF) as u8,
        ((transpose_bits(bits) >> 0) & 0xF) as u8 == ((bits >> 0) & 0xF) as u8,
{
}

proof fn lemma_join_columns_bits(c0: u64, c1: u64, c2: u64, c3: u64)
    by (bit_vector)
    requires
        c0 & !COLUMN_MASK == 0,
        c1 & !COLUMN_MASK == 0,
        c2 & !COLUMN_MASK == 0,
        c3 & !COLUMN_MASK == 0,
    ensures
        ((join_columns(c0, c1, c2, c3) >> 60) & 0xF) as u8 == ((c0 >> 48) & 0xF) as u8,
        ((join_columns(c0, c1, c2, c3) >> 56) & 0xF) as u8 == ((c1 >> 48) & 0xF) as u8,
        ((join_columns(c0, c1, c2, c3) >> 52) & 0xF) as u8 == ((c2 >> 48) & 0xF) as u8,
        ((join_columns(c0, c1, c2, c3) >> 48) & 0xF) as u8 == ((c3 >> 48) & 0xF) as u8,
        ((join_columns(c0, c1, c2, c3) >> 44) & 0xF) as u8 == ((c0 >> 32) & 0xF) as u8,
        ((join_columns(c0, c1, c2, c3) >> 40) & 0xF) as u8 == ((c1 >> 32) & 0xF) as u8,
        ((join_columns(c0, c1, c2, c3) >> 36) & 0xF) as u8 == ((c2 >> 32) & 0xF) as u8,
        ((join_columns(c0, c1, c2, c3) >> 32) & 0xF) as u8 == ((c3 >> 32) & 0xF) as u8,
        ((join_columns(c0, c1, c2, c3) >> 28) & 0xF) as u8 == ((c0 >> 16) & 0xF) as u8,
        ((join_columns(c0, c1, c2, c3) >> 24) & 0xF) as u8 == ((c1 >> 16) & 0xF) as u8,
        ((join_columns(c0, c1, c2, c3) >> 20) & 0xF) as u8 == ((c2 >> 16) & 0xF) as u8,
        ((join_columns(c0, c1, c2, c3) >> 16) & 0xF) as u8 == ((c3 >> 16) & 0xF) as u8,
        ((join_columns(c0, c1, c2, c3) >> 12) & 0xF) as u8 == (c0 & 0xF) as u8,
        ((join_columns(c0, c1, c2, c3) >> 8) & 0xF) as u8 == (c1 & 0xF) as u8,
        ((join_columns(c0, c1, c2, c3) >> 4) & 0xF) as u8 == (c2 & 0xF) as u8,
        ((join_columns(c0, c1, c2, c3) >> 0) & 0xF) as u8 == (c3 & 0xF) as u8,
{
}

/// Transposing exchanges rows and columns, and transposing twice gives the grid word back.
pub proof fn lemma_transpose_involution(bits: u64)
    ensures
        transpose_bits(transpose_bits(bits)) == bits,
        forall|r: int, c: int|
            0 <= r < 4 && 0 <= c < 4 ==> #[trigger] grid_tiles(transpose_bits(bits))[4 * r + c]
                == grid_tiles(bits)[4 * c + r],
{
    lemma_transpose_bits(bits);
}

/// In a word joined from four well-formed columns, column `c` holds the tiles of the
/// `c`-th column word.
pub proof fn lemma_columns_of_join(c0: u64, c1: u64, c2: u64, c3: u64)
    requires
        c0 & !COLUMN_MASK == 0,
        c1 & !COLUMN_MASK == 0,
        c2 & !COLUMN_MASK == 0,
        c3 & !COLUMN_MASK == 0,
    ensures
        column_of(grid_tiles(join_columns(c0, c1, c2, c3)), 0) == crate::column::column_tiles(c0),
        column_of(grid_tiles(join_columns(c0, c1, c2, c3)), 1) == crate::column::column_tiles(c1),
        column_of(grid_tiles(join_columns(c0, c1, c2, c3)), 2) == crate::column::column_tiles(c2),
        column_of(grid_tiles(join_columns(c0, c1, c2, c3)), 3) == crate::column::column_tiles(c3),
{
    lemma_join_columns_bits(c0, c1, c2, c3);
    let tiles = grid_tiles(join_columns(c0, c1, c2, c3));
    assert(column_of(tiles, 0) =~= crate::column::column_tiles(c0));
    assert(column_of(tiles, 1) =~= crate::column::column_tiles(c1));
    assert(column_of(tiles, 2) =~= crate::column::column_tiles(c2));
    assert(column_of(tiles, 3) =~= crate::column::column_tiles(c3));
}

/// The number of empty cells among `tiles`.
pub open spec fn empty_cells(tiles: Seq<u8>) -> nat
    decreases tiles.len(),
{
    if tiles.len() == 0 {
        0
    } else {
        empty_cells(tiles.drop_last()) + if tiles.last() == 0 {
            1nat
        } else {
            0nat
        }
    }
}

/// A word with a one in the lowest bit of every four-bit block of `bits` that is zero, and
/// zeros elsewhere.
pub open spec fn empty_flags(bits: u64) -> u64 {
    let any = bits | ((bits >> 2) & 0x3333_3333_3333_3333);
    let low = any | (any >> 1);
    (!low) & 0x1111_1111_1111_1111
}

proof fn lemma_empty_flags_bits(bits: u64)
    by (bit_vector)
    ensures
        empty_flags(bits) & !0x1111_1111_1111_1111 == 0,
        (bits >> 60) & 0xF < 16,
        (bits >> 56) & 0xF < 16,
        (bits >> 52) & 0xF < 16,
        (bits >> 48) & 0xF < 16,
        (bits >> 44) & 0xF < 16,
        (bits >> 40) & 0xF < 16,
        (bits >> 36) & 0xF < 16,
        (bits >> 32) & 0xF < 16,
        (bits >> 28) & 0xF < 16,
        (bits >> 24) & 0xF < 16,
        (bits >> 20) & 0xF < 16,
        (bits >> 16) & 0xF < 16,
        (bits >> 12) & 0xF < 16,
        (bits >> 8) & 0xF < 16,
        (bits >> 4) & 0xF < 16,
        (bits >> 0) & 0xF < 16,
        (empty_flags(bits) >> 60) & 0xF == (if (bits >> 60) & 0xF == 0 { 1u64 } else { 0u64 }),
        (empty_flags(bits) >> 56) & 0xF == (if (bits >> 56) & 0xF == 0 { 1u64 } else { 0u64 }),
        (empty_flags(bits) >> 52) & 0xF == (if (bits >> 52) & 0xF == 0 { 1u64 } else { 0u64 }),
        (empty_flags(bits) >> 48) & 0xF == (if (bits >> 48) & 0xF == 0 { 1u64 } else { 0u64 }),
        (empty_flags(bits) >> 44) & 0xF == (if (bits >> 44) & 0xF == 0 { 1u64 } else { 0u64 }),
        (empty_flags(bits) >> 40) & 0xF == (if (bits >> 40) & 0xF == 0 { 1u64 } else { 0u64 }),
        (empty_flags(bits) >> 36) & 0xF == (if (bits >> 36) & 0xF == 0 { 1u64 } else { 0u64 }),
        (empty_flags(bits) >> 32) & 0xF == (if (bits >> 32) & 0xF == 0 { 1u64 } else { 0u64 }),
        (empty_flags(bits) >> 28) & 0xF == (if (bits >> 28) & 0xF == 0 { 1u64 } else { 0u64 }),
        (empty_flags(bits) >> 24) & 0xF == (if (bits >> 24) & 0xF == 0 { 1u64 } else { 0u64 }),
        (empty_flags(bits) >> 20) & 0xF == (if (bits >> 20) & 0xF == 0 { 1u64 } else { 0u64 }),
        (empty_flags(bits) >> 16) & 0xF == (if (bits >> 16) & 0xF == 0 { 1u64 } else { 0u64 }),
        (empty_flags(bits) >> 12) & 0xF == (if (bits >> 12) & 0xF == 0 { 1u64 } else { 0u64 }),
        (empty_flags(bits) >> 8) & 0xF == (if (bits >> 8) & 0xF == 0 { 1u64 } else { 0u64 }),
        (empty_flags(bits) >> 4) & 0xF == (if (bits >> 4) & 0xF == 0 { 1u64 } else { 0u64 }),
        (empty_flags(bits) >> 0) & 0xF == (if (bits >> 0) & 0xF == 0 { 1u64 } else { 0u64 }),
{
}

/// The sum of the sixteen four-bit blocks of a word of flags, by three folding additions.
pub open spec fn flag_total(flags: u64) -> u64 {
    let s1 = (flags + (flags >> 32)) as u64;
    let s2 = (s1 + (s1 >> 16)) as u64;
    let s3 = (s2 + (s2 >> 8)) as u64;
    ((s3 & 0xF) + ((s3 >> 4) & 0xF)) as u64
}

proof fn lemma_flag_sum_bits(flags: u64)
    by (bit_vector)
    requires
        flags & !0x1111_1111_1111_1111 == 0,
    ensures
        flags + (flags >> 32) <= u64::MAX,
        ({
            let s1 = (flags + (flags >> 32)) as u64;
            s1 + (s1 >> 16) <= u64::MAX
        }),
        ({
            let s1 = (flags + (flags >> 32)) as u64;
            let s2 = (s1 + (s1 >> 16)) as u64;
            s2 + (s2 >> 8) <= u64::MAX
        }),
        ({
            let s1 = (flags + (flags >> 32)) as u64;
            let s2 = (s1 + (s1 >> 16)) as u64;
            let s3 = (s2 + (s2 >> 8)) as u64;
            (s3 & 0xF) + ((s3 >> 4) & 0xF) <= 16
        }),
        flag_total(flags) == ((flags >> 60) & 0xF) + ((flags >> 56) & 0xF) + ((flags >> 52) & 0xF) + ((flags >> 48) & 0xF) + ((flags >> 44) & 0xF) + ((flags >> 40) & 0xF) + ((flags >> 36) & 0xF) + ((flags >> 32) & 0xF) + ((flags >> 28) & 0xF) + ((flags >> 24) & 0xF) + ((flags >> 20) & 0xF) + ((flags >> 16) & 0xF) + ((flags >> 12) & 0xF) + ((flags >> 8) & 0xF) + ((flags >> 4) & 0xF) + ((flags >> 0) & 0xF),
{
}

/// Counting the empty cells of one more tile adds one when that tile is empty.
pub proof fn lemma_empty_cells_step(tiles: Seq<u8>, k: int)
    requires
        0 <= k < tiles.len(),
    ensures
        empty_cells(tiles.take(k + 1)) == empty_cells(tiles.take(k)) + if tiles[k] == 0 {
            1nat
        } else {
            0nat
        },
{
    assert(tiles.take(k + 1).drop_last() =~= tiles.take(k));
}

proof fn lemma_empty_cells_unfold(tiles: Seq<u8>)
    requires
        tiles.len() == 16,
    ensures
        empty_cells(tiles) == (if tiles[0] == 0 { 1nat } else { 0nat }) + (if tiles[1] == 0 { 1nat } else { 0nat })
            + (if tiles[2] == 0 { 1nat } else { 0nat }) + (if tiles[3] == 0 { 1nat } else { 0nat })
            + (if tiles[4] == 0 { 1nat } else { 0nat }) + (if tiles[5] == 0 { 1nat } else { 0nat })
            + (if tiles[6] == 0 { 1nat } else { 0nat }) + (if tiles[7] == 0 { 1nat } else { 0nat })
            + (if tiles[8] == 0 { 1nat } else { 0nat }) + (if tiles[9] == 0 { 1nat } else { 0nat })
            + (if tiles[10] == 0 { 1nat } else { 0nat }) + (if tiles[11] == 0 { 1nat } else { 0nat })
            + (if tiles[12] == 0 { 1nat } else { 0nat }) + (if tiles[13] == 0 { 1nat } else { 0nat })
            + (if tiles[14] == 0 { 1nat } else { 0nat }) + (if tiles[15] == 0 { 1nat } else { 0nat }),
{
    assert(tiles.take(16) =~= tiles);
    assert(empty_cells(tiles.take(0)) == 0);
    lemma_empty_cells_step(tiles, 0);
    lemma_empty_cells_step(tiles, 1);
    lemma_empty_cells_step(tiles, 2);
    lemma_empty_cells_step(tiles, 3);
    lemma_empty_cells_step(tiles, 4);
    lemma_empty_cells_step(tiles, 5);
    lemma_empty_cells_step(tiles, 6);
    lemma_empty_cells_step(tiles, 7);
    lemma_empty_cells_step(tiles, 8);
    lemma_empty_cells_step(tiles, 9);
    lemma_empty_cells_step(tiles, 10);
    lemma_empty_cells_step(tiles, 11);
    lemma_empty_cells_step(tiles, 12);
    lemma_empty_cells_step(tiles, 13);
    lemma_empty_cells_step(tiles, 14);
    lemma_empty_cells_step(tiles, 15);
}

/// The number of empty cells lies between 0 and the number of tiles.
pub proof fn lemma_empty_cells_bound(tiles: Seq<u8>)
    ensures
        empty_cells(tiles) <= tiles.len(),
    decreases tiles.len(),
{
    if tiles.len() > 0 {
        lemma_empty_cells_bound(tiles.drop_last());
    }
}

/// Every tile of a grid word is a rank of at most fifteen.
pub proof fn lemma_grid_tiles_are_ranks(bits: u64)
    ensures
        crate::row::all_ranks(grid_tiles(bits)),
{
    lemma_empty_flags_bits(bits);
}

/// 1 for an empty cell, 0 for a tile.
pub open spec fn flag_of(tile: u8) -> u64 {
    if tile == 0 {
        1
    } else {
        0
    }
}

proof fn lemma_flags_of_tiles(bits: u64)
    ensures
        (empty_flags(bits) >> 60) & 0xF == flag_of(grid_tiles(bits)[0]),
        (empty_flags(bits) >> 56) & 0xF == flag_of(grid_tiles(bits)[1]),
        (empty_flags(bits) >> 52) & 0xF == flag_of(grid_tiles(bits)[2]),
        (empty_flags(bits) >> 48) & 0xF == flag_of(grid_tiles(bits)[3]),
        (empty_flags(bits) >> 44) & 0xF == flag_of(grid_tiles(bits)[4]),
        (empty_flags(bits) >> 40) & 0xF == flag_of(grid_tiles(bits)[5]),
        (empty_flags(bits) >> 36) & 0xF == flag_of(grid_tiles(bits)[6]),
        (empty_flags(bits) >> 32) & 0xF == flag_of(grid_tiles(bits)[7]),
        (empty_flags(bits) >> 28) & 0xF == flag_of(grid_tiles(bits)[8]),
        (empty_flags(bits) >> 24) & 0xF == flag_of(grid_tiles(bits)[9]),
        (empty_flags(bits) >> 20) & 0xF == flag_of(grid_tiles(bits)[10]),
        (empty_flags(bits) >> 16) & 0xF == flag_of(grid_tiles(bits)[11]),
        (empty_flags(bits) >> 12) & 0xF == flag_of(grid_tiles(bits)[12]),
        (empty_flags(bits) >> 8) & 0xF == flag_of(grid_tiles(bits)[13]),
        (empty_flags(bits) >> 4) & 0xF == flag_of(grid_tiles(bits)[14]),
        (empty_flags(bits) >> 0) & 0xF == flag_of(grid_tiles(bits)[15]),
{
    let flags = empty_flags(bits);
    let tiles = grid_tiles(bits);
    assert(((flags >> 60) & 0xF) == flag_of(tiles[0])) by {
        lemma_empty_flags_bits(bits);
    }
    assert(((flags >> 56) & 0xF) == flag_of(tiles[1])) by {
        lemma_empty_flags_bits(bits);
    }
    assert(((flags >> 52) & 0xF) == flag_of(tiles[2])) by {
        lemma_empty_flags_bits(bits);
    }
    assert(((flags >> 48) & 0xF) == flag_of(tiles[3])) by {
        lemma_empty_flags_bits(bits);
    }
    assert(((flags >> 44) & 0xF) == flag_of(tiles[4])) by {
        lemma_empty_flags_bits(bits);
    }
    assert(((flags >> 40) & 0xF) == flag_of(tiles[5])) by {
        lemma_empty_flags_bits(bits);
    }
    assert(((flags >> 36) & 0xF) == flag_of(tiles[6])) by {
        lemma_empty_flags_bits(bits);
    }
    assert(((flags >> 32) & 0xF) == flag_of(tiles[7])) by {
        lemma_empty_flags_bits(bits);
    }
    assert(((flags >> 28) & 0xF) == flag_of(tiles[8])) by {
        lemma_empty_flags_bits(bits);
    }
    assert(((flags >> 24) & 0xF) == flag_of(tiles[9])) by {
        lemma_empty_flags_bits(bits);
    }
    assert(((flags >> 20) & 0xF) == flag_of(tiles[10])) by {
        lemma_empty_flags_bits(bits);
    }
    assert(((flags >> 16) & 0xF) == flag_of(tiles[11])) by {
        lemma_empty_flags_bits(bits);
    }
    assert(((flags >> 12) & 0xF) == flag_of(tiles[12])) by {
        lemma_empty_flags_bits(bits);
    }
    assert(((flags >> 8) & 0xF) == flag_of(tiles[13])) by {
        lemma_empty_flags_bits(bits);
    }
    assert(((flags >> 4) & 0xF) == flag_of(tiles[14])) by {
        lemma_empty_flags_bits(bits);
    }
    assert(((flags >> 0) & 0xF) == flag_of(tiles[15])) by {
        lemma_empty_flags_bits(bits);
    }
}

proof fn lemma_empty_cells_are_flags(bits: u64)
    ensures
        empty_cells(grid_tiles(bits)) == flag_of(grid_tiles(bits)[0]) + flag_of(grid_tiles(bits)[1]) + flag_of(grid_tiles(bits)[2]) + flag_of(grid_tiles(bits)[3]) + flag_of(grid_tiles(bits)[4]) + flag_of(grid_tiles(bits)[5]) + flag_of(grid_tiles(bits)[6]) + flag_of(grid_tiles(bits)[7]) + flag_of(grid_tiles(bits)[8]) + flag_of(grid_tiles(bits)[9]) + flag_of(grid_tiles(bits)[10]) + flag_of(grid_tiles(bits)[11]) + flag_of(grid_tiles(bits)[12]) + flag_of(grid_tiles(bits)[13]) + flag_of(grid_tiles(bits)[14]) + flag_of(grid_tiles(bits)[15]),
{
    lemma_empty_cells_unfold(grid_tiles(bits));
}

/// Folding the empty flags of a grid word counts its empty cells, and no step of the fold
/// leaves 64 bits.
pub proof fn lemma_count_empty(bits: u64)
    ensures
        flag_total(empty_flags(bits)) == empty_cells(grid_tiles(bits)),
        flag_total(empty_flags(bits)) <= 16,
        ({
            let flags = empty_flags(bits);
            let s1 = (flags + (flags >> 32)) as u64;
            let s2 = (s1 + (s1 >> 16)) as u64;
            let s3 = (s2 + (s2 >> 8)) as u64;
            &&& flags + (flags >> 32) <= u64::MAX
            &&& s1 + (s1 >> 16) <= u64::MAX
            &&& s2 + (s2 >> 8) <= u64::MAX
            &&& (s3 & 0xF) + ((s3 >> 4) & 0xF) <= 16
        }),
{
    let flags = empty_flags(bits);
    let tiles = grid_tiles(bits);
    assert(flags & !0x1111_1111_1111_1111 == 0) by {
        lemma_empty_flags_bits(bits);
    }
    lemma_flag_sum_bits(flags);
    assert(flag_total(flags) == empty_cells(tiles)) by {
        lemma_flag_sum_bits(flags);
        lemma_flags_of_tiles(bits);
        lemma_empty_cells_are_flags(bits);
    }
    lemma_empty_cells_bound(tiles);
}

/// A move that the player can make.
#[derive(PartialEq, Eq, Structural, Hash, Clone, Copy, Debug)]
pub enum Move {
    /// Slide every row to the left.
    Left,
    /// Slide every row to the right.
    Right,
    /// Slide every column to the top.
    Up,
    /// Slide every column to the bottom.
    Down,
}

/// The game state: sixteen tiles in one word. Holds tiles of up to 32768.
#[derive(PartialEq, Eq, Structural, Hash, Clone, Copy, Debug)]
pub struct Grid(pub u64);

impl View for Grid {
    type V = Seq<u8>;

    open spec fn view(&self) -> Seq<u8> {
        grid_tiles(self.0)
    }
}

impl Default for Grid {
    /// The grid with every cell empty.
    fn default() -> (grid: Grid)
        ensures
            grid.0 == 0,
    {
        Grid(0)
    }
}

impl Grid {
    /// The four rows of the grid, top row first.
    pub fn rows(self) -> (rows: [Row; 4])
        ensures
            forall|r: int| 0 <= r < 4 ==> rows[r].0 == grid_row(self.0, r),
            forall|r: int| 0 <= r < 4 ==> rows[r]@ == row_of(self@, r),
    {
        proof {
            lemma_row_bits(self.0);
            assert forall|r: int| 0 <= r < 4 implies row_tiles(grid_row(self.0, r)) == row_of(
                self@,
                r,
            ) by {
                lemma_row_tiles_of_grid(self.0, r);
            }
        }
        let row0 = Row(((self.0 & 0xFFFF_0000_0000_0000) >> 48) as u16);
        let row1 = Row(((self.0 & 0x0000_FFFF_0000_0000) >> 32) as u16);
        let row2 = Row(((self.0 & 0x0000_0000_FFFF_0000) >> 16) as u16);
        let row3 = Row((self.0 & 0x0000_0000_0000_FFFF) as u16);
        [row0, row1, row2, row3]
    }

    /// The grid made of four rows, the first one on top.
    pub fn from_rows(rows: [Row; 4]) -> (grid: Grid)
        ensures
            grid.0 == join_rows(rows[0].0, rows[1].0, rows[2].0, rows[3].0),
            forall|r: int| 0 <= r < 4 ==> grid_row(grid.0, r) == rows[r].0,
            forall|r: int| 0 <= r < 4 ==> row_of(grid@, r) == rows[r]@,
    {
        let bits: u64 = (rows[0].0 as u64) << 48 | (rows[1].0 as u64) << 32 | (rows[2].0 as u64)
            << 16 | (rows[3].0 as u64);
        proof {
            lemma_rows_of_join(rows[0].0, rows[1].0, rows[2].0, rows[3].0);
            assert forall|r: int| 0 <= r < 4 implies row_of(grid_tiles(bits), r) == rows[r]@ by {
                lemma_row_tiles_of_grid(bits, r);
            }
        }
        Grid(bits)
    }
    /// The grid with rows and columns exchanged.
    pub open spec fn transposed(self) -> Grid {
        Grid(transpose_bits(self.0))
    }

    /// The grid made of four columns, the first one leftmost.
    pub fn from_columns(columns: [Column; 4]) -> (grid: Grid)
        ensures
            grid.0 == join_columns(columns[0].0, columns[1].0, columns[2].0, columns[3].0),
            (forall|c: int| 0 <= c < 4 ==> columns[c].well_formed()) ==> forall|c: int|
                0 <= c < 4 ==> column_of(grid@, c) == columns[c]@,
    {
        let bits: u64 = columns[0].0 << 12 | columns[1].0 << 8 | columns[2].0 << 4 | columns[3].0;
        proof {
            if forall|c: int| 0 <= c < 4 ==> columns[c].well_formed() {
                assert(columns[0].well_formed() && columns[1].well_formed()
                    && columns[2].well_formed() && columns[3].well_formed());
                lemma_columns_of_join(columns[0].0, columns[1].0, columns[2].0, columns[3].0);
            }
        }
        Grid(bits)
    }

    /// The number of empty cells, from 0 to 16.
    pub fn count_empty(self) -> (count: usize)
        ensures
            count == empty_cells(self@),
            count <= 16,
    {
        proof {
            lemma_count_empty(self.0);
        }
        let mut x: u64 = self.0;
        x |= (x >> 2) & 0x3333_3333_3333_3333;
        x |= x >> 1;
        x = (!x) & 0x1111_1111_1111_1111;
        // Every four-bit block now holds 1 where the cell is empty and 0 elsewhere.
        assert(x == empty_flags(self.0));
        x += x >> 32;
        x += x >> 16;
        x += x >> 8;
        // The two lowest blocks hold up to 8 each: add them outside the word, where 16 fits.
        ((x & 0xF) + ((x >> 4) & 0xF)) as usize
    }

    /// Exchanges rows and columns: the tile in row `r`, column `c` of the result is the tile
    /// in row `c`, column `r` of `self`.
    pub fn transpose(self) -> (out: Grid)
        ensures
            out == self.transposed(),
            forall|r: int, c: int|
                0 <= r < 4 && 0 <= c < 4 ==> #[trigger] out@[4 * r + c] == self@[4 * c + r],
            forall|c: int| 0 <= c < 4 ==> row_of(out@, c) == column_of(self@, c),
    {
        proof {
            lemma_transpose_involution(self.0);
            assert forall|c: int| 0 <= c < 4 implies row_of(
                grid_tiles(transpose_bits(self.0)),
                c,
            ) == column_of(self@, c) by {
                let t = grid_tiles(transpose_bits(self.0));
                assert(t[4 * c + 0] == self@[4 * 0 + c]);
                assert(t[4 * c + 1] == self@[4 * 1 + c]);
                assert(t[4 * c + 2] == self@[4 * 2 + c]);
                assert(t[4 * c + 3] == self@[4 * 3 + c]);
                assert(row_of(t, c) =~= column_of(self@, c));
            }
        }
        let x = self.0;
        let a1 = x & 0xF0F0_0F0F_F0F0_0F0F;
        let a2 = x & 0x0000_F0F0_0000_F0F0;
        let a3 = x & 0x0F0F_0000_0F0F_0000;
        let a = a1 | (a2 << 12) | (a3 >> 12);
        let b1 = a & 0xFF00_FF00_00FF_00FF;
        let b2 = a & 0x00FF_00FF_0000_0000;
        let b3 = a & 0x0000_0000_FF00_FF00;
        Grid(b1 | (b2 >> 24) | (b3 << 24))
    }
}

/// Splitting a grid into rows and joining them again gives the grid back.
pub proof fn lemma_rows_round_trip(grid: Grid)
    ensures
        Grid(
            join_rows(
                grid_row(grid.0, 0),
                grid_row(grid.0, 1),
                grid_row(grid.0, 2),
                grid_row(grid.0, 3),
            ),
        ) == grid,
{
    lemma_join_of_rows(grid.0);
}

/// Transposing a grid twice gives the grid back.
pub proof fn lemma_transpose_twice(grid: Grid)
    ensures
        grid.transposed().transposed() == grid,
{
    lemma_transpose_involution(grid.0);
}

} // verus!
