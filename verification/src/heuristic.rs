//! What makes a row of tiles good or bad, in whole numbers.
//!
//! A position is judged row by row and column by column. For one line of four tiles three
//! of the terms are whole numbers and are computed here: how many cells are empty, how many
//! pairs of equal neighbours could merge, and how far the line is from running up or down
//! in one direction.
use vstd::prelude::*;
use crate::grid::{empty_cells, Grid};
use crate::row::{all_ranks, Row, MAX_RANK};

verus! {

/// How often `needle` stands in `bytes`.
pub open spec fn occurrences(bytes: Seq<u8>, needle: u8) -> nat
    decreases bytes.len(),
{
    if bytes.len() == 0 {
        0
    } else {
        occurrences(bytes.drop_last(), needle) + if bytes.last() == needle {
            1nat
        } else {
            0nat
        }
    }
}

/// The number of pairs of equal neighbours among `tiles` that are not empty, found from the
/// left; a tile belongs to one pair at most.
pub open spec fn adjacent_pairs(tiles: Seq<u8>) -> nat
    decreases tiles.len(),
{
    if tiles.len() < 2 {
        0
    } else if tiles[0] != 0 && tiles[0] == tiles[1] {
        1 + adjacent_pairs(tiles.skip(2))
    } else {
        adjacent_pairs(tiles.skip(1))
    }
}

/// The fourth power of a rank.
pub open spec fn fourth_power(rank: u8) -> int {
    rank * rank * rank * rank
}

/// The sum, over the neighbours among the first `upto` tiles, of what the fourth power of
/// the rank falls by from a tile to the next.
pub open spec fn total_fall(tiles: Seq<u8>, upto: int) -> int
    decreases upto,
{
    if upto <= 1 {
        0
    } else {
        let step = fourth_power(tiles[upto - 2]) - fourth_power(tiles[upto - 1]);
        total_fall(tiles, upto - 1) + if step > 0 {
            step
        } else {
            0
        }
    }
}

/// The sum, over the neighbours among the first `upto` tiles, of what the fourth power of
/// the rank rises by from a tile to the next.
pub open spec fn total_rise(tiles: Seq<u8>, upto: int) -> int
    decreases upto,
{
    if upto <= 1 {
        0
    } else {
        let step = fourth_power(tiles[upto - 1]) - fourth_power(tiles[upto - 2]);
        total_rise(tiles, upto - 1) + if step > 0 {
            step
        } else {
            0
        }
    }
}

/// How far a line of tiles is from running in one direction: the smaller of its total fall
/// and its total rise, with a minus sign. It is 0 for a line that never rises or never falls.
pub open spec fn monotonicity(tiles: Seq<u8>) -> int {
    let fall = total_fall(tiles, tiles.len() as int);
    let rise = total_rise(tiles, tiles.len() as int);
    if fall < rise {
        -fall
    } else {
        -rise
    }
}

/// An empty cell is a tile of rank 0, so counting zeros counts the empty cells.
pub proof fn lemma_zeros_are_empty_cells(tiles: Seq<u8>)
    ensures
        occurrences(tiles, 0) == empty_cells(tiles),
    decreases tiles.len(),
{
    if tiles.len() > 0 {
        lemma_zeros_are_empty_cells(tiles.drop_last());
    }
}

proof fn lemma_fourth_power_bound(rank: u8)
    requires
        rank <= MAX_RANK,
    ensures
        0 <= fourth_power(rank) <= 50625,
        fourth_power(rank) == (rank * rank) * (rank * rank),
{
    assert(0 <= rank * rank <= 225) by (nonlinear_arith)
        requires
            0 <= rank <= 15,
    ;
    let square: int = rank * rank;
    assert(0 <= square * square <= 50625) by (nonlinear_arith)
        requires
            0 <= square <= 225,
    ;
    assert(rank * rank * rank * rank == (rank * rank) * (rank * rank)) by (nonlinear_arith);
}

/// Calls `count` of `bytecount`, which counts how often a byte stands in a slice. The
/// contract states just that, as `bytecount` documents it.
#[verifier::external_body]
fn count_byte(haystack: &[u8], needle: u8) -> (count: usize)
    ensures
        count == occurrences(haystack@, needle),
{
    bytecount::count(haystack, needle)
}

/// The fourth power of a rank.
fn fourth(rank: u8) -> (power: i32)
    requires
        rank <= MAX_RANK,
    ensures
        power == fourth_power(rank),
        0 <= power <= 50625,
{
    proof {
        lemma_fourth_power_bound(rank);
        assert(0 <= rank * rank <= 225) by (nonlinear_arith)
            requires
                0 <= rank <= 15,
        ;
    }
    let square: i32 = (rank as i32) * (rank as i32);
    square * square
}

/// The number of empty cells of a row.
pub fn empty_tile_count_row(row: Row) -> (count: usize)
    ensures
        count == empty_cells(row@),
        count <= 4,
{
    let tiles = row.unpack();
    proof {
        lemma_zeros_are_empty_cells(tiles@);
        crate::grid::lemma_empty_cells_bound(tiles@);
    }
    count_byte(tiles.as_slice(), 0)
}

/// The number of pairs of equal neighbours among four tiles that could merge, found from
/// the left.
pub fn adjacent_tiles(tiles: &[u8; 4]) -> (count: u8)
    ensures
        count == adjacent_pairs(tiles@),
        count <= 2,
{
    let mut count: u8 = 0;
    let mut y: usize = 0;
    assert(tiles@.skip(0) =~= tiles@);
    while y < 3
        invariant
            0 <= y <= 4,
            tiles@.len() == 4,
            2 * count <= y,
            count + adjacent_pairs(tiles@.skip(y as int)) == adjacent_pairs(tiles@),
        decreases 4 - y,
    {
        let ghost rest = tiles@.skip(y as int);
        assert(rest.len() >= 2 && rest[0] == tiles[y as int] && rest[1] == tiles[y as int + 1]);
        if tiles[y] != 0 && tiles[y] == tiles[y + 1] {
            assert(rest.skip(2) =~= tiles@.skip(y as int + 2));
            count += 1;
            y += 2;
        } else {
            assert(rest.skip(1) =~= tiles@.skip(y as int + 1));
            y += 1;
        }
    }
    count
}

/// The number of pairs of equal neighbours in a row that could merge, found from the left.
pub fn adjacent_row(row: Row) -> (count: u8)
    ensures
        count == adjacent_pairs(row@),
        count <= 2,
{
    let tiles = row.unpack();
    adjacent_tiles(&tiles)
}

/// How far a row is from running in one direction; see `monotonicity`. Never above 0.
pub fn monotonicity_row(row: Row) -> (score: i32)
    ensures
        score == monotonicity(row@),
        -151875 <= score <= 0,
{
    let tiles = row.unpack();
    let mut fall: i32 = 0;
    let mut rise: i32 = 0;
    let mut i: usize = 1;
    while i < 4
        invariant
            1 <= i <= 4,
            tiles@.len() == 4,
            all_ranks(tiles@),
            fall == total_fall(tiles@, i as int),
            rise == total_rise(tiles@, i as int),
            0 <= fall <= 50625 * (i - 1),
            0 <= rise <= 50625 * (i - 1),
        decreases 4 - i,
    {
        assert(tiles@[i as int - 1] <= MAX_RANK && tiles@[i as int] <= MAX_RANK);
        let current = fourth(tiles[i - 1]);
        let next = fourth(tiles[i]);
        if current > next {
            fall += current - next;
        } else if next > current {
            rise += next - current;
        }
        i += 1;
    }
    if fall < rise {
        -fall
    } else {
        -rise
    }
}

/// The whole-number terms of the judgement of one line of four tiles.
#[derive(PartialEq, Eq, Structural, Clone, Copy, Debug)]
pub struct RowTerms {
    /// The number of empty cells.
    pub empty: usize,
    /// The number of pairs of equal neighbours that could merge.
    pub adjacent: u8,
    /// How far the line is from running in one direction; never above 0.
    pub monotonicity: i32,
}

/// The whole-number terms of the judgement of a row.
pub fn row_terms(row: Row) -> (terms: RowTerms)
    ensures
        terms.empty == empty_cells(row@),
        terms.adjacent == adjacent_pairs(row@),
        terms.monotonicity == monotonicity(row@),
{
    RowTerms {
        empty: empty_tile_count_row(row),
        adjacent: adjacent_row(row),
        monotonicity: monotonicity_row(row),
    }
}

/// The eight lines that a grid is judged by: its four rows, top first, then its four
/// columns, left first, each as a row.
pub fn lines(grid: Grid) -> (out: [Row; 8])
    ensures
        forall|r: int| 0 <= r < 4 ==> out[r]@ == crate::grid::row_of(grid@, r),
        forall|c: int| 0 <= c < 4 ==> out[4 + c]@ == crate::grid::column_of(grid@, c),
{
    let rows = grid.rows();
    let columns = grid.transpose().rows();
    [rows[0], rows[1], rows[2], rows[3], columns[0], columns[1], columns[2], columns[3]]
}

} // verus!
