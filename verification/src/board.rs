//! The grid with one byte for each cell.
//!
//! A `Board` holds the same sixteen ranks as a `Grid`, unpacked: it is the form to read and
//! to change single cells in, and its moves work on the tiles themselves.
use vstd::prelude::*;
use crate::grid::{column_of, empty_cells, lemma_empty_cells_step, row_of, Grid, Move};
use crate::human::{encodes, valid_tile};
use crate::moves::{no_move_changes, slide_grid};
use crate::row::MAX_RANK;
use crate::slide::{move_row_left_raw, move_row_right_raw};
use crate::spawn::{
    adds_one_tile, lemma_spawns_len, spawns, spawns_before, RANK_OF_2, RANK_OF_4,
};

verus! {

/// The sixteen tiles of four rows of four, row by row.
pub open spec fn cells(grid: [[u8; 4]; 4]) -> Seq<u8> {
    Seq::new(16, |k: int| grid[k / 4][k % 4])
}

/// The game state with one byte for each cell, row by row. Every byte is a rank of at most
/// fifteen.
#[derive(PartialEq, Eq, Hash, Clone, Copy, Debug)]
pub struct Board {
    grid: [[u8; 4]; 4],
}

impl View for Board {
    type V = Seq<u8>;

    closed spec fn view(&self) -> Seq<u8> {
        cells(self.grid)
    }
}

impl Default for Board {
    /// The board with every cell empty.
    fn default() -> (board: Board)
        ensures
            board@ == Seq::new(16, |k: int| 0u8),
    {
        Board::empty()
    }
}

proof fn lemma_cells_rows(grid: [[u8; 4]; 4])
    ensures
        forall|r: int| 0 <= r < 4 ==> #[trigger] row_of(cells(grid), r) == grid[r]@,
{
    assert forall|r: int| 0 <= r < 4 implies #[trigger] row_of(cells(grid), r) == grid[r]@ by {
        assert(row_of(cells(grid), r) =~= grid[r]@);
    }
}

proof fn lemma_rows_cells(grid: [[u8; 4]; 4], tiles: Seq<u8>)
    requires
        tiles.len() == 16,
        forall|r: int| 0 <= r < 4 ==> #[trigger] row_of(tiles, r) == grid[r]@,
    ensures
        cells(grid) == tiles,
{
    assert forall|k: int| 0 <= k < 16 implies cells(grid)[k] == tiles[k] by {
        assert(row_of(tiles, k / 4)[k % 4] == grid[k / 4]@[k % 4]);
    }
    assert(cells(grid) =~= tiles);
}

impl Board {
    /// Every cell holds a rank that fits four bits.
    #[verifier::type_invariant]
    spec fn ranks_fit(self) -> bool {
        forall|r: int, c: int| 0 <= r < 4 && 0 <= c < 4 ==> #[trigger] self.grid[r][c] <= MAX_RANK
    }

    /// The board with every cell empty.
    pub fn empty() -> (board: Board)
        ensures
            board@ == Seq::new(16, |k: int| 0u8),
    {
        let board = Board { grid: [[0u8; 4]; 4] };
        assert(board@ =~= Seq::new(16, |k: int| 0u8));
        board
    }

    /// The board that holds the tiles of `grid`.
    pub fn from_grid(grid: Grid) -> (board: Board)
        ensures
            board@ == grid@,
    {
        let ranks = grid.unpack_log();
        proof {
            assert forall|r: int, c: int| 0 <= r < 4 && 0 <= c < 4 implies #[trigger] ranks[r][c]
                <= MAX_RANK by {
                assert(ranks[r]@[c] <= MAX_RANK);
            }
            lemma_rows_cells(ranks, grid@);
        }
        Board { grid: ranks }
    }

    /// The packed grid that holds the tiles of the board.
    pub fn to_grid(&self) -> (grid: Grid)
        ensures
            grid@ == self@,
    {
        proof {
            use_type_invariant(self);
            assert forall|r: int| 0 <= r < 4 implies crate::row::all_ranks(self.grid[r]@) by {
                assert forall|c: int| 0 <= c < 4 implies self.grid[r]@[c] <= MAX_RANK by {
                    assert(self.grid[r][c] <= MAX_RANK);
                }
            }
        }
        let grid = Grid::from_log(self.grid).unwrap();
        proof {
            lemma_rows_cells(self.grid, grid@);
        }
        grid
    }

    /// The board that shows the numbers in `grid`, row by row. `None` when a number is
    /// neither 0 nor a power of two of at most 32768.
    pub fn new(grid: &[[u32; 4]; 4]) -> (out: Option<Board>)
        ensures
            out.is_some() <==> forall|r: int, c: int|
                0 <= r < 4 && 0 <= c < 4 ==> valid_tile(#[trigger] grid[r][c]),
            out matches Some(b) ==> forall|r: int, c: int|
                0 <= r < 4 && 0 <= c < 4 ==> encodes(#[trigger] grid[r][c], b@[4 * r + c]),
    {
        match Grid::from_human(*grid) {
            Some(packed) => Some(Board::from_grid(packed)),
            None => None,
        }
    }

    /// The board that shows the numbers in `grid`, row by row. `None` when a number is
    /// neither 0 nor a power of two of at most 32768.
    pub fn from_human(grid: [[u32; 4]; 4]) -> (out: Option<Board>)
        ensures
            out.is_some() <==> forall|r: int, c: int|
                0 <= r < 4 && 0 <= c < 4 ==> valid_tile(#[trigger] grid[r][c]),
            out matches Some(b) ==> forall|r: int, c: int|
                0 <= r < 4 && 0 <= c < 4 ==> encodes(#[trigger] grid[r][c], b@[4 * r + c]),
    {
        Board::new(&grid)
    }

    /// The ranks of the sixteen cells, row by row.
    pub fn get_grid(&self) -> (grid: &[[u8; 4]; 4])
        ensures
            cells(*grid) == self@,
            forall|r: int, c: int| 0 <= r < 4 && 0 <= c < 4 ==> #[trigger] grid[r][c] <= MAX_RANK,
    {
        proof {
            use_type_invariant(self);
        }
        &self.grid
    }

    /// The numbers that the sixteen cells show, row by row.
    pub fn unpack_human(&self) -> (out: [[u32; 4]; 4])
        ensures
            forall|r: int, c: int|
                0 <= r < 4 && 0 <= c < 4 ==> #[trigger] out[r][c] == crate::human::displayed(
                    self@[4 * r + c],
                ),
    {
        self.to_grid().unpack_human()
    }

    /// The board with rows and columns exchanged.
    pub fn transpose(&self) -> (out: Board)
        ensures
            forall|r: int, c: int|
                0 <= r < 4 && 0 <= c < 4 ==> #[trigger] out@[4 * r + c] == self@[4 * c + r],
            forall|c: int| 0 <= c < 4 ==> #[trigger] row_of(out@, c) == column_of(self@, c),
            forall|c: int| 0 <= c < 4 ==> #[trigger] column_of(out@, c) == row_of(self@, c),
    {
        proof {
            use_type_invariant(self);
        }
        let row0 = [self.grid[0][0], self.grid[1][0], self.grid[2][0], self.grid[3][0]];
        let row1 = [self.grid[0][1], self.grid[1][1], self.grid[2][1], self.grid[3][1]];
        let row2 = [self.grid[0][2], self.grid[1][2], self.grid[2][2], self.grid[3][2]];
        let row3 = [self.grid[0][3], self.grid[1][3], self.grid[2][3], self.grid[3][3]];
        let out = Board { grid: [row0, row1, row2, row3] };
        proof {
            assert forall|c: int| 0 <= c < 4 implies #[trigger] row_of(out@, c) == column_of(
                self@,
                c,
            ) by {
                assert(row_of(out@, c) =~= column_of(self@, c));
            }
            assert forall|c: int| 0 <= c < 4 implies #[trigger] column_of(out@, c) == row_of(
                self@,
                c,
            ) by {
                assert(column_of(out@, c) =~= row_of(self@, c));
            }
        }
        out
    }

    /// The number of empty cells, from 0 to 16.
    pub fn count_empty(&self) -> (count: usize)
        ensures
            count == empty_cells(self@),
            count <= 16,
    {
        let mut count: usize = 0;
        let mut k: usize = 0;
        while k < 16
            invariant
                0 <= k <= 16,
                count <= k,
                count == empty_cells(self@.take(k as int)),
            decreases 16 - k,
        {
            proof {
                lemma_empty_cells_step(self@, k as int);
            }
            if self.grid[k / 4][k % 4] == 0 {
                count += 1;
            }
            k += 1;
        }
        assert(self@.take(16) =~= self@);
        count
    }

    /// The sum of the ranks of all tiles: no game reaches the board in more moves.
    pub fn moves(&self) -> (total: u32)
        ensures
            total == rank_sum(self@),
    {
        proof {
            use_type_invariant(self);
        }
        let mut total: u32 = 0;
        let mut k: usize = 0;
        while k < 16
            invariant
                0 <= k <= 16,
                total <= 15 * k,
                total == rank_sum(self@.take(k as int)),
                forall|r: int, c: int|
                    0 <= r < 4 && 0 <= c < 4 ==> #[trigger] self.grid[r][c] <= MAX_RANK,
            decreases 16 - k,
        {
            proof {
                assert(self@.take(k as int + 1).drop_last() =~= self@.take(k as int));
            }
            total += self.grid[k / 4][k % 4] as u32;
            k += 1;
        }
        assert(self@.take(16) =~= self@);
        total
    }

    /// Slides every row to the side that `mv` names.
    fn move_rows(&self, mv: Move) -> (out: Board)
        requires
            mv == Move::Left || mv == Move::Right,
        ensures
            forall|r: int|
                0 <= r < 4 ==> #[trigger] row_of(out@, r) == crate::moves::slide_row(
                    row_of(self@, r),
                    mv,
                ),
    {
        let mut grid: [[u8; 4]; 4] = [[0u8; 4]; 4];
        let mut r: usize = 0;
        proof {
            lemma_cells_rows(self.grid);
        }
        while r < 4
            invariant
                0 <= r <= 4,
                mv == Move::Left || mv == Move::Right,
                forall|i: int| 0 <= i < 4 ==> #[trigger] row_of(self@, i) == self.grid[i]@,
                forall|i: int|
                    0 <= i < r ==> (#[trigger] grid[i])@ == crate::moves::slide_row(
                        self.grid[i]@,
                        mv,
                    ),
                forall|i: int, c: int| 0 <= i < 4 && 0 <= c < 4 ==> #[trigger] grid[i][c] <= MAX_RANK,
            decreases 4 - r,
        {
            let moved = match mv {
                Move::Left => move_row_left_raw(self.grid[r]),
                _ => move_row_right_raw(self.grid[r]),
            };
            proof {
                assert forall|c: int| 0 <= c < 4 implies moved[c] <= MAX_RANK by {
                    assert(moved@[c] <= MAX_RANK);
                }
            }
            grid[r] = moved;
            r += 1;
        }
        let out = Board { grid };
        proof {
            lemma_cells_rows(grid);
            assert forall|i: int| 0 <= i < 4 implies #[trigger] row_of(out@, i)
                == crate::moves::slide_row(row_of(self@, i), mv) by {
                assert(row_of(cells(grid), i) == grid[i]@);
            }
        }
        out
    }

    /// The board that the move `mv` leads to. Two tiles of 32768 that meet merge into one of
    /// 32768. A move that changes no tile returns an equal board.
    pub fn make_move(&self, mv: Move) -> (out: Board)
        ensures
            out@ == slide_grid(self@, mv),
    {
        match mv {
            Move::Left | Move::Right => {
                let out = self.move_rows(mv);
                proof {
                    reveal(slide_grid);
                    let want = slide_grid(self@, mv);
                    assert forall|k: int| 0 <= k < 16 implies out@[k] == want[k] by {
                        assert(row_of(out@, k / 4)[k % 4] == crate::moves::slide_row(
                            row_of(self@, k / 4),
                            mv,
                        )[k % 4]);
                    }
                    assert(out@ =~= want);
                }
                out
            },
            Move::Up | Move::Down => {
                let sideways = if mv == Move::Up {
                    Move::Left
                } else {
                    Move::Right
                };
                let turned = self.transpose();
                let moved = turned.move_rows(sideways);
                let out = moved.transpose();
                proof {
                    reveal(slide_grid);
                    let want = slide_grid(self@, mv);
                    assert forall|k: int| 0 <= k < 16 implies out@[k] == want[k] by {
                        let r = k / 4;
                        let c = k % 4;
                        assert(out@[4 * r + c] == moved@[4 * c + r]);
                        assert(row_of(moved@, c)[r] == crate::moves::slide_row(
                            row_of(turned@, c),
                            sideways,
                        )[r]);
                        assert(row_of(turned@, c) == column_of(self@, c));
                    }
                    assert(out@ =~= want);
                }
                out
            },
        }
    }

    /// True when the game is lost: no move changes the board.
    pub fn is_terminal(&self) -> (over: bool)
        ensures
            over <==> no_move_changes(self@),
    {
        let over = self.same_tiles(&self.make_move(Move::Left)) && self.same_tiles(
            &self.make_move(Move::Right),
        ) && self.same_tiles(&self.make_move(Move::Up)) && self.same_tiles(
            &self.make_move(Move::Down),
        );
        proof {
            crate::moves::lemma_game_over_iff_stuck(self@);
        }
        over
    }

    /// True when both boards hold the same tiles.
    pub fn same_tiles(&self, other: &Board) -> (same: bool)
        ensures
            same <==> self@ == other@,
    {
        let mut k: usize = 0;
        while k < 16
            invariant
                0 <= k <= 16,
                forall|j: int| 0 <= j < k ==> self@[j] == other@[j],
            decreases 16 - k,
        {
            if self.grid[k / 4][k % 4] != other.grid[k / 4][k % 4] {
                assert(self@[k as int] != other@[k as int]);
                return false;
            }
            k += 1;
        }
        assert(self@ =~= other@);
        true
    }

    /// The board with one new tile on an empty cell that is picked at random: a 2 nine times
    /// out of ten, a 4 otherwise. All other tiles stay as they are. The board must have an
    /// empty cell.
    pub fn add_random_tile(&self) -> (out: Board)
        requires
            empty_cells(self@) > 0,
        ensures
            adds_one_tile(self@, out@),
    {
        Board::from_grid(self.to_grid().add_random_tile())
    }

    /// Every board that comes of putting a tile of rank `value` on one empty cell, in the
    /// order of the cells.
    fn ai_moves(&self, value: u8) -> (out: Vec<Board>)
        requires
            value <= MAX_RANK,
        ensures
            out@.map_values(|b: Board| b@) == spawns(self@, value),
            out.len() == empty_cells(self@),
    {
        proof {
            use_type_invariant(self);
        }
        let mut out: Vec<Board> = Vec::new();
        let mut k: usize = 0;
        while k < 16
            invariant
                0 <= k <= 16,
                value <= MAX_RANK,
                forall|r: int, c: int|
                    0 <= r < 4 && 0 <= c < 4 ==> #[trigger] self.grid[r][c] <= MAX_RANK,
                out@.map_values(|b: Board| b@) == spawns_before(self@, value, k as int),
            decreases 16 - k,
        {
            if self.grid[k / 4][k % 4] == 0 {
                let mut grid = self.grid;
                grid[k / 4][k % 4] = value;
                let next = Board { grid };
                assert(next@ =~= self@.update(k as int, value));
                let ghost before = out@;
                out.push(next);
                assert(out@.map_values(|b: Board| b@) =~= before.map_values(|b: Board| b@).push(
                    next@,
                ));
            }
            k += 1;
        }
        proof {
            lemma_spawns_len(self@, value, 16);
            assert(self@.take(16) =~= self@);
            assert(out@.map_values(|b: Board| b@).len() == out@.len());
        }
        out
    }

    /// Every board that the game can reach from this one by adding a 2, one for each empty
    /// cell, in the order of the cells.
    pub fn ai_moves_with2(&self) -> (out: Vec<Board>)
        ensures
            out@.map_values(|b: Board| b@) == spawns(self@, RANK_OF_2),
            out.len() == empty_cells(self@),
    {
        self.ai_moves(RANK_OF_2)
    }

    /// Every board that the game can reach from this one by adding a 4, one for each empty
    /// cell, in the order of the cells.
    pub fn ai_moves_with4(&self) -> (out: Vec<Board>)
        ensures
            out@.map_values(|b: Board| b@) == spawns(self@, RANK_OF_4),
            out.len() == empty_cells(self@),
    {
        self.ai_moves(RANK_OF_4)
    }
}

/// The sum of the ranks of `tiles`.
pub open spec fn rank_sum(tiles: Seq<u8>) -> nat
    decreases tiles.len(),
{
    if tiles.len() == 0 {
        0
    } else {
        rank_sum(tiles.drop_last()) + tiles.last() as nat
    }
}

} // verus!
