//! Player moves on the grid, and the test for the end of the game.
use vstd::prelude::*;
use crate::column::{move_row_down, move_row_up, Column};
use crate::grid::{column_of, lemma_grids_equal_by_tiles, row_of, Grid, Move};
use crate::row::Row;
use crate::slide::{move_row_left, move_row_right, slide_left, slide_right};

verus! {

/// The four moves in their canonical order.
pub const MOVES: [Move; 4] = [Move::Left, Move::Right, Move::Up, Move::Down];

/// What a horizontal move makes of one row of tiles.
pub open spec fn slide_row(tiles: Seq<u8>, mv: Move) -> Seq<u8> {
    if mv == Move::Left {
        slide_left(tiles)
    } else {
        slide_right(tiles)
    }
}

/// What a vertical move makes of one column of tiles, top tile first.
pub open spec fn slide_column(tiles: Seq<u8>, mv: Move) -> Seq<u8> {
    if mv == Move::Up {
        slide_left(tiles)
    } else {
        slide_right(tiles)
    }
}

/// The sixteen tiles of a grid after a move: every row slides for a horizontal move, every
/// column for a vertical one.
#[verifier::opaque]
pub open spec fn slide_grid(tiles: Seq<u8>, mv: Move) -> Seq<u8> {
    Seq::new(
        16,
        |k: int|
            if mv == Move::Left || mv == Move::Right {
                slide_row(row_of(tiles, k / 4), mv)[k % 4]
            } else {
                slide_column(column_of(tiles, k % 4), mv)[k / 4]
            },
    )
}

/// True when no move changes the tiles.
pub open spec fn no_move_changes(tiles: Seq<u8>) -> bool {
    forall|mv: Move| slide_grid(tiles, mv) == tiles
}

/// The move `mv` with the tiles it leads to, if it changes the tiles; nothing otherwise.
pub open spec fn successor(tiles: Seq<u8>, mv: Move) -> Seq<(Move, Seq<u8>)> {
    if slide_grid(tiles, mv) == tiles {
        Seq::empty()
    } else {
        seq![(mv, slide_grid(tiles, mv))]
    }
}

/// The moves that change the tiles, each with the tiles it leads to, in canonical order.
pub open spec fn successors(tiles: Seq<u8>) -> Seq<(Move, Seq<u8>)> {
    successor(tiles, Move::Left) + successor(tiles, Move::Right) + successor(tiles, Move::Up)
        + successor(tiles, Move::Down)
}

proof fn lemma_rows_give_tiles(out: Seq<u8>, want: Seq<u8>)
    requires
        out.len() == 16,
        want.len() == 16,
        forall|r: int| 0 <= r < 4 ==> row_of(out, r) == row_of(want, r),
    ensures
        out == want,
{
    assert forall|k: int| 0 <= k < 16 implies out[k] == want[k] by {
        let r = k / 4;
        let c = k % 4;
        assert(row_of(out, r)[c] == row_of(want, r)[c]);
    }
    assert(out =~= want);
}

proof fn lemma_columns_give_tiles(out: Seq<u8>, want: Seq<u8>)
    requires
        out.len() == 16,
        want.len() == 16,
        forall|c: int| 0 <= c < 4 ==> column_of(out, c) == column_of(want, c),
    ensures
        out == want,
{
    assert forall|k: int| 0 <= k < 16 implies out[k] == want[k] by {
        let r = k / 4;
        let c = k % 4;
        assert(column_of(out, c)[r] == column_of(want, c)[r]);
    }
    assert(out =~= want);
}

proof fn lemma_slide_len(tiles: Seq<u8>, mv: Move)
    ensures
        slide_row(tiles, mv).len() == tiles.len(),
        slide_column(tiles, mv).len() == tiles.len(),
{
}

/// A grid has sixteen tiles after a move, as before.
pub proof fn lemma_slide_grid_len(tiles: Seq<u8>, mv: Move)
    ensures
        slide_grid(tiles, mv).len() == 16,
{
    reveal(slide_grid);
}

/// A horizontal move makes of every row of the grid what it makes of that row alone.
pub proof fn lemma_rows_of_slide_grid(tiles: Seq<u8>, mv: Move, r: int)
    requires
        mv == Move::Left || mv == Move::Right,
        0 <= r < 4,
    ensures
        row_of(slide_grid(tiles, mv), r) == slide_row(row_of(tiles, r), mv),
{
    reveal(slide_grid);
    lemma_slide_len(row_of(tiles, r), mv);
    let moved = slide_grid(tiles, mv);
    let alone = slide_row(row_of(tiles, r), mv);
    if r == 0 {
        assert(moved[0] == alone[0] && moved[1] == alone[1] && moved[2] == alone[2] && moved[3]
            == alone[3]);
    } else if r == 1 {
        assert(moved[4] == alone[0] && moved[5] == alone[1] && moved[6] == alone[2] && moved[7]
            == alone[3]);
    } else if r == 2 {
        assert(moved[8] == alone[0] && moved[9] == alone[1] && moved[10] == alone[2] && moved[11]
            == alone[3]);
    } else {
        assert(moved[12] == alone[0] && moved[13] == alone[1] && moved[14] == alone[2]
            && moved[15] == alone[3]);
    }
    assert(row_of(moved, r) =~= alone);
}

/// A vertical move makes of every column of the grid what it makes of that column alone.
pub proof fn lemma_columns_of_slide_grid(tiles: Seq<u8>, mv: Move, c: int)
    requires
        mv == Move::Up || mv == Move::Down,
        0 <= c < 4,
    ensures
        column_of(slide_grid(tiles, mv), c) == slide_column(column_of(tiles, c), mv),
{
    reveal(slide_grid);
    lemma_slide_len(column_of(tiles, c), mv);
    let moved = slide_grid(tiles, mv);
    let alone = slide_column(column_of(tiles, c), mv);
    if c == 0 {
        assert(moved[0] == alone[0] && moved[4] == alone[1] && moved[8] == alone[2] && moved[12]
            == alone[3]);
    } else if c == 1 {
        assert(moved[1] == alone[0] && moved[5] == alone[1] && moved[9] == alone[2] && moved[13]
            == alone[3]);
    } else if c == 2 {
        assert(moved[2] == alone[0] && moved[6] == alone[1] && moved[10] == alone[2] && moved[14]
            == alone[3]);
    } else {
        assert(moved[3] == alone[0] && moved[7] == alone[1] && moved[11] == alone[2] && moved[15]
            == alone[3]);
    }
    assert(column_of(moved, c) =~= alone);
}

/// Joins the rows that a horizontal move has made of the rows of `grid`.
pub(crate) fn join_moved_rows(grid: Grid, moved: [Row; 4], mv: Move) -> (out: Grid)
    requires
        mv == Move::Left || mv == Move::Right,
        forall|r: int| 0 <= r < 4 ==> moved[r]@ == slide_row(row_of(grid@, r), mv),
    ensures
        out@ == slide_grid(grid@, mv),
{
    let out = Grid::from_rows(moved);
    proof {
        let want = slide_grid(grid@, mv);
        lemma_slide_grid_len(grid@, mv);
        assert forall|r: int| 0 <= r < 4 implies row_of(out@, r) == row_of(want, r) by {
            lemma_rows_of_slide_grid(grid@, mv, r);
        }
        lemma_rows_give_tiles(out@, want);
    }
    out
}

/// Joins the columns that a vertical move has made of the columns of `grid`.
pub(crate) fn join_moved_columns(grid: Grid, moved: [Column; 4], mv: Move) -> (out: Grid)
    requires
        mv == Move::Up || mv == Move::Down,
        forall|c: int| 0 <= c < 4 ==> moved[c].well_formed(),
        forall|c: int| 0 <= c < 4 ==> moved[c]@ == slide_column(column_of(grid@, c), mv),
    ensures
        out@ == slide_grid(grid@, mv),
{
    let out = Grid::from_columns(moved);
    proof {
        let want = slide_grid(grid@, mv);
        lemma_slide_grid_len(grid@, mv);
        assert forall|c: int| 0 <= c < 4 implies column_of(out@, c) == column_of(want, c) by {
            lemma_columns_of_slide_grid(grid@, mv, c);
        }
        lemma_columns_give_tiles(out@, want);
    }
    out
}

/// Adds to `found` the move `mv` and the grid `next` that it leads to, unless the move
/// changes nothing.
fn push_successor(grid: Grid, mv: Move, next: Grid, found: &mut Vec<(Move, Grid)>)
    requires
        next@ == slide_grid(grid@, mv),
    ensures
        final(found)@.map_values(|s: (Move, Grid)| (s.0, s.1@)) == old(found)@.map_values(
            |s: (Move, Grid)| (s.0, s.1@),
        ) + successor(grid@, mv),
{
    let ghost before = found@;
    if next != grid {
        proof {
            if next@ == grid@ {
                lemma_grids_equal_by_tiles(next.0, grid.0);
            }
        }
        found.push((mv, next));
    }
    assert(found@.map_values(|s: (Move, Grid)| (s.0, s.1@)) =~= before.map_values(
        |s: (Move, Grid)| (s.0, s.1@),
    ) + successor(grid@, mv));
}

/// Of the four grids that the moves lead to, given in canonical order, those that differ
/// from `grid`, each with its move.
pub(crate) fn changing_moves(grid: Grid, moved: [Grid; 4]) -> (out: Vec<(Move, Grid)>)
    requires
        moved[0]@ == slide_grid(grid@, Move::Left),
        moved[1]@ == slide_grid(grid@, Move::Right),
        moved[2]@ == slide_grid(grid@, Move::Up),
        moved[3]@ == slide_grid(grid@, Move::Down),
    ensures
        out@.map_values(|s: (Move, Grid)| (s.0, s.1@)) == successors(grid@),
        out.len() == 0 <==> no_move_changes(grid@),
        out.len() <= 4,
{
    let mut out: Vec<(Move, Grid)> = Vec::new();
    assert(out@.map_values(|s: (Move, Grid)| (s.0, s.1@)) =~= Seq::empty());
    push_successor(grid, Move::Left, moved[0], &mut out);
    push_successor(grid, Move::Right, moved[1], &mut out);
    push_successor(grid, Move::Up, moved[2], &mut out);
    push_successor(grid, Move::Down, moved[3], &mut out);
    proof {
        assert(out@.map_values(|s: (Move, Grid)| (s.0, s.1@)) =~= successors(grid@));
        assert(out@.map_values(|s: (Move, Grid)| (s.0, s.1@)).len() == out@.len());
        lemma_game_over_iff_stuck(grid@);
    }
    out
}

impl Grid {
    /// Slides every row to the left.
    fn move_left(self) -> (out: Grid)
        ensures
            out@ == slide_grid(self@, Move::Left),
    {
        let rows = self.rows();
        let row0 = move_row_left(rows[0]);
        let row1 = move_row_left(rows[1]);
        let row2 = move_row_left(rows[2]);
        let row3 = move_row_left(rows[3]);
        join_moved_rows(self, [row0, row1, row2, row3], Move::Left)
    }

    /// Slides every row to the right.
    fn move_right(self) -> (out: Grid)
        ensures
            out@ == slide_grid(self@, Move::Right),
    {
        let rows = self.rows();
        let row0 = move_row_right(rows[0]);
        let row1 = move_row_right(rows[1]);
        let row2 = move_row_right(rows[2]);
        let row3 = move_row_right(rows[3]);
        join_moved_rows(self, [row0, row1, row2, row3], Move::Right)
    }

    /// Slides every column to the top.
    fn move_up(self) -> (out: Grid)
        ensures
            out@ == slide_grid(self@, Move::Up),
    {
        let rows = self.transpose().rows();
        let col0 = move_row_up(rows[0]);
        let col1 = move_row_up(rows[1]);
        let col2 = move_row_up(rows[2]);
        let col3 = move_row_up(rows[3]);
        join_moved_columns(self, [col0, col1, col2, col3], Move::Up)
    }

    /// Slides every column to the bottom.
    fn move_down(self) -> (out: Grid)
        ensures
            out@ == slide_grid(self@, Move::Down),
    {
        let rows = self.transpose().rows();
        let col0 = move_row_down(rows[0]);
        let col1 = move_row_down(rows[1]);
        let col2 = move_row_down(rows[2]);
        let col3 = move_row_down(rows[3]);
        join_moved_columns(self, [col0, col1, col2, col3], Move::Down)
    }

    /// The grid that the move `mv` leads to. Two tiles of 32768 that meet merge into one of
    /// 32768. A move that changes no tile returns the grid it was given.
    pub fn make_move(self, mv: Move) -> (out: Grid)
        ensures
            out@ == slide_grid(self@, mv),
            out == self <==> slide_grid(self@, mv) == self@,
    {
        let out = match mv {
            Move::Left => self.move_left(),
            Move::Right => self.move_right(),
            Move::Up => self.move_up(),
            Move::Down => self.move_down(),
        };
        proof {
            if out@ == self@ {
                lemma_grids_equal_by_tiles(out.0, self.0);
            }
        }
        out
    }

    /// The moves that change the grid, each with the grid it leads to, in canonical order.
    /// There is none exactly when the game is over.
    pub fn player_moves(self) -> (out: Vec<(Move, Grid)>)
        ensures
            out@.map_values(|s: (Move, Grid)| (s.0, s.1@)) == successors(self@),
            out.len() == 0 <==> no_move_changes(self@),
            out.len() <= 4,
    {
        changing_moves(
            self,
            [
                self.make_move(Move::Left),
                self.make_move(Move::Right),
                self.make_move(Move::Up),
                self.make_move(Move::Down),
            ],
        )
    }

    /// True when the game is lost: no move changes the grid.
    pub fn game_over(self) -> (over: bool)
        ensures
            over <==> no_move_changes(self@),
    {
        let over = self.make_move(Move::Left) == self && self.make_move(Move::Right) == self
            && self.make_move(Move::Up) == self && self.make_move(Move::Down) == self;
        proof {
            lemma_game_over_iff_stuck(self@);
        }
        over
    }
}

/// A move that leaves the grid as it is leaves it so however often it is made.
pub proof fn lemma_unchanged_move_is_idempotent(tiles: Seq<u8>, mv: Move)
    requires
        slide_grid(tiles, mv) == tiles,
    ensures
        slide_grid(slide_grid(tiles, mv), mv) == tiles,
{
}

/// The game is over exactly when each of the four moves leaves the grid as it is.
pub proof fn lemma_game_over_iff_stuck(tiles: Seq<u8>)
    ensures
        no_move_changes(tiles) <==> (slide_grid(tiles, Move::Left) == tiles && slide_grid(
            tiles,
            Move::Right,
        ) == tiles && slide_grid(tiles, Move::Up) == tiles && slide_grid(tiles, Move::Down)
            == tiles),
{
    if slide_grid(tiles, Move::Left) == tiles && slide_grid(tiles, Move::Right) == tiles
        && slide_grid(tiles, Move::Up) == tiles && slide_grid(tiles, Move::Down) == tiles {
        assert forall|mv: Move| slide_grid(tiles, mv) == tiles by {
            match mv {
                Move::Left => {},
                Move::Right => {},
                Move::Up => {},
                Move::Down => {},
            }
        }
    }
}

} // verus!
