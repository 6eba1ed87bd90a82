//! Lookup tables that turn the move of one row into one read.
//!
//! A packed row is a number below 65,536, so what each move makes of each row fits four
//! tables of that length. The tables are filled once from the slide rule and never change.
use vstd::prelude::*;
use crate::column::{move_row_down, move_row_up, Column};
use crate::grid::{Grid, Move};
use crate::moves::{
    changing_moves, join_moved_columns, join_moved_rows, no_move_changes, slide_grid, successors,
};
use crate::row::{row_tiles, Row};
use crate::slide::{move_row_left, move_row_right, slide_left, slide_right};

verus! {

/// The number of packed rows, and so the length of each table.
pub const TABLE_SIZE: usize = 65536;

/// The four move tables.
pub struct GameEngine {
    left: Vec<Row>,
    right: Vec<Row>,
    up: Vec<Column>,
    down: Vec<Column>,
}

impl GameEngine {
    /// True of tables that hold, for each packed row of the first `filled`, what the slide
    /// rule makes of it.
    spec fn agrees_below(self, filled: int) -> bool {
        &&& self.left.len() == filled
        &&& self.right.len() == filled
        &&& self.up.len() == filled
        &&& self.down.len() == filled
        &&& forall|i: int|
            0 <= i < filled ==> (#[trigger] self.left[i])@ == slide_left(row_tiles(i as u16))
        &&& forall|i: int|
            0 <= i < filled ==> (#[trigger] self.right[i])@ == slide_right(row_tiles(i as u16))
        &&& forall|i: int|
            0 <= i < filled ==> (#[trigger] self.up[i])@ == slide_left(row_tiles(i as u16))
                && self.up[i].well_formed()
        &&& forall|i: int|
            0 <= i < filled ==> (#[trigger] self.down[i])@ == slide_right(row_tiles(i as u16))
                && self.down[i].well_formed()
    }

    /// The tables hold what the slide rule makes of every packed row.
    #[verifier::type_invariant]
    spec fn complete(self) -> bool {
        self.agrees_below(TABLE_SIZE as int)
    }

    /// The table of slides to the left: the entry at the number of a packed row is what the
    /// slide makes of that row.
    pub closed spec fn left_table(self) -> Seq<Row> {
        self.left@
    }

    /// The table of slides to the right.
    pub closed spec fn right_table(self) -> Seq<Row> {
        self.right@
    }

    /// The table of upward moves: the entry at the number of a packed row is the column that
    /// the move makes of the column with the tiles of that row.
    pub closed spec fn up_table(self) -> Seq<Column> {
        self.up@
    }

    /// The table of downward moves.
    pub closed spec fn down_table(self) -> Seq<Column> {
        self.down@
    }

    /// True when each table has an entry for every packed row, and each entry is what the
    /// slide rule makes of its row: the row itself for a move to the left or to the right,
    /// the well-formed column of the same tiles for a move up or down.
    pub open spec fn holds_slide_rule(self) -> bool {
        &&& self.left_table().len() == TABLE_SIZE
        &&& self.right_table().len() == TABLE_SIZE
        &&& self.up_table().len() == TABLE_SIZE
        &&& self.down_table().len() == TABLE_SIZE
        &&& forall|row: u16| (#[trigger] self.left_table()[row as int])@ == slide_left(row_tiles(row))
        &&& forall|row: u16|
            (#[trigger] self.right_table()[row as int])@ == slide_right(row_tiles(row))
        &&& forall|row: u16|
            (#[trigger] self.up_table()[row as int])@ == slide_left(row_tiles(row))
                && self.up_table()[row as int].well_formed()
        &&& forall|row: u16|
            (#[trigger] self.down_table()[row as int])@ == slide_right(row_tiles(row))
                && self.down_table()[row as int].well_formed()
    }

    /// Fills the four tables from the slide rule, one entry for every packed row.
    pub fn new() -> (engine: GameEngine)
        ensures
            engine.holds_slide_rule(),
    {
        let mut left: Vec<Row> = Vec::new();
        let mut right: Vec<Row> = Vec::new();
        let mut up: Vec<Column> = Vec::new();
        let mut down: Vec<Column> = Vec::new();
        let mut index: usize = 0;
        while index < TABLE_SIZE
            invariant
                0 <= index <= TABLE_SIZE,
                (GameEngine { left, right, up, down }).agrees_below(index as int),
            decreases TABLE_SIZE - index,
        {
            let row = Row::from_index(index);
            left.push(move_row_left(row));
            right.push(move_row_right(row));
            up.push(move_row_up(row));
            down.push(move_row_down(row));
            index += 1;
        }
        let engine = GameEngine { left, right, up, down };
        proof {
            assert(engine.agrees_below(TABLE_SIZE as int));
            assert forall|row: u16| (#[trigger] engine.left_table()[row as int])@ == slide_left(
                row_tiles(row),
            ) by {
                assert(engine.left[row as int]@ == slide_left(row_tiles(row as int as u16)));
            }
            assert forall|row: u16| (#[trigger] engine.right_table()[row as int])@ == slide_right(
                row_tiles(row),
            ) by {
                assert(engine.right[row as int]@ == slide_right(row_tiles(row as int as u16)));
            }
            assert forall|row: u16|
                (#[trigger] engine.up_table()[row as int])@ == slide_left(row_tiles(row))
                    && engine.up_table()[row as int].well_formed() by {
                assert(engine.up[row as int]@ == slide_left(row_tiles(row as int as u16)));
            }
            assert forall|row: u16|
                (#[trigger] engine.down_table()[row as int])@ == slide_right(row_tiles(row))
                    && engine.down_table()[row as int].well_formed() by {
                assert(engine.down[row as int]@ == slide_right(row_tiles(row as int as u16)));
            }
        }
        engine
    }

    /// What a slide to the left makes of `row`, read from the table.
    pub fn lookup_left(&self, row: Row) -> (out: Row)
        ensures
            out == self.left_table()[row.0 as int],
            out@ == slide_left(row@),
    {
        proof {
            use_type_invariant(self);
        }
        self.left[row.0 as usize]
    }

    /// What a slide to the right makes of `row`, read from the table.
    pub fn lookup_right(&self, row: Row) -> (out: Row)
        ensures
            out == self.right_table()[row.0 as int],
            out@ == slide_right(row@),
    {
        proof {
            use_type_invariant(self);
        }
        self.right[row.0 as usize]
    }

    /// What an upward move makes of a column, given as the row `row`, read from the table.
    pub fn lookup_up(&self, row: Row) -> (out: Column)
        ensures
            out == self.up_table()[row.0 as int],
            out@ == slide_left(row@),
            out.well_formed(),
    {
        proof {
            use_type_invariant(self);
        }
        self.up[row.0 as usize]
    }

    /// What a downward move makes of a column, given as the row `row`, read from the table.
    pub fn lookup_down(&self, row: Row) -> (out: Column)
        ensures
            out == self.down_table()[row.0 as int],
            out@ == slide_right(row@),
            out.well_formed(),
    {
        proof {
            use_type_invariant(self);
        }
        self.down[row.0 as usize]
    }

    /// The grid that the move `mv` leads to, by four reads of a table. The result is that of
    /// `Grid::make_move`.
    pub fn make_move(&self, grid: Grid, mv: Move) -> (out: Grid)
        ensures
            out@ == slide_grid(grid@, mv),
            out == grid <==> slide_grid(grid@, mv) == grid@,
    {
        let out = match mv {
            Move::Left => {
                let rows = grid.rows();
                let moved = [
                    self.lookup_left(rows[0]),
                    self.lookup_left(rows[1]),
                    self.lookup_left(rows[2]),
                    self.lookup_left(rows[3]),
                ];
                join_moved_rows(grid, moved, mv)
            },
            Move::Right => {
                let rows = grid.rows();
                let moved = [
                    self.lookup_right(rows[0]),
                    self.lookup_right(rows[1]),
                    self.lookup_right(rows[2]),
                    self.lookup_right(rows[3]),
                ];
                join_moved_rows(grid, moved, mv)
            },
            Move::Up => {
                let rows = grid.transpose().rows();
                let moved = [
                    self.lookup_up(rows[0]),
                    self.lookup_up(rows[1]),
                    self.lookup_up(rows[2]),
                    self.lookup_up(rows[3]),
                ];
                join_moved_columns(grid, moved, mv)
            },
            Move::Down => {
                let rows = grid.transpose().rows();
                let moved = [
                    self.lookup_down(rows[0]),
                    self.lookup_down(rows[1]),
                    self.lookup_down(rows[2]),
                    self.lookup_down(rows[3]),
                ];
                join_moved_columns(grid, moved, mv)
            },
        };
        proof {
            if out@ == grid@ {
                crate::grid::lemma_grids_equal_by_tiles(out.0, grid.0);
            }
        }
        out
    }

    /// The moves that change the grid, each with the grid it leads to, in canonical order.
    /// There is none exactly when the game is over.
    pub fn player_moves(&self, grid: Grid) -> (out: Vec<(Move, Grid)>)
        ensures
            out@.map_values(|s: (Move, Grid)| (s.0, s.1@)) == successors(grid@),
            out.len() == 0 <==> no_move_changes(grid@),
            out.len() <= 4,
    {
        changing_moves(
            grid,
            [
                self.make_move(grid, Move::Left),
                self.make_move(grid, Move::Right),
                self.make_move(grid, Move::Up),
                self.make_move(grid, Move::Down),
            ],
        )
    }

    /// True when the game is lost: no move changes the grid.
    pub fn game_over(&self, grid: Grid) -> (over: bool)
        ensures
            over <==> no_move_changes(grid@),
    {
        let over = self.make_move(grid, Move::Left) == grid && self.make_move(grid, Move::Right)
            == grid && self.make_move(grid, Move::Up) == grid && self.make_move(grid, Move::Down)
            == grid;
        proof {
            crate::moves::lemma_game_over_iff_stuck(grid@);
        }
        over
    }
}

} // verus!
