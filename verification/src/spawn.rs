//! The tiles that the game adds after a player's move.
//!
//! A new tile appears on an empty cell and is a 2 (rank 1) nine times out of ten, a 4
//! (rank 2) otherwise.
use vstd::prelude::*;
use crate::grid::{empty_cells, grid_tile, grid_tiles, lemma_empty_cells_step, Grid};
use crate::random::{random_below, random_ratio};
use crate::row::MAX_RANK;

verus! {

/// The rank of a new 2.
pub const RANK_OF_2: u8 = 1;

/// The rank of a new 4.
pub const RANK_OF_4: u8 = 2;

/// The tile sequences that come of putting `value` on one empty cell among the first `upto`
/// cells of `tiles`, in the order of the cells.
pub open spec fn spawns_before(tiles: Seq<u8>, value: u8, upto: int) -> Seq<Seq<u8>>
    decreases upto,
{
    if upto <= 0 {
        Seq::empty()
    } else {
        let before = spawns_before(tiles, value, upto - 1);
        if tiles[upto - 1] == 0 {
            before.push(tiles.update(upto - 1, value))
        } else {
            before
        }
    }
}

/// The tile sequences that come of putting `value` on one empty cell of `tiles`, in the order
/// of the cells: top row first, and left to right in a row.
pub open spec fn spawns(tiles: Seq<u8>, value: u8) -> Seq<Seq<u8>> {
    spawns_before(tiles, value, tiles.len() as int)
}

/// True when `after` is `before` with a new 2 or a new 4 on one cell that was empty, and
/// every other tile as it was.
pub open spec fn adds_one_tile(before: Seq<u8>, after: Seq<u8>) -> bool {
    exists|k: int, value: u8|
        0 <= k < before.len() && before[k] == 0 && (value == RANK_OF_2 || value == RANK_OF_4)
            && after == #[trigger] before.update(k, value)
}

/// There is one spawn for each empty cell.
pub proof fn lemma_spawns_len(tiles: Seq<u8>, value: u8, upto: int)
    requires
        0 <= upto <= tiles.len(),
    ensures
        spawns_before(tiles, value, upto).len() == empty_cells(tiles.take(upto)),
    decreases upto,
{
    if upto > 0 {
        lemma_spawns_len(tiles, value, upto - 1);
        lemma_empty_cells_step(tiles, upto - 1);
    }
}

/// Looking at more cells adds spawns at the end and changes none.
pub proof fn lemma_spawns_grow(tiles: Seq<u8>, value: u8, fewer: int, more: int)
    requires
        0 <= fewer <= more,
    ensures
        spawns_before(tiles, value, fewer).len() <= spawns_before(tiles, value, more).len(),
        forall|i: int|
            0 <= i < spawns_before(tiles, value, fewer).len() ==> spawns_before(
                tiles,
                value,
                more,
            )[i] == #[trigger] spawns_before(tiles, value, fewer)[i],
    decreases more - fewer,
{
    if fewer < more {
        lemma_spawns_grow(tiles, value, fewer, more - 1);
    }
}

/// Each spawn differs from the tiles it came from in one cell, which was empty and now holds
/// the new tile.
pub proof fn lemma_spawn_fills_one_empty_cell(tiles: Seq<u8>, value: u8, upto: int, i: int)
    requires
        0 <= upto <= tiles.len(),
        0 <= i < spawns_before(tiles, value, upto).len(),
    ensures
        exists|k: int|
            0 <= k < upto && tiles[k] == 0 && spawns_before(tiles, value, upto)[i]
                == #[trigger] tiles.update(k, value),
    decreases upto,
{
    if upto > 0 {
        let before = spawns_before(tiles, value, upto - 1);
        if i < before.len() {
            lemma_spawn_fills_one_empty_cell(tiles, value, upto - 1, i);
            let k = choose|k: int|
                0 <= k < upto - 1 && tiles[k] == 0 && before[i] == #[trigger] tiles.update(
                    k,
                    value,
                );
            assert(0 <= k < upto && tiles[k] == 0 && spawns_before(tiles, value, upto)[i]
                == tiles.update(k, value));
        } else {
            let k = upto - 1;
            assert(0 <= k < upto && tiles[k] == 0 && spawns_before(tiles, value, upto)[i]
                == tiles.update(k, value));
        }
    }
}

proof fn lemma_place_bits(bits: u64, s: u64, t: u64, v: u64)
    by (bit_vector)
    requires
        s <= 60,
        s % 4 == 0,
        t <= 60,
        t % 4 == 0,
        v <= 15,
        bits & (0xFu64 << s) == 0,
    ensures
        ((bits | (v << s)) >> t) & 0xF == (if t == s {
            v
        } else {
            (bits >> t) & 0xF
        }),
{
}

proof fn lemma_cell_bits(bits: u64, s: u64)
    by (bit_vector)
    requires
        s <= 60,
    ensures
        (bits & (0xFu64 << s) == 0) <==> ((bits >> s) & 0xF == 0),
        (bits >> s) & 0xF < 16,
{
}

/// Writing a rank into the four bits of an empty cell changes that tile and no other.
pub proof fn lemma_place_tile(bits: u64, k: int, value: u8)
    requires
        0 <= k < 16,
        value <= MAX_RANK,
        grid_tile(bits, k) == 0,
    ensures
        grid_tiles(bits | ((value as u64) << ((60 - 4 * k) as u64))) == grid_tiles(bits).update(
            k,
            value,
        ),
{
    let s = (60 - 4 * k) as u64;
    let placed = bits | ((value as u64) << s);
    lemma_cell_bits(bits, s);
    assert forall|j: int| 0 <= j < 16 implies grid_tile(placed, j) == grid_tiles(bits).update(
        k,
        value,
    )[j] by {
        let t = (60 - 4 * j) as u64;
        lemma_place_bits(bits, s, t, value as u64);
        lemma_cell_bits(bits, t);
    }
    assert(grid_tiles(placed) =~= grid_tiles(bits).update(k, value));
}

impl Grid {
    /// True when the cell at position `k` is empty.
    fn is_empty_at(self, k: u64) -> (empty: bool)
        requires
            k < 16,
        ensures
            empty <==> self@[k as int] == 0,
    {
        let shift: u64 = 60 - 4 * k;
        proof {
            lemma_cell_bits(self.0, shift);
        }
        self.0 & (0xFu64 << shift) == 0
    }

    /// The grid with the rank `value` written into the empty cell at position `k`.
    fn with_tile(self, k: u64, value: u8) -> (out: Grid)
        requires
            k < 16,
            value <= MAX_RANK,
            self@[k as int] == 0,
        ensures
            out@ == self@.update(k as int, value),
    {
        let shift: u64 = 60 - 4 * k;
        proof {
            lemma_place_tile(self.0, k as int, value);
        }
        Grid(self.0 | ((value as u64) << shift))
    }

    /// Every grid that comes of putting a tile of rank `value` on one empty cell, in the order
    /// of the cells.
    fn random_moves(self, value: u8) -> (out: Vec<Grid>)
        requires
            value <= MAX_RANK,
        ensures
            out@.map_values(|g: Grid| g@) == spawns(self@, value),
            out.len() == empty_cells(self@),
    {
        let mut out: Vec<Grid> = Vec::new();
        let mut k: u64 = 0;
        while k < 16
            invariant
                0 <= k <= 16,
                value <= MAX_RANK,
                out@.map_values(|g: Grid| g@) == spawns_before(self@, value, k as int),
            decreases 16 - k,
        {
            if self.is_empty_at(k) {
                let next = self.with_tile(k, value);
                let ghost before = out@;
                out.push(next);
                assert(out@.map_values(|g: Grid| g@) =~= before.map_values(|g: Grid| g@).push(
                    next@,
                ));
            }
            k += 1;
        }
        proof {
            lemma_spawns_len(self@, value, 16);
            assert(self@.take(16) =~= self@);
            assert(out@.map_values(|g: Grid| g@).len() == out@.len());
        }
        out
    }

    /// Every grid that the game can reach from this one by adding a 2, one for each empty
    /// cell, in the order of the cells.
    pub fn random_moves_with2(self) -> (out: Vec<Grid>)
        ensures
            out@.map_values(|g: Grid| g@) == spawns(self@, RANK_OF_2),
            out.len() == empty_cells(self@),
    {
        self.random_moves(RANK_OF_2)
    }

    /// Every grid that the game can reach from this one by adding a 4, one for each empty
    /// cell, in the order of the cells.
    pub fn random_moves_with4(self) -> (out: Vec<Grid>)
        ensures
            out@.map_values(|g: Grid| g@) == spawns(self@, RANK_OF_4),
            out.len() == empty_cells(self@),
    {
        self.random_moves(RANK_OF_4)
    }

    /// The grid with a tile of rank `value` on the empty cell number `position`, counting the
    /// empty cells from 0 in the order of the cells.
    pub fn place_tile(self, position: usize, value: u8) -> (out: Grid)
        requires
            position < empty_cells(self@),
            value <= MAX_RANK,
        ensures
            out@ == spawns(self@, value)[position as int],
    {
        let mut seen: usize = 0;
        let mut k: u64 = 0;
        proof {
            lemma_spawns_len(self@, value, 16);
            assert(self@.take(16) =~= self@);
        }
        while k < 16
            invariant
                0 <= k <= 16,
                value <= MAX_RANK,
                seen <= position,
                position < spawns(self@, value).len(),
                seen == spawns_before(self@, value, k as int).len(),
            decreases 16 - k,
        {
            if self.is_empty_at(k) {
                if seen == position {
                    proof {
                        let found = spawns_before(self@, value, k as int + 1);
                        assert(found[position as int] == self@.update(k as int, value));
                        lemma_spawns_grow(self@, value, k as int + 1, 16);
                    }
                    return self.with_tile(k, value);
                }
                seen += 1;
            }
            k += 1;
        }
        proof {
            assert(false);
        }
        self
    }

    /// The grid with one new tile on an empty cell that is picked at random: a 2 nine times
    /// out of ten, a 4 otherwise. All other tiles stay as they are. The grid must have an
    /// empty cell.
    pub fn add_random_tile(self) -> (out: Grid)
        requires
            empty_cells(self@) > 0,
        ensures
            adds_one_tile(self@, out@),
    {
        let empty = self.count_empty();
        let position = random_below(empty);
        let value = if random_ratio(9, 10) {
            RANK_OF_2
        } else {
            RANK_OF_4
        };
        let out = self.place_tile(position, value);
        proof {
            lemma_spawns_len(self@, value, 16);
            assert(self@.take(16) =~= self@);
            lemma_spawn_fills_one_empty_cell(self@, value, 16, position as int);
            let k = choose|k: int|
                0 <= k < 16 && self@[k] == 0 && spawns_before(self@, value, 16)[position as int]
                    == #[trigger] self@.update(k, value);
            assert(0 <= k < 16 && self@[k] == 0 && (value == RANK_OF_2 || value == RANK_OF_4)
                && out@ == self@.update(k, value));
        }
        out
    }
}

} // verus!
