//! A judgement of a board by where its high tiles stand.
//!
//! A heat map gives every cell a weight, highest in one corner. A board scores the sum, over
//! its cells, of the weight of the cell times four to the power of the rank of its tile. The
//! board is judged by the best of the eight maps that turning and mirroring make of one map,
//! less a penalty when few cells are empty or ready to merge.
use vstd::prelude::*;
use crate::board::{cells, Board};
use crate::grid::{column_of, empty_cells, row_of};
use crate::heuristic::{adjacent_pairs, adjacent_tiles};
use crate::row::MAX_RANK;

verus! {

/// The heat map that the other seven are made of: the bottom-right corner is the hottest.
pub const HEAT_MAP: [[i64; 4]; 4] = [[0, 0, 1, 3], [0, 1, 2, 4], [2, 3, 4, 6], [5, 8, 16, 128]];

/// The highest weight of a heat map.
pub const HOTTEST: i64 = 128;

/// The number of cells, empty or ready to merge, from which on there is no penalty.
pub const EMPTY_CELLS_WITHOUT_PENALTY: i64 = 6;

/// Four to the power of `rank`.
pub open spec fn four_to(rank: nat) -> int
    decreases rank,
{
    if rank == 0 {
        1
    } else {
        4 * four_to((rank - 1) as nat)
    }
}

/// Two to the power of `n`.
pub open spec fn two_to(n: nat) -> int
    decreases n,
{
    if n == 0 {
        1
    } else {
        2 * two_to((n - 1) as nat)
    }
}

/// True when every weight of `map` lies between 0 and `HOTTEST`.
pub open spec fn is_heat_map(map: [[i64; 4]; 4]) -> bool {
    forall|x: int, y: int| 0 <= x < 4 && 0 <= y < 4 ==> 0 <= #[trigger] map[x][y] <= HOTTEST
}

/// True when `to` is `from` after a quarter turn clockwise.
pub open spec fn is_quarter_turn(from: [[i64; 4]; 4], to: [[i64; 4]; 4]) -> bool {
    forall|x: int, y: int| 0 <= x < 4 && 0 <= y < 4 ==> to[y][3 - x] == #[trigger] from[x][y]
}

/// True when `to` is `from` mirrored at the diagonal from the top-left corner.
pub open spec fn is_mirror(from: [[i64; 4]; 4], to: [[i64; 4]; 4]) -> bool {
    forall|x: int, y: int| 0 <= x < 4 && 0 <= y < 4 ==> to[y][x] == #[trigger] from[x][y]
}

/// The score of the first `upto` cells of `tiles` on the heat map `map`.
pub open spec fn heat_before(tiles: Seq<u8>, map: [[i64; 4]; 4], upto: int) -> int
    decreases upto,
{
    if upto <= 0 {
        0
    } else {
        heat_before(tiles, map, upto - 1) + four_to(tiles[upto - 1] as nat) * map[(upto - 1)
            / 4][(upto - 1) % 4]
    }
}

/// The score of sixteen tiles on the heat map `map`.
pub open spec fn heat(tiles: Seq<u8>, map: [[i64; 4]; 4]) -> int {
    heat_before(tiles, map, 16)
}

/// The number of pairs of equal neighbours that could merge in the first `rows` rows of
/// `tiles`.
pub open spec fn pairs_in_rows(tiles: Seq<u8>, rows: int) -> nat
    decreases rows,
{
    if rows <= 0 {
        0
    } else {
        pairs_in_rows(tiles, rows - 1) + adjacent_pairs(row_of(tiles, rows - 1))
    }
}

/// The number of pairs of equal neighbours that could merge in the first `columns` columns
/// of `tiles`.
pub open spec fn pairs_in_columns(tiles: Seq<u8>, columns: int) -> nat
    decreases columns,
{
    if columns <= 0 {
        0
    } else {
        pairs_in_columns(tiles, columns - 1) + adjacent_pairs(column_of(tiles, columns - 1))
    }
}

/// The number of cells of `tiles` that are empty or could be emptied by a merge.
pub open spec fn room(tiles: Seq<u8>) -> int {
    (pairs_in_columns(tiles, 4) + pairs_in_rows(tiles, 4) + empty_cells(tiles)) as int
}

/// What a board with `room` cells to spare loses of its score.
pub open spec fn penalty(room: int) -> int {
    if 0 <= room < EMPTY_CELLS_WITHOUT_PENALTY {
        two_to((EMPTY_CELLS_WITHOUT_PENALTY - room) as nat)
    } else {
        0
    }
}

proof fn lemma_four_to_bound(rank: nat)
    requires
        rank <= 15,
    ensures
        1 <= four_to(rank) <= 1073741824,
    decreases 15 - rank,
{
    if rank == 15 {
        assert(four_to(15) == 1073741824) by {
            reveal_with_fuel(four_to, 16);
        }
    } else {
        lemma_four_to_bound(rank + 1);
        assert(four_to(rank + 1) == 4 * four_to(rank));
        lemma_four_to_positive(rank);
    }
}

proof fn lemma_four_to_positive(rank: nat)
    ensures
        1 <= four_to(rank),
    decreases rank,
{
    if rank > 0 {
        lemma_four_to_positive((rank - 1) as nat);
    }
}

/// Four to the power of a rank.
fn weight(rank: u8) -> (w: i64)
    requires
        rank <= MAX_RANK,
    ensures
        w == four_to(rank as nat),
        1 <= w <= 1073741824,
{
    let mut w: i64 = 1;
    let mut i: u8 = 0;
    proof {
        lemma_four_to_bound(0);
    }
    while i < rank
        invariant
            0 <= i <= rank <= MAX_RANK,
            w == four_to(i as nat),
            1 <= w <= 1073741824,
        decreases rank - i,
    {
        proof {
            lemma_four_to_bound(i as nat + 1);
        }
        w = w * 4;
        i += 1;
    }
    w
}

/// The score of a board on one heat map.
pub fn evaluate_board(board: &Board, heat_map: &[[i64; 4]; 4]) -> (score: i64)
    requires
        is_heat_map(*heat_map),
    ensures
        score == heat(board@, *heat_map),
        0 <= score <= 16 * 137438953472,
{
    let grid = board.get_grid();
    let mut score: i64 = 0;
    let mut k: usize = 0;
    while k < 16
        invariant
            0 <= k <= 16,
            is_heat_map(*heat_map),
            cells(*grid) == board@,
            forall|r: int, c: int| 0 <= r < 4 && 0 <= c < 4 ==> #[trigger] grid[r][c] <= MAX_RANK,
            score == heat_before(board@, *heat_map, k as int),
            0 <= score <= k * 137438953472,
        decreases 16 - k,
    {
        let rank = grid[k / 4][k % 4];
        let w = weight(rank);
        let h = heat_map[k / 4][k % 4];
        assert(board@[k as int] == rank);
        assert(0 <= w * h <= 137438953472) by (nonlinear_arith)
            requires
                1 <= w <= 1073741824,
                0 <= h <= 128,
        ;
        score = score + w * h;
        k += 1;
    }
    score
}

/// The number of cells of a board that are empty or could be emptied by a merge.
pub fn evaluate_empty_cells(board: &Board) -> (count: i64)
    ensures
        count == room(board@),
        0 <= count <= 32,
{
    let turned = board.transpose();
    let columns = turned.get_grid();
    let rows = board.get_grid();
    let mut pairs: i64 = 0;
    let mut y: usize = 0;
    while y < 4
        invariant
            0 <= y <= 4,
            forall|c: int| 0 <= c < 4 ==> #[trigger] row_of(turned@, c) == column_of(board@, c),
            cells(*columns) == turned@,
            pairs == pairs_in_columns(board@, y as int),
            0 <= pairs <= 2 * y,
        decreases 4 - y,
    {
        assert(columns[y as int]@ =~= row_of(cells(*columns), y as int));
        assert(row_of(turned@, y as int) == column_of(board@, y as int));
        pairs += adjacent_tiles(&columns[y]) as i64;
        y += 1;
    }
    let mut x: usize = 0;
    while x < 4
        invariant
            0 <= x <= 4,
            cells(*rows) == board@,
            pairs == pairs_in_columns(board@, 4) + pairs_in_rows(board@, x as int),
            0 <= pairs <= 8 + 2 * x,
        decreases 4 - x,
    {
        assert(rows[x as int]@ =~= row_of(cells(*rows), x as int));
        pairs += adjacent_tiles(&rows[x]) as i64;
        x += 1;
    }
    pairs + board.count_empty() as i64
}

/// A quarter turn clockwise of a heat map.
pub fn rotate_cw(heat_map: &[[i64; 4]; 4]) -> (turned: [[i64; 4]; 4])
    ensures
        is_quarter_turn(*heat_map, turned),
        is_heat_map(*heat_map) ==> is_heat_map(turned),
{
    let m = heat_map;
    let turned = [
        [m[3][0], m[2][0], m[1][0], m[0][0]],
        [m[3][1], m[2][1], m[1][1], m[0][1]],
        [m[3][2], m[2][2], m[1][2], m[0][2]],
        [m[3][3], m[2][3], m[1][3], m[0][3]],
    ];
    proof {
        if is_heat_map(*heat_map) {
            assert forall|x: int, y: int| 0 <= x < 4 && 0 <= y < 4 implies 0
                <= #[trigger] turned[x][y] <= HOTTEST by {
                assert(turned[x][y] == heat_map[3 - y][x]);
            }
        }
    }
    turned
}

/// A heat map mirrored at the diagonal from the top-left corner.
pub fn mirror(heat_map: &[[i64; 4]; 4]) -> (mirrored: [[i64; 4]; 4])
    ensures
        is_mirror(*heat_map, mirrored),
        is_heat_map(*heat_map) ==> is_heat_map(mirrored),
{
    let m = heat_map;
    let mirrored = [
        [m[0][0], m[1][0], m[2][0], m[3][0]],
        [m[0][1], m[1][1], m[2][1], m[3][1]],
        [m[0][2], m[1][2], m[2][2], m[3][2]],
        [m[0][3], m[1][3], m[2][3], m[3][3]],
    ];
    proof {
        if is_heat_map(*heat_map) {
            assert forall|x: int, y: int| 0 <= x < 4 && 0 <= y < 4 implies 0
                <= #[trigger] mirrored[x][y] <= HOTTEST by {
                assert(mirrored[x][y] == heat_map[y][x]);
            }
        }
    }
    mirrored
}

/// The eight heat maps that a board is judged by.
#[derive(Clone, Copy, Debug)]
pub struct HeatMapHeuristic {
    heat_maps: [[[i64; 4]; 4]; 8],
}

impl HeatMapHeuristic {
    /// Every one of the eight maps holds weights between 0 and `HOTTEST`.
    #[verifier::type_invariant]
    spec fn all_heat_maps(self) -> bool {
        forall|i: int| 0 <= i < 8 ==> is_heat_map(#[trigger] self.heat_maps[i])
    }

    /// The eight heat maps.
    pub closed spec fn maps(self) -> [[[i64; 4]; 4]; 8] {
        self.heat_maps
    }

    /// The heuristic of `HEAT_MAP`, its three turns, and the mirror images of the four.
    pub fn new() -> (heuristic: HeatMapHeuristic)
        ensures
            heuristic.maps()[0] == HEAT_MAP,
            forall|i: int|
                1 <= i < 4 ==> is_quarter_turn(
                    heuristic.maps()[i - 1],
                    #[trigger] heuristic.maps()[i],
                ),
            forall|i: int| 0 <= i < 4 ==> is_mirror(#[trigger] heuristic.maps()[i], heuristic.maps()[i + 4]),
    {
        let first = HEAT_MAP;
        assert(is_heat_map(first));
        let second = rotate_cw(&first);
        let third = rotate_cw(&second);
        let fourth = rotate_cw(&third);
        let heat_maps = [
            first,
            second,
            third,
            fourth,
            mirror(&first),
            mirror(&second),
            mirror(&third),
            mirror(&fourth),
        ];
        HeatMapHeuristic { heat_maps }
    }

    /// The eight heat maps.
    pub fn heat_maps(&self) -> (maps: &[[[i64; 4]; 4]; 8])
        ensures
            *maps == self.maps(),
            forall|i: int| 0 <= i < 8 ==> is_heat_map(#[trigger] maps[i]),
    {
        proof {
            use_type_invariant(self);
        }
        &self.heat_maps
    }

    /// The judgement of a board: its score on the heat map that suits it best, less the
    /// penalty for a board with little room. `None` for a board on which the game is over.
    pub fn eval(&self, board: &Board) -> (score: Option<i64>)
        ensures
            score.is_none() <==> crate::moves::no_move_changes(board@),
            score matches Some(s) ==> {
                &&& forall|i: int|
                    0 <= i < 8 ==> heat(board@, #[trigger] self.maps()[i]) - penalty(room(board@))
                        <= s
                &&& exists|i: int|
                    0 <= i < 8 && s == heat(board@, #[trigger] self.maps()[i]) - penalty(
                        room(board@),
                    )
            },
    {
        if board.is_terminal() {
            return None;
        }
        proof {
            use_type_invariant(self);
        }
        let mut best: i64 = evaluate_board(board, &self.heat_maps[0]);
        let ghost mut at: int = 0;
        let mut i: usize = 1;
        while i < 8
            invariant
                1 <= i <= 8,
                0 <= at < i,
                forall|j: int| 0 <= j < 8 ==> is_heat_map(#[trigger] self.heat_maps[j]),
                best == heat(board@, self.heat_maps[at]),
                forall|j: int| 0 <= j < i ==> heat(board@, #[trigger] self.heat_maps[j]) <= best,
                0 <= best <= 16 * 137438953472,
            decreases 8 - i,
        {
            let score = evaluate_board(board, &self.heat_maps[i]);
            if score > best {
                best = score;
                proof {
                    at = i as int;
                }
            }
            i += 1;
        }
        let spare = evaluate_empty_cells(board);
        let mut loss: i64 = 0;
        if spare < EMPTY_CELLS_WITHOUT_PENALTY {
            loss = 1;
            let mut n: i64 = 0;
            while n < EMPTY_CELLS_WITHOUT_PENALTY - spare
                invariant
                    0 <= n <= EMPTY_CELLS_WITHOUT_PENALTY - spare,
                    0 <= spare < EMPTY_CELLS_WITHOUT_PENALTY,
                    loss == two_to(n as nat),
                    1 <= loss <= 64,
                decreases EMPTY_CELLS_WITHOUT_PENALTY - spare - n,
            {
                proof {
                    lemma_two_to_bound(n as nat);
                    lemma_two_to_bound(n as nat + 1);
                }
                loss = loss * 2;
                n += 1;
            }
        }
        let score = best - loss;
        proof {
            assert(loss == penalty(room(board@)));
            assert(score == heat(board@, self.maps()[at]) - penalty(room(board@)));
        }
        Some(score)
    }
}

proof fn lemma_two_to_bound(n: nat)
    requires
        n <= 6,
    ensures
        1 <= two_to(n) <= 64,
        n < 6 ==> two_to(n) <= 32,
        two_to(6) == 64,
{
    reveal_with_fuel(two_to, 8);
}

} // verus!
