//! Grids as people read them: the numbers that the tiles show.
//!
//! An empty cell shows 0. A tile of rank `k >= 1` shows `2^k`, up to 32768 for rank 15.
use vstd::prelude::*;
use crate::grid::{row_of, Grid};
use crate::row::{all_ranks, Row, MAX_RANK};

verus! {

/// The number that a cell of rank `rank` shows.
pub open spec fn displayed(rank: u8) -> u32 {
    if rank == 0 {
        0
    } else {
        1u32 << rank
    }
}

/// True when `rank` is the rank that stands for the number `n`: rank `k` stands for `2^k`,
/// and rank 0 also stands for 0.
pub open spec fn encodes(n: u32, rank: u8) -> bool {
    rank <= MAX_RANK && (n == 1u32 << rank || (n == 0 && rank == 0))
}

/// True when `n` can stand on a grid: 0, or a power of two up to 32768.
pub open spec fn valid_tile(n: u32) -> bool {
    exists|rank: u8| encodes(n, rank)
}

/// The rank that stands for `n`, if `n` can stand on a grid.
pub open spec fn rank_of(n: u32) -> Option<u8> {
    if valid_tile(n) {
        Some(choose|rank: u8| encodes(n, rank))
    } else {
        None
    }
}

proof fn lemma_power_bits(a: u8, b: u8)
    by (bit_vector)
    requires
        a <= 15,
        b <= 15,
    ensures
        1u32 << a != 0,
        1u32 << a <= 32768,
        a < b ==> (1u32 << a) < (1u32 << b),
        a == 0 ==> 1u32 << a == 1,
{
}

/// A number has at most one rank, and ranks show in their order.
pub proof fn lemma_rank_is_unique(n: u32, a: u8, b: u8)
    requires
        encodes(n, a),
        encodes(n, b),
    ensures
        a == b,
{
    lemma_power_bits(a, b);
    lemma_power_bits(b, a);
}

/// A higher rank shows a higher number, and every rank shows a number that has that rank,
/// but for rank 0, which shows an empty cell.
pub proof fn lemma_displayed_order(a: u8, b: u8)
    requires
        a <= MAX_RANK,
        b <= MAX_RANK,
    ensures
        a <= b ==> displayed(a) <= displayed(b),
        a < b ==> displayed(a) < displayed(b),
        encodes(displayed(a), a),
        displayed(a) <= 32768,
{
    lemma_power_bits(a, b);
    lemma_power_bits(b, a);
}

/// The number that a rank shows can stand on a grid, and stands for that rank alone.
pub proof fn lemma_displayed_has_its_rank(shown: u8, rank: u8)
    requires
        shown <= MAX_RANK,
        encodes(displayed(shown), rank),
    ensures
        rank == shown,
        valid_tile(displayed(shown)),
{
    lemma_power_bits(shown, rank);
    lemma_power_bits(rank, shown);
    lemma_displayed_order(shown, shown);
}

/// No number above 32768 can stand on a grid.
pub proof fn lemma_valid_tile_bound(n: u32)
    requires
        valid_tile(n),
    ensures
        n <= 32768,
{
    let rank = choose|rank: u8| encodes(n, rank);
    lemma_power_bits(rank, rank);
}

/// The rank that stands for `n`: 0 for an empty cell and for 1, `k` for `2^k` up to 32768.
/// `None` for every other number.
pub fn to_log(n: u32) -> (rank: Option<u8>)
    ensures
        rank == rank_of(n),
        rank matches Some(k) ==> encodes(n, k),
        rank.is_none() <==> !valid_tile(n),
{
    if n == 0 {
        assert(encodes(n, 0));
        proof {
            lemma_rank_is_unique(n, 0, choose|rank: u8| encodes(n, rank));
        }
        return Some(0);
    }
    let mut k: u8 = 0;
    while k <= MAX_RANK
        invariant
            0 <= k <= MAX_RANK + 1,
            n != 0,
            forall|j: u8| j < k ==> !encodes(n, j),
        decreases MAX_RANK + 1 - k,
    {
        if n == 1u32 << k {
            assert(encodes(n, k));
            proof {
                lemma_rank_is_unique(n, k, choose|rank: u8| encodes(n, rank));
            }
            return Some(k);
        }
        k += 1;
    }
    None
}

/// The number that a cell of rank `rank` shows.
pub fn human(rank: u8) -> (n: u32)
    requires
        rank <= MAX_RANK,
    ensures
        n == displayed(rank),
{
    if rank == 0 {
        0
    } else {
        1u32 << rank
    }
}

impl Grid {
    /// The grid whose cells hold the ranks in `grid`, row by row. `None` when a rank needs
    /// more than four bits.
    pub fn from_log(grid: [[u8; 4]; 4]) -> (out: Option<Grid>)
        ensures
            out.is_some() <==> forall|r: int| 0 <= r < 4 ==> all_ranks(grid[r]@),
            out matches Some(g) ==> forall|r: int| 0 <= r < 4 ==> row_of(g@, r) == grid[r]@,
    {
        let mut rows: [Row; 4] = [Row(0); 4];
        let mut r: usize = 0;
        while r < 4
            invariant
                0 <= r <= 4,
                forall|i: int| 0 <= i < r ==> all_ranks(grid[i]@),
                forall|i: int| 0 <= i < r ==> rows[i]@ == grid[i]@,
            decreases 4 - r,
        {
            match Row::pack(grid[r]) {
                Ok(row) => {
                    rows[r] = row;
                },
                Err(_) => {
                    return None;
                },
            }
            r += 1;
        }
        Some(Grid::from_rows(rows))
    }

    /// The ranks of the sixteen cells, row by row.
    pub fn unpack_log(self) -> (out: [[u8; 4]; 4])
        ensures
            forall|r: int| 0 <= r < 4 ==> out[r]@ == row_of(self@, r),
            forall|r: int| 0 <= r < 4 ==> all_ranks(out[r]@),
    {
        let rows = self.rows();
        [rows[0].unpack(), rows[1].unpack(), rows[2].unpack(), rows[3].unpack()]
    }

    /// The grid that shows the numbers in `grid`, row by row. `None` when a number is
    /// neither 0 nor a power of two of at most 32768.
    pub fn from_human(grid: [[u32; 4]; 4]) -> (out: Option<Grid>)
        ensures
            out.is_some() <==> forall|r: int, c: int|
                0 <= r < 4 && 0 <= c < 4 ==> valid_tile(#[trigger] grid[r][c]),
            out matches Some(g) ==> forall|r: int, c: int|
                0 <= r < 4 && 0 <= c < 4 ==> encodes(#[trigger] grid[r][c], g@[4 * r + c]),
    {
        let mut ranks: [[u8; 4]; 4] = [[0u8; 4]; 4];
        let mut r: usize = 0;
        while r < 4
            invariant
                0 <= r <= 4,
                forall|i: int, c: int|
                    0 <= i < r && 0 <= c < 4 ==> encodes(#[trigger] grid[i][c], ranks[i][c]),
            decreases 4 - r,
        {
            let mut c: usize = 0;
            while c < 4
                invariant
                    0 <= r < 4,
                    0 <= c <= 4,
                    forall|i: int, j: int|
                        0 <= i < r && 0 <= j < 4 ==> encodes(#[trigger] grid[i][j], ranks[i][j]),
                    forall|j: int|
                        0 <= j < c ==> encodes(#[trigger] grid[r as int][j], ranks[r as int][j]),
                decreases 4 - c,
            {
                match to_log(grid[r][c]) {
                    Some(rank) => {
                        ranks[r][c] = rank;
                    },
                    None => {
                        assert(!valid_tile(grid[r as int][c as int]));
                        return None;
                    },
                }
                c += 1;
            }
            r += 1;
        }
        assert forall|i: int| 0 <= i < 4 implies all_ranks(ranks[i]@) by {
            assert forall|j: int| 0 <= j < 4 implies ranks[i]@[j] <= MAX_RANK by {
                assert(encodes(grid[i][j], ranks[i][j]));
            }
        }
        let out = Grid::from_log(ranks);
        proof {
            let g = out.unwrap();
            assert forall|i: int, j: int| 0 <= i < 4 && 0 <= j < 4 implies encodes(
                #[trigger] grid[i][j],
                g@[4 * i + j],
            ) by {
                assert(row_of(g@, i)[j] == ranks[i]@[j]);
            }
            assert forall|i: int, j: int| 0 <= i < 4 && 0 <= j < 4 implies valid_tile(
                #[trigger] grid[i][j],
            ) by {
                assert(encodes(grid[i][j], g@[4 * i + j]));
            }
        }
        out
    }

    /// The numbers that the sixteen cells show, row by row.
    pub fn unpack_human(self) -> (out: [[u32; 4]; 4])
        ensures
            forall|r: int, c: int|
                0 <= r < 4 && 0 <= c < 4 ==> #[trigger] out[r][c] == displayed(self@[4 * r + c]),
    {
        let ranks = self.unpack_log();
        let mut out: [[u32; 4]; 4] = [[0u32; 4]; 4];
        let mut r: usize = 0;
        while r < 4
            invariant
                0 <= r <= 4,
                forall|i: int| 0 <= i < 4 ==> ranks[i]@ == row_of(self@, i),
                forall|i: int| 0 <= i < 4 ==> all_ranks(ranks[i]@),
                forall|i: int, j: int|
                    0 <= i < r && 0 <= j < 4 ==> #[trigger] out[i][j] == displayed(
                        self@[4 * i + j],
                    ),
            decreases 4 - r,
        {
            let mut c: usize = 0;
            while c < 4
                invariant
                    0 <= r < 4,
                    0 <= c <= 4,
                    forall|i: int| 0 <= i < 4 ==> ranks[i]@ == row_of(self@, i),
                    forall|i: int| 0 <= i < 4 ==> all_ranks(ranks[i]@),
                    forall|i: int, j: int|
                        0 <= i < r && 0 <= j < 4 ==> #[trigger] out[i][j] == displayed(
                            self@[4 * i + j],
                        ),
                    forall|j: int|
                        0 <= j < c ==> #[trigger] out[r as int][j] == displayed(
                            self@[4 * r + j],
                        ),
                decreases 4 - c,
            {
                assert(ranks[r as int]@[c as int] == row_of(self@, r as int)[c as int]);
                assert(ranks[r as int]@[c as int] <= MAX_RANK);
                out[r][c] = human(ranks[r][c]);
                c += 1;
            }
            r += 1;
        }
        out
    }
}

} // verus!
