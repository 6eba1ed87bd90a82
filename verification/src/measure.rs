//! Measures of a grid that the search depth is chosen by.
use vstd::prelude::*;
use crate::grid::Grid;
use crate::human::{displayed, human, lemma_displayed_order};
use crate::row::{all_ranks, MAX_RANK};

verus! {

/// The ranks from 1 up to, but not including, `below` that occur among `tiles`.
pub open spec fn ranks_below(tiles: Seq<u8>, below: int) -> Set<u8> {
    Set::new(|rank: u8| 1 <= rank < below && tiles.contains(rank))
}

/// The ranks of the tiles among `tiles`, empty cells left out.
pub open spec fn distinct_ranks(tiles: Seq<u8>) -> Set<u8> {
    Set::new(|rank: u8| rank != 0 && tiles.contains(rank))
}

/// The highest number that a tile among `tiles` shows; 0 when there is no tile.
pub open spec fn biggest_shown(tiles: Seq<u8>) -> u32
    decreases tiles.len(),
{
    if tiles.len() == 0 {
        0
    } else {
        let rest = biggest_shown(tiles.drop_last());
        if displayed(tiles.last()) > rest {
            displayed(tiles.last())
        } else {
            rest
        }
    }
}

/// The highest number shown is shown by one of the tiles, and no tile shows a higher one.
pub proof fn lemma_biggest_shown(tiles: Seq<u8>)
    ensures
        forall|k: int| 0 <= k < tiles.len() ==> displayed(#[trigger] tiles[k]) <= biggest_shown(tiles),
        tiles.len() > 0 ==> exists|k: int|
            0 <= k < tiles.len() && biggest_shown(tiles) == displayed(#[trigger] tiles[k]),
    decreases tiles.len(),
{
    if tiles.len() > 0 {
        let front = tiles.drop_last();
        lemma_biggest_shown(front);
        assert forall|k: int| 0 <= k < tiles.len() implies displayed(#[trigger] tiles[k])
            <= biggest_shown(tiles) by {
            if k < front.len() {
                assert(front[k] == tiles[k]);
            }
        }
        if front.len() > 0 && biggest_shown(tiles) == biggest_shown(front) {
            let k = choose|k: int|
                0 <= k < front.len() && biggest_shown(front) == displayed(#[trigger] front[k]);
            assert(front[k] == tiles[k]);
        } else {
            if front.len() == 0 {
                assert(biggest_shown(front) == 0);
            }
            assert(biggest_shown(tiles) == displayed(tiles[tiles.len() - 1]));
        }
    }
}

/// True when `rank` is the rank of one of the tiles.
fn occurs(ranks: &[[u8; 4]; 4], rank: u8) -> (found: bool)
    ensures
        found <==> holds(*ranks, rank),
{
    let mut r: usize = 0;
    while r < 4
        invariant
            0 <= r <= 4,
            forall|i: int, j: int| 0 <= i < r && 0 <= j < 4 ==> #[trigger] ranks[i][j] != rank,
        decreases 4 - r,
    {
        let mut c: usize = 0;
        while c < 4
            invariant
                0 <= r < 4,
                0 <= c <= 4,
                forall|i: int, j: int| 0 <= i < r && 0 <= j < 4 ==> #[trigger] ranks[i][j] != rank,
                forall|j: int| 0 <= j < c ==> #[trigger] ranks[r as int][j] != rank,
            decreases 4 - c,
        {
            if ranks[r][c] == rank {
                return true;
            }
            c += 1;
        }
        r += 1;
    }
    false
}

proof fn lemma_cell_of_position(tiles: Seq<u8>, ranks: [[u8; 4]; 4], r: int, c: int)
    requires
        tiles.len() == 16,
        forall|i: int| 0 <= i < 4 ==> ranks[i]@ == crate::grid::row_of(tiles, i),
        0 <= r < 4,
        0 <= c < 4,
    ensures
        ranks[r][c] == tiles[4 * r + c],
{
    assert(ranks[r]@[c] == crate::grid::row_of(tiles, r)[c]);
}

spec fn holds(ranks: [[u8; 4]; 4], rank: u8) -> bool {
    exists|r: int, c: int| 0 <= r < 4 && 0 <= c < 4 && #[trigger] ranks[r][c] == rank
}

proof fn lemma_holds_is_contains(tiles: Seq<u8>, ranks: [[u8; 4]; 4], rank: u8)
    requires
        tiles.len() == 16,
        forall|i: int| 0 <= i < 4 ==> ranks[i]@ == crate::grid::row_of(tiles, i),
    ensures
        holds(ranks, rank) <==> tiles.contains(rank),
{
    if holds(ranks, rank) {
        let (r, c) = choose|r: int, c: int|
            0 <= r < 4 && 0 <= c < 4 && #[trigger] ranks[r][c] == rank;
        lemma_cell_of_position(tiles, ranks, r, c);
        assert(tiles[4 * r + c] == rank);
    }
    if tiles.contains(rank) {
        let k = choose|k: int| 0 <= k < 16 && tiles[k] == rank;
        lemma_cell_of_position(tiles, ranks, k / 4, k % 4);
        assert(ranks[k / 4][k % 4] == rank);
    }
}

impl Grid {
    /// The number of different tiles on the grid, empty cells left out: from 0 to 15.
    pub fn count_distinct_tiles(self) -> (count: u8)
        ensures
            count == distinct_ranks(self@).len(),
            distinct_ranks(self@).finite(),
            count <= MAX_RANK,
    {
        let ranks = self.unpack_log();
        let mut count: u8 = 0;
        let mut rank: u8 = 1;
        assert(ranks_below(self@, 1) =~= Set::<u8>::empty());
        while rank <= MAX_RANK
            invariant
                1 <= rank <= MAX_RANK + 1,
                self@.len() == 16,
                forall|i: int| 0 <= i < 4 ==> ranks[i]@ == crate::grid::row_of(self@, i),
                ranks_below(self@, rank as int).finite(),
                count == ranks_below(self@, rank as int).len(),
                count < rank,
            decreases MAX_RANK + 1 - rank,
        {
            let found = occurs(&ranks, rank);
            proof {
                let before = ranks_below(self@, rank as int);
                let after = ranks_below(self@, rank as int + 1);
                lemma_holds_is_contains(self@, ranks, rank);
                if found {
                    assert(after =~= before.insert(rank));
                } else {
                    assert(after =~= before);
                }
            }
            if found {
                count += 1;
            }
            rank += 1;
        }
        proof {
            assert forall|t: u8| distinct_ranks(self@).contains(t) implies ranks_below(
                self@,
                16,
            ).contains(t) by {
                let k = choose|k: int| 0 <= k < 16 && self@[k] == t;
                lemma_cell_of_position(self@, ranks, k / 4, k % 4);
                assert(all_ranks(ranks[k / 4]@));
                assert(ranks[k / 4]@[k % 4] <= MAX_RANK);
            }
            assert(distinct_ranks(self@) =~= ranks_below(self@, 16));
        }
        count
    }

    /// The highest number that a tile on the grid shows; 0 on the empty grid.
    pub fn biggest_tile(self) -> (biggest: u32)
        ensures
            biggest == biggest_shown(self@),
            forall|k: int| 0 <= k < 16 ==> displayed(#[trigger] self@[k]) <= biggest,
            exists|k: int| 0 <= k < 16 && biggest == displayed(#[trigger] self@[k]),
            biggest <= 32768,
    {
        let ranks = self.unpack_log();
        let mut top: u8 = 0;
        let mut rank: u8 = 1;
        while rank <= MAX_RANK
            invariant
                1 <= rank <= MAX_RANK + 1,
                top < rank,
                self@.len() == 16,
                forall|i: int| 0 <= i < 4 ==> ranks[i]@ == crate::grid::row_of(self@, i),
                top != 0 ==> self@.contains(top),
                forall|t: u8| top < t < rank ==> !self@.contains(t),
            decreases MAX_RANK + 1 - rank,
        {
            let found = occurs(&ranks, rank);
            proof {
                lemma_holds_is_contains(self@, ranks, rank);
            }
            if found {
                top = rank;
            }
            rank += 1;
        }
        proof {
            assert forall|k: int| 0 <= k < 16 implies displayed(#[trigger] self@[k]) <= displayed(
                top,
            ) by {
                let t = self@[k];
                lemma_cell_of_position(self@, ranks, k / 4, k % 4);
                assert(all_ranks(ranks[k / 4]@));
                assert(ranks[k / 4]@[k % 4] <= MAX_RANK);
                assert(self@.contains(t));
                if t != 0 {
                    lemma_displayed_order(t, top);
                }
            }
            if top != 0 {
                let k = choose|k: int| 0 <= k < 16 && self@[k] == top;
                assert(displayed(top) == displayed(self@[k]));
            } else {
                assert forall|k: int| 0 <= k < 16 implies self@[k] == 0 by {
                    let t = self@[k];
                    lemma_cell_of_position(self@, ranks, k / 4, k % 4);
                    assert(all_ranks(ranks[k / 4]@));
                    assert(ranks[k / 4]@[k % 4] <= MAX_RANK);
                    assert(self@.contains(t));
                }
                assert(displayed(top) == displayed(self@[0]));
            }
            lemma_biggest_shown(self@);
            lemma_displayed_order(top, top);
        }
        human(top)
    }
}

} // verus!
