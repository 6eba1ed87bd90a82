//! The slide-and-merge rule of the game on one row of four tiles.
//!
//! Sliding a row to the left moves its tiles to the left edge. Two neighbours of the same
//! rank, with nothing but empty cells between them, merge into one tile of the next rank. A
//! tile takes part in at most one merge, and merges are found from the left. A rank never
//! grows past fifteen.
use vstd::prelude::*;
use crate::row::{all_ranks, Row, MAX_RANK};

verus! {

/// The rank that two tiles of rank `t` merge into.
pub open spec fn merged_rank(t: u8) -> u8 {
    if t >= MAX_RANK {
        MAX_RANK
    } else {
        (t + 1) as u8
    }
}

/// A rank held to the highest that four bits can store.
pub open spec fn capped(t: u8) -> u8 {
    if t >= MAX_RANK {
        MAX_RANK
    } else {
        t
    }
}

/// The tiles of `tiles` that are not empty, in their order.
pub open spec fn occupied(tiles: Seq<u8>) -> Seq<u8>
    decreases tiles.len(),
{
    if tiles.len() == 0 {
        tiles
    } else if tiles.last() == 0 {
        occupied(tiles.drop_last())
    } else {
        occupied(tiles.drop_last()).push(tiles.last())
    }
}

/// Merges equal neighbours of a run of tiles, pair by pair from the left.
pub open spec fn merge_pairs(tiles: Seq<u8>) -> Seq<u8>
    decreases tiles.len(),
{
    if tiles.len() == 0 {
        tiles
    } else if tiles.len() >= 2 && tiles[0] == tiles[1] {
        seq![merged_rank(tiles[0])] + merge_pairs(tiles.skip(2))
    } else {
        seq![tiles[0]] + merge_pairs(tiles.skip(1))
    }
}

/// The first `n` tiles of `tiles`, each capped, with empty cells where `tiles` has ended.
pub open spec fn left_packed(tiles: Seq<u8>, n: nat) -> Seq<u8> {
    Seq::new(
        n,
        |i: int|
            if i < tiles.len() {
                capped(tiles[i])
            } else {
                0u8
            },
    )
}

/// A row of tiles after a slide to the left.
pub open spec fn slide_left(tiles: Seq<u8>) -> Seq<u8> {
    left_packed(merge_pairs(occupied(tiles)), tiles.len())
}

/// A row of tiles after a slide to the right.
pub open spec fn slide_right(tiles: Seq<u8>) -> Seq<u8> {
    slide_left(tiles.reverse()).reverse()
}

/// What a left-to-right pass over the first `k` tiles has settled: the tiles that are final,
/// and the tile that may still merge with the next one (0 when there is none).
spec fn pass(tiles: Seq<u8>, k: int) -> (Seq<u8>, u8)
    decreases k,
{
    if k <= 0 {
        (Seq::empty(), 0u8)
    } else {
        let (done, held) = pass(tiles, k - 1);
        let t = tiles[k - 1];
        if t == 0 {
            (done, held)
        } else if held == 0 {
            (done, t)
        } else if t == held {
            (done.push(merged_rank(held)), 0u8)
        } else {
            (done.push(held), t)
        }
    }
}

spec fn held_tiles(held: u8) -> Seq<u8> {
    if held == 0 {
        Seq::empty()
    } else {
        seq![held]
    }
}

proof fn lemma_pass_len(tiles: Seq<u8>, k: int)
    requires
        0 <= k <= tiles.len(),
    ensures
        pass(tiles, k).0.len() + held_tiles(pass(tiles, k).1).len() <= k,
    decreases k,
{
    if k > 0 {
        lemma_pass_len(tiles, k - 1);
    }
}

proof fn lemma_pass_merges(tiles: Seq<u8>, k: int, rest: Seq<u8>)
    requires
        0 <= k <= tiles.len(),
    ensures
        merge_pairs(occupied(tiles.take(k)) + rest) == pass(tiles, k).0 + merge_pairs(
            held_tiles(pass(tiles, k).1) + rest,
        ),
    decreases k,
{
    if k == 0 {
        assert(occupied(tiles.take(0)) + rest =~= rest);
        assert(held_tiles(0u8) + rest =~= rest);
        assert(pass(tiles, 0).0 + merge_pairs(rest) =~= merge_pairs(rest));
    } else {
        let t = tiles[k - 1];
        let (done, held) = pass(tiles, k - 1);
        assert(tiles.take(k).drop_last() =~= tiles.take(k - 1));
        assert(tiles.take(k).last() == t);
        if t == 0 {
            lemma_pass_merges(tiles, k - 1, rest);
        } else {
            let more = seq![t] + rest;
            lemma_pass_merges(tiles, k - 1, more);
            assert(occupied(tiles.take(k)) + rest =~= occupied(tiles.take(k - 1)) + more);
            if held == 0 {
                assert(held_tiles(held) + more =~= held_tiles(t) + rest);
            } else {
                let run = held_tiles(held) + more;
                assert(run[0] == held && run[1] == t);
                if t == held {
                    assert(run.skip(2) =~= rest);
                    assert(held_tiles(0u8) + rest =~= rest);
                    assert(done + (seq![merged_rank(held)] + merge_pairs(rest)) =~= done.push(
                        merged_rank(held),
                    ) + merge_pairs(rest));
                } else {
                    assert(run.skip(1) =~= held_tiles(t) + rest);
                    assert(done + (seq![held] + merge_pairs(held_tiles(t) + rest)) =~= done.push(
                        held,
                    ) + merge_pairs(held_tiles(t) + rest));
                }
            }
        }
    }
}

proof fn lemma_pass_is_slide(tiles: Seq<u8>)
    ensures
        merge_pairs(occupied(tiles)) == pass(tiles, tiles.len() as int).0 + held_tiles(
            pass(tiles, tiles.len() as int).1,
        ),
{
    let n = tiles.len() as int;
    let empty = Seq::<u8>::empty();
    lemma_pass_merges(tiles, n, empty);
    assert(tiles.take(n) =~= tiles);
    assert(occupied(tiles) + empty =~= occupied(tiles));
    let held = pass(tiles, n).1;
    assert(held_tiles(held) + empty =~= held_tiles(held));
    if held != 0 {
        assert(held_tiles(held).skip(1) =~= empty);
        assert(seq![held] + merge_pairs(empty) =~= held_tiles(held));
    }
}

/// Slides four tiles to the left and merges equal neighbours.
pub fn move_row_left_raw(from_row: [u8; 4]) -> (to_row: [u8; 4])
    ensures
        to_row@ == slide_left(from_row@),
        all_ranks(to_row@),
{
    let mut to_row: [u8; 4] = [0u8; 4];
    let mut held: u8 = 0;
    let mut filled: usize = 0;
    let mut k: usize = 0;
    while k < 4
        invariant
            0 <= k <= 4,
            filled <= 4,
            to_row@.take(filled as int) == pass(from_row@, k as int).0,
            held == pass(from_row@, k as int).1,
            filled + held_tiles(held).len() <= k,
            forall|j: int| filled <= j < 4 ==> to_row[j] == 0,
        decreases 4 - k,
    {
        let tile = from_row[k];
        proof {
            lemma_pass_len(from_row@, k as int + 1);
        }
        if tile != 0 {
            if held == 0 {
                held = tile;
            } else {
                let ghost before = to_row@;
                if tile == held {
                    to_row[filled] = if held >= MAX_RANK {
                        MAX_RANK
                    } else {
                        held + 1
                    };
                    held = 0;
                } else {
                    to_row[filled] = held;
                    held = tile;
                }
                assert(to_row@.take(filled as int + 1) =~= before.take(filled as int).push(
                    to_row[filled as int],
                ));
                filled += 1;
            }
        }
        k += 1;
    }
    if held != 0 {
        to_row[filled] = held;
    }
    proof {
        lemma_pass_is_slide(from_row@);
    }
    let ghost settled = pass(from_row@, 4).0 + held_tiles(pass(from_row@, 4).1);
    assert(forall|j: int| 0 <= j < settled.len() ==> to_row[j] == settled[j]) by {
        assert(forall|j: int|
            0 <= j < filled ==> to_row[j] == to_row@.take(filled as int)[j]);
    }
    let mut i: usize = 0;
    while i < 4
        invariant
            0 <= i <= 4,
            settled.len() <= 4,
            forall|j: int| 0 <= j < i ==> to_row[j] == left_packed(settled, 4)[j],
            forall|j: int| i <= j < settled.len() ==> to_row[j] == settled[j],
            forall|j: int| settled.len() <= j < 4 ==> to_row[j] == 0,
        decreases 4 - i,
    {
        if to_row[i] > MAX_RANK {
            to_row[i] = MAX_RANK;
        }
        i += 1;
    }
    assert(to_row@ =~= slide_left(from_row@));
    to_row
}

/// Slides four tiles to the right and merges equal neighbours.
pub fn move_row_right_raw(from_row: [u8; 4]) -> (to_row: [u8; 4])
    ensures
        to_row@ == slide_right(from_row@),
        all_ranks(to_row@),
{
    let mirrored = [from_row[3], from_row[2], from_row[1], from_row[0]];
    assert(mirrored@ =~= from_row@.reverse());
    let slid = move_row_left_raw(mirrored);
    let to_row = [slid[3], slid[2], slid[1], slid[0]];
    assert(to_row@ =~= slid@.reverse());
    to_row
}

/// Slides a packed row to the left.
pub fn move_row_left(row: Row) -> (out: Row)
    ensures
        out@ == slide_left(row@),
{
    let to_row = move_row_left_raw(row.unpack());
    Row::pack(to_row).unwrap()
}

/// Slides a packed row to the right.
pub fn move_row_right(row: Row) -> (out: Row)
    ensures
        out@ == slide_right(row@),
{
    move_row_left(row.reverse()).reverse()
}

} // verus!
