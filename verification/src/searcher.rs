//! What the search for the best move settles without weighing values: how deep to look,
//! what to do at a node, and the counters that a search reports.
//!
//! The search walks two kinds of node in turn. At a player node the player is to move,
//! and the node is worth its best move. At a chance node the game is to add a tile, and the
//! node is worth the average over the tiles that may come. The values and the probabilities
//! are their caller's; what is settled here is which nodes come next.
use vstd::prelude::*;
use crate::engine::GameEngine;
use crate::grid::{empty_cells, Grid, Move};
use crate::measure::{biggest_shown, distinct_ranks};
use crate::moves::{no_move_changes, successors};
use crate::spawn::{spawns, RANK_OF_2, RANK_OF_4};

verus! {

/// The lowest depth that a search goes to.
pub const MIN_DEPTH: u8 = 3;

/// The highest depth that a search goes to unless its caller sets another.
pub const MAX_DEPTH: u8 = 14;

/// `input` held between `min` and `max`.
pub open spec fn clamped(input: u8, min: u8, max: u8) -> u8 {
    if input < min {
        min
    } else if input > max {
        max
    } else {
        input
    }
}

/// By how much the depth stays below the number of different tiles: by less as the highest
/// tile grows past 4096 and past 8192, so that the search looks deeper late in the game.
pub open spec fn stage_adjustment(biggest: u32) -> u8 {
    if biggest > 8192 {
        0
    } else if biggest > 4096 {
        1
    } else {
        2
    }
}

/// The depth that a search from a grid of `tiles` goes to when `max_depth` is its limit.
pub open spec fn depth_for(tiles: Seq<u8>, max_depth: u8) -> u8 {
    let distinct = distinct_ranks(tiles).len();
    let adjustment = stage_adjustment(biggest_shown(tiles));
    let wanted = if distinct <= adjustment {
        0u8
    } else {
        (distinct - adjustment) as u8
    };
    clamped(wanted, MIN_DEPTH, max_depth)
}

/// Calls `clamp` of `num`, which returns `min` for an input below `min`, `max` for one above
/// `max`, and the input otherwise. In a debug build `clamp` panics when `min` is above
/// `max`, so that is ruled out.
#[verifier::external_body]
fn clamp_depth(input: u8, min: u8, max: u8) -> (out: u8)
    requires
        min <= max,
    ensures
        out == clamped(input, min, max),
{
    num::clamp(input, min, max)
}

/// The depth that a search from `grid` goes to when `max_depth` is its limit: the number of
/// different tiles less the stage adjustment, held between `MIN_DEPTH` and `max_depth`.
pub fn calculate_depth(grid: Grid, max_depth: u8) -> (depth: u8)
    requires
        MIN_DEPTH <= max_depth,
    ensures
        depth == depth_for(grid@, max_depth),
        MIN_DEPTH <= depth <= max_depth,
{
    let biggest = grid.biggest_tile();
    let adjustment: u8 = if biggest > 8192 {
        0
    } else if biggest > 4096 {
        1
    } else {
        2
    };
    let distinct = grid.count_distinct_tiles();
    let wanted: u8 = if distinct <= adjustment {
        0
    } else {
        distinct - adjustment
    };
    clamp_depth(wanted, MIN_DEPTH, max_depth)
}

/// Counters that a search reports.
#[derive(PartialEq, Eq, Structural, Clone, Copy, Debug)]
pub struct SearchStats {
    /// Nodes entered.
    pub nodes: u32,
    /// Positions in the cache when the search ended.
    pub cache_size: u32,
    /// Nodes whose value came from the cache.
    pub cache_hits: u32,
    /// Nodes judged by the heuristic.
    pub evals: u32,
    /// Nodes whose value is the average over their children.
    pub average: u32,
}

impl Default for SearchStats {
    /// Counters that are all 0.
    fn default() -> (stats: SearchStats)
        ensures
            stats == (SearchStats { nodes: 0, cache_size: 0, cache_hits: 0, evals: 0, average: 0 }),
    {
        SearchStats { nodes: 0, cache_size: 0, cache_hits: 0, evals: 0, average: 0 }
    }
}

impl SearchStats {
    /// True when each counter of the sum of `self` and `other` fits 32 bits.
    pub open spec fn can_add(self, other: SearchStats) -> bool {
        &&& self.nodes + other.nodes <= u32::MAX
        &&& self.cache_size + other.cache_size <= u32::MAX
        &&& self.cache_hits + other.cache_hits <= u32::MAX
        &&& self.evals + other.evals <= u32::MAX
        &&& self.average + other.average <= u32::MAX
    }

    /// The counters of two searches together: each counter is the sum of the two.
    pub fn add(self, other: SearchStats) -> (sum: SearchStats)
        requires
            self.can_add(other),
        ensures
            sum.nodes == self.nodes + other.nodes,
            sum.cache_size == self.cache_size + other.cache_size,
            sum.cache_hits == self.cache_hits + other.cache_hits,
            sum.evals == self.evals + other.evals,
            sum.average == self.average + other.average,
    {
        SearchStats {
            nodes: self.nodes + other.nodes,
            cache_size: self.cache_size + other.cache_size,
            cache_hits: self.cache_hits + other.cache_hits,
            evals: self.evals + other.evals,
            average: self.average + other.average,
        }
    }
}

/// One more than `count`, or `count` where it is the highest that 32 bits hold.
pub open spec fn bumped(count: u32) -> u32 {
    if count == u32::MAX {
        count
    } else {
        (count + 1) as u32
    }
}

/// What to do at a player node.
#[derive(PartialEq, Eq, Clone, Debug)]
pub enum PlayerStep {
    /// Judge the position as it stands: the search has reached its depth, or the position
    /// is too unlikely to look further.
    Evaluate,
    /// Take the value in the cache.
    CacheHit,
    /// The game is over here: the node is worth nothing.
    GameOver,
    /// Take the best of the chance nodes that the moves lead to. The moves that change the
    /// grid are given in canonical order, each with the grid it leads to.
    Expand(Vec<(Move, Grid)>),
}

/// What to do at a chance node.
#[derive(PartialEq, Eq, Clone, Debug)]
pub struct ChanceStep {
    /// The number of empty cells: each new tile comes on one of them.
    pub empty: usize,
    /// The grids with a new 2, one for each empty cell in the order of the cells.
    pub with2: Vec<Grid>,
    /// The grids with a new 4, one for each empty cell in the order of the cells.
    pub with4: Vec<Grid>,
    /// The depth that is left for the player nodes below.
    pub depth: u8,
}

/// Settles what to do at the player node of `grid` with `depth` levels left. The caller says
/// whether the position is too unlikely to look further and whether the cache holds a value
/// that covers it. The depth and the likelihood are looked at first, then the cache, then
/// the end of the game. The node is counted, and with it what was done.
pub fn player_step(
    engine: &GameEngine,
    grid: Grid,
    depth: u8,
    too_unlikely: bool,
    cached: bool,
    stats: &mut SearchStats,
) -> (step: PlayerStep)
    ensures
        depth == 0 || too_unlikely ==> step == PlayerStep::Evaluate,
        depth > 0 && !too_unlikely && cached ==> step == PlayerStep::CacheHit,
        depth > 0 && !too_unlikely && !cached && no_move_changes(grid@) ==> step
            == PlayerStep::GameOver,
        depth > 0 && !too_unlikely && !cached && !no_move_changes(grid@) ==> (step matches PlayerStep::Expand(
            moves,
        ) && moves@.map_values(|s: (Move, Grid)| (s.0, s.1@)) == successors(grid@)),
        final(stats).nodes == bumped(old(stats).nodes),
        final(stats).evals == if step == PlayerStep::Evaluate {
            bumped(old(stats).evals)
        } else {
            old(stats).evals
        },
        final(stats).cache_hits == if step == PlayerStep::CacheHit {
            bumped(old(stats).cache_hits)
        } else {
            old(stats).cache_hits
        },
        final(stats).average == old(stats).average,
        final(stats).cache_size == old(stats).cache_size,
{
    stats.nodes = stats.nodes.saturating_add(1);
    if depth == 0 || too_unlikely {
        stats.evals = stats.evals.saturating_add(1);
        return PlayerStep::Evaluate;
    }
    if cached {
        stats.cache_hits = stats.cache_hits.saturating_add(1);
        return PlayerStep::CacheHit;
    }
    let moves = engine.player_moves(grid);
    if moves.len() == 0 {
        PlayerStep::GameOver
    } else {
        PlayerStep::Expand(moves)
    }
}

/// Settles what to do at the chance node of `grid` with `depth` levels left: the grids that
/// a new tile leads to, and the depth for them, which is one less. The node is counted as
/// a node and as an average.
pub fn chance_step(grid: Grid, depth: u8, stats: &mut SearchStats) -> (step: ChanceStep)
    requires
        depth > 0,
    ensures
        step.empty == empty_cells(grid@),
        step.with2@.map_values(|g: Grid| g@) == spawns(grid@, RANK_OF_2),
        step.with4@.map_values(|g: Grid| g@) == spawns(grid@, RANK_OF_4),
        step.with2.len() == step.empty,
        step.with4.len() == step.empty,
        step.depth == depth - 1,
        final(stats).nodes == bumped(old(stats).nodes),
        final(stats).average == bumped(old(stats).average),
        final(stats).evals == old(stats).evals,
        final(stats).cache_hits == old(stats).cache_hits,
        final(stats).cache_size == old(stats).cache_size,
{
    stats.nodes = stats.nodes.saturating_add(1);
    stats.average = stats.average.saturating_add(1);
    ChanceStep {
        empty: grid.count_empty(),
        with2: grid.random_moves_with2(),
        with4: grid.random_moves_with4(),
        depth: depth - 1,
    }
}

} // verus!
