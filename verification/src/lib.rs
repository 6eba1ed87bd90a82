//! The board engine of an automatic player of the game 2048, with what its search for the
//! best move settles in whole numbers.
//!
//! The game state is a `Grid`: sixteen tiles in one 64-bit word. `row`, `column` and `slide`
//! hold the rule of the game on one line of four tiles; `grid`, `moves`, `spawn`, `human`,
//! `measure` and `display` hold the grid and what can be done with it; `engine` holds the
//! tables that make a move four reads; `board` holds the grid with one byte for each cell;
//! `heuristic` and `heat_map` judge positions; `searcher` chooses the depth of a search.
use vstd::prelude::*;

pub mod board;
pub mod column;
pub mod display;
pub mod engine;
pub mod grid;
pub mod heat_map;
pub mod heuristic;
pub mod human;
pub mod measure;
pub mod moves;
mod random;
pub mod row;
pub mod searcher;
pub mod slide;
pub mod spawn;

verus! {

} // verus!
