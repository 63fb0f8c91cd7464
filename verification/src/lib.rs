//! A verified Xiangqi (Chinese chess) engine core: board representation,
//! legal-move generation under the game's piece rules, incremental
//! position state with Zobrist hashing, a tapered evaluator, and an
//! iterative-deepening alpha-beta search with a transposition table.
//!
//! The movement rules live in `rules` as mathematical predicates; the
//! board model and its well-formedness invariants live in `model`.  All
//! executable code is verified against those: playing and retracting a
//! move restore the board exactly, the bit sets always agree with the
//! square array, the hash and the evaluation accumulators always equal
//! their from-scratch recomputations, and move generation returns
//! exactly the legal moves.

pub mod bits;
pub mod board;
pub mod config;
pub mod constants;
pub mod engine;
pub mod evaluate;
pub mod fen;
pub mod model;
pub mod move_gen;
pub mod moves;
pub mod opening_book;
pub mod psts;
pub mod rules;
pub mod tt;
pub mod uci;
pub mod zobrist;
