//! A small chess engine core: a material-and-position evaluator, a
//! fixed-capacity transposition cache, and a negamax game-tree search with
//! alpha-beta pruning and a capture-only quiescence extension. The rules of
//! the game (move generation, move application, outcome detection, position
//! hashing) come from an external rules engine, reached only through the
//! trusted boundary in `rules`.

pub mod rules;
pub mod eval;
pub mod search;

pub use eval::{Eval, EvalInt, board_eval, eval_position};
