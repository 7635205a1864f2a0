//! A chess engine that searches where its predictors point.
//!
//! Two predictors score the squares of a position: one the squares to move
//! from, one the squares to move to. The engine ranks the scores, resolves the
//! best ranked pairs to legal moves, and searches those moves to a fixed depth.
//!
//! - [`position`]: positions and moves, with the rules of chess taken from the
//!   `chess` crate;
//! - [`mlchess`]: the encoding of a position for the predictors and the
//!   ranking of their scores;
//! - [`resolver`]: from rankings to legal moves;
//! - [`search`]: the search as a machine that asks for scores and evaluations;
//! - [`negamax`]: what the search finds, by recursion, and the proof that the
//!   machine finds it;
//! - [`chessbot`]: the engine that runs the machine;
//! - [`evaluation`]: an evaluation by material;
//! - [`uci`]: the names of squares and moves, and the lines of a chess
//!   interface.

pub mod chessbot;
pub mod evaluation;
pub mod mlchess;
pub mod negamax;
pub mod position;
pub mod resolver;
pub mod search;
pub mod uci;
