//! A bitboard engine for a two-player stone game on a 7x7 board, its moves
//! placements next to a stone and jumps of two steps, each capturing the
//! stones around its target.
//!
//! - [`bits`], [`board`], [`fen`], [`notation`]: squares, positions and their
//!   text forms;
//! - [`movegen`], [`move_app`], [`rules`], [`perft`]: the moves, playing and
//!   taking back, and what holds of them;
//! - [`value`], [`eval`], [`table`], [`movepicker`], [`search`]: the score
//!   of a position and the search that finds it;
//! - [`protocol`]: the requests of the text protocol;
//! - [`datagen`], [`generator`], [`handles`]: self-play and what it shares
//!   with other threads.

pub mod bits;
pub mod board;
pub mod movegen;
pub mod move_app;
pub mod rules;
pub mod table;
pub mod eval;
pub mod movepicker;
pub mod notation;
pub mod fen;
pub mod value;
pub mod handles;
pub mod search;
pub mod protocol;
pub mod datagen;
pub mod generator;
pub mod perft;
