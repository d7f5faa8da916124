//! A chess engine that speaks UCI, built on a legal move generator.
//!
//! The engine keeps no game state between two `position` commands: it is
//! handed a position and a time budget and answers with a move.
pub mod types;
pub mod bitboard;
pub mod board;
pub mod attacks;
pub mod eval;
pub mod tt;
pub mod position;
pub mod nnue;
pub mod delta;

pub mod see;
pub mod clock;
pub mod search;
pub mod perft;
pub mod text;
pub mod bench;
pub mod uci;
pub mod datagen;
pub mod train;
pub mod texel;
