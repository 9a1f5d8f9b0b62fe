//! A chess rules engine: board state, pseudo-legal move generation, move
//! application with promotion, castling-rights bookkeeping and ply sequencing.

pub mod board;
pub mod castling_rights;
pub mod displacement;
pub mod game;
pub mod generation;
pub mod moves;
pub mod pieces;
pub mod rules;
