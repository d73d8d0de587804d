//! A falling-block puzzle engine: the board, the pieces, the rules by which
//! pieces move, lock and clear rows, and the timing of gravity and lock delay.

pub mod config;
pub mod matrix;
pub mod piece;
pub mod pile;
pub mod tetris;
