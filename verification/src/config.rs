//! Dimensions of the play field and the initial speed of the game.

use vstd::prelude::*;

verus! {

/// Width of the play field, in screen columns.
pub const END_PLAYING_SCREEN_X: usize = 74;

/// Height of the play field, in screen lines.
pub const END_SCREEN_Y: usize = 54;

/// Height of one block, in screen lines.
pub const BLOCK_HEIGHT: usize = 2;

/// Width of one block, in screen columns.
pub const BLOCK_WIDTH: usize = BLOCK_HEIGHT * 2;

/// Leftmost column of the board.
pub const LEFT_THRESHOLD: usize = 0;

/// Number of columns of the board.
pub const RIGHT_THRESHOLD: usize = END_PLAYING_SCREEN_X / BLOCK_WIDTH;

/// Number of rows of the board.
pub const BOTTOM_THRESHOLD: usize = END_SCREEN_Y / BLOCK_HEIGHT;

/// Milliseconds between two gravity steps when a game starts; also the grace
/// budget a resting piece is given before it locks.
pub const INITIAL_TICK_TIME_MS: usize = 1000;

} // verus!
