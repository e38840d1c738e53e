use vstd::prelude::*;

verus! {

/// Number of columns of the playing surface.
pub const WIDTH: u8 = 7;

/// Number of rows of the playing surface.
pub const HEIGHT: u8 = 6;

/// Number of cells of the playing surface.
pub const BOARD_SIZE: u8 = 42;

/// Smallest value the transposition table's bound encoding can carry,
/// `-(BOARD_SIZE / 2 + 3)` for the 7 x 6 board.
pub const MIN_SCORE: i8 = -24;

/// Largest value the transposition table's bound encoding can carry,
/// `(BOARD_SIZE + 1) / 2 - 3` for the 7 x 6 board.
pub const MAX_SCORE: i8 = 18;

} // verus!
