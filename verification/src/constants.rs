//! Fixed parameters of a standard game.

use vstd::prelude::*;

verus! {

/// Side length of the standard square board.
pub const BOARD_SIZE: usize = 15;

/// Number of tiles a rack holds when full.
pub const RACK_CAPACITY: usize = 7;

/// Number of tiles in a freshly filled bag.
pub const TOTAL_TILES: usize = 100;

/// Letter shown by a blank tile.
pub const BLANK: char = '_';

/// Number of distinct tile faces: the 26 letters and the blank.
pub const FACE_COUNT: usize = 27;

} // verus!
