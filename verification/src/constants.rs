use vstd::prelude::*;

verus! {

/// Number of columns of the playfield.
pub const BOARD_WIDTH: usize = 10;

/// Number of rows of the playfield, hidden rows included.
pub const BOARD_HEIGHT: usize = 40;

/// Number of rows shown to a player.
pub const VISIBLE_HEIGHT: usize = 20;

/// Number of rows above the visible area.
pub const HIDDEN_ROWS: usize = 20;

/// Cell value of a garbage block.
pub const GARBAGE_ID: i8 = -1;

/// Column at which a new piece appears.
pub const SPAWN_X: i16 = 3;

/// Row at which a new piece appears.
pub const SPAWN_Y: i16 = 18;

/// Names of the four rotation states, indexed by rotation.
pub const ROTATION_NAMES: [&'static str; 4] = ["N", "E", "S", "W"];

} // verus!
