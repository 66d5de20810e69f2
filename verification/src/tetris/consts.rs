//! The configuration of the simulation.

use vstd::prelude::*;

verus! {

/// The number of columns of the board.
pub const BOARD_WIDTH: usize = 10;

/// The number of rows of the board. There are no hidden rows above the top.
pub const BOARD_HEIGHT: usize = 20;

/// The column of the spawn anchor.
pub const START_X_POSITION: i32 = 4;

/// The row of the spawn anchor.
pub const START_Y_POSITION: i32 = 18;

/// How many times faster the gravity timer runs while soft drop is held.
pub const SOFT_DROP_MULTIPLER: u32 = 3;

/// The period of the gravity timer, in nanoseconds.
pub const GRAVITY_PERIOD_NANOS: u64 = 400_000_000;

/// The duration of the lockdown countdown, in nanoseconds.
pub const LOCKDOWN_NANOS: u64 = 500_000_000;

/// The points for the first line of a clear.
pub const FIRST_LINE_POINTS: usize = 100;

/// The points for each further line of the same clear.
pub const NEXT_LINE_POINTS: usize = 200;

/// The points for each row that one cell descends in a hard drop.
pub const HARD_DROP_POINTS: usize = 3;

} // verus!
