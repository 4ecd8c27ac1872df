//! The numbers of the game. Lengths are thousandths of a world unit, times
//! are milliseconds, speeds are thousandths of a unit per second.

use vstd::prelude::*;

verus! {

/// Thousandths in one world unit.
pub const UNIT: i32 = 1000;

/// Segments that a centipede starts with.
pub const INITIAL_CENTIPEDE_LENGTH: usize = 30;

/// Speed at the start of a life.
pub const DEFAULT_SPEED: u32 = 100000;

/// What the speed gains in each millisecond of circular movement.
pub const SPEED_UP: u32 = 3;

/// Radius of the head.
pub const HEAD_SIZE: u32 = 8000;

/// Length of path between one segment and the next.
pub const TAIL_DISTANCE: u32 = 30000;

/// Time that a purged segment drifts before it is removed.
pub const PURGE_GRACE: u64 = 2500;

/// Time that a dead centipede waits for its next life.
pub const RESTART_DELAY: u64 = 2000;

/// Narrowest gate.
pub const GATE_MIN_WIDTH: u32 = 100000;

/// Upper end of a gate's width, itself never drawn.
pub const GATE_MAX_WIDTH: u32 = 180000;

/// Radius of a gate's post.
pub const POLL_SIZE: u32 = 8000;

/// Time between one gate and the next.
pub const GATE_SPAWN_INTERVAL: u64 = 2000;

/// Places tried for one gate before the turn is given up.
pub const GATE_SPAWN_ATTEMPTS: usize = 10;

/// No gate appears this close to the head.
pub const GATE_NOT_SPAWN_DISTANCE_TO_HEAD: u32 = 100000;

/// Side of one panel of the board.
pub const PANEL_SIZE: i32 = 50000;

/// Panels across the board.
pub const PANEL_X_COUNT: i32 = 25;

/// Panels up the board.
pub const PANEL_Y_COUNT: i32 = 13;

/// Height of the board.
pub const BOARD_Y_SIZE: i32 = 650000;

/// The board's upper edge; the lower is its negative.
pub const BOARD_Y_BORDER: i32 = 325000;

/// Width of the board.
pub const BOARD_X_SIZE: i32 = 1250000;

/// The board's right edge; the left is its negative.
pub const BOARD_X_BORDER: i32 = 625000;

/// Speed for which a passed gate scores one point per segment.
pub const SCORE_SPEED: u32 = 100000;

} // verus!
