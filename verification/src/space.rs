//! The board: a grid of panels around the origin.

use vstd::prelude::*;
use crate::constants::{PANEL_SIZE, PANEL_X_COUNT, PANEL_Y_COUNT};
use crate::number::{clamp_coord, coord};
use crate::util::Position;

verus! {

/// The middle of the panel in column `x` and row `y`, both counted from the
/// panel at the origin.
pub open spec fn panel_at(x: int, y: int) -> Position {
    Position {
        x: clamp_coord(x * PANEL_SIZE) as i32,
        y: clamp_coord(y * PANEL_SIZE) as i32,
        visible: true,
    }
}

/// The middle of the panel in column `x` and row `y`.
pub fn block(x: i32, y: i32) -> (panel: Position)
    ensures
        panel == panel_at(x as int, y as int),
{
    assert(-0x8000_0000 * 50000 <= x * PANEL_SIZE <= 0x8000_0000 * 50000) by (nonlinear_arith)
        requires
            PANEL_SIZE == 50000,
            -0x8000_0000 <= x <= 0x8000_0000,
    ;
    assert(-0x8000_0000 * 50000 <= y * PANEL_SIZE <= 0x8000_0000 * 50000) by (nonlinear_arith)
        requires
            PANEL_SIZE == 50000,
            -0x8000_0000 <= y <= 0x8000_0000,
    ;
    Position {
        x: coord(x as i128 * PANEL_SIZE as i128),
        y: coord(y as i128 * PANEL_SIZE as i128),
        visible: true,
    }
}

/// The panels of the board, column by column from the left and in each
/// column from the bottom up, with the middle panel at the origin.
pub open spec fn panels() -> Seq<Position> {
    Seq::new(
        (PANEL_X_COUNT * PANEL_Y_COUNT) as nat,
        |i: int|
            panel_at(
                i / (PANEL_Y_COUNT as int) - (PANEL_X_COUNT - 1) / 2,
                i % (PANEL_Y_COUNT as int) - (PANEL_Y_COUNT - 1) / 2,
            ),
    )
}

/// Lays out the panels of the board.
pub fn setup_system() -> (made: Vec<Position>)
    ensures
        made@ == panels(),
{
    let mut made: Vec<Position> = Vec::new();
    let mut x: i32 = 0;
    while x < PANEL_X_COUNT
        invariant
            0 <= x <= PANEL_X_COUNT,
            made.len() == x * PANEL_Y_COUNT,
            forall|i: int| 0 <= i < made.len() ==> made[i] == panels()[i],
        decreases PANEL_X_COUNT - x,
    {
        let mut y: i32 = 0;
        while y < PANEL_Y_COUNT
            invariant
                0 <= x < PANEL_X_COUNT,
                0 <= y <= PANEL_Y_COUNT,
                made.len() == x * PANEL_Y_COUNT + y,
                forall|i: int| 0 <= i < made.len() ==> made[i] == panels()[i],
            decreases PANEL_Y_COUNT - y,
        {
            let panel = block(x - (PANEL_X_COUNT - 1) / 2, y - (PANEL_Y_COUNT - 1) / 2);
            made.push(panel);
            y = y + 1;
        }
        x = x + 1;
    }
    assert(made@ =~= panels());
    made
}

} // verus!
