//! What the player does: where the cursor points, and when the button goes
//! down.

use vstd::prelude::*;
use crate::event::Tap;
use crate::util::Position;

verus! {

/// The cursor's place on the board, and whether the button was down when it
/// was last read.
#[derive(Clone, Copy, PartialEq, Eq, Structural, Debug)]
pub struct CursorState {
    pub position: Position,
    pub left_pressed: bool,
}

impl Default for CursorState {
    /// The cursor at the origin, the button up.
    fn default() -> (state: Self)
        ensures
            state == (CursorState {
                position: Position { x: 0, y: 0, visible: true },
                left_pressed: false,
            }),
    {
        CursorState { position: Position::default(true), left_pressed: false }
    }
}

/// Takes in one reading of the cursor and the button. A button that is down
/// and was up at the reading before is a tap; one that stays down is none.
pub fn read_input_system(
    pressed: bool,
    position: Position,
    cursor_state: &mut CursorState,
    tap_events: &mut Vec<Tap>,
)
    ensures
        *final(cursor_state) == (CursorState { position, left_pressed: pressed }),
        !old(cursor_state).left_pressed && pressed ==> final(tap_events)@ == old(tap_events)@.push(
            Tap {  },
        ),
        !(!old(cursor_state).left_pressed && pressed) ==> final(tap_events)@ == old(tap_events)@,
{
    if !cursor_state.left_pressed && pressed {
        tap_events.push(Tap {  });
    }
    cursor_state.left_pressed = pressed;
    cursor_state.position = position;
}

} // verus!
