//! The simulation core of a steering game: a head that drags a chain of
//! segments through gates.
//!
//! Every stage of a tick is a function of its own, from the state that it
//! reads and the events that it hears to the state and the events that it
//! leaves. The program around the core runs the stages, tick by tick, and
//! draws what they leave.
//!
//! The core counts in whole numbers. Lengths are thousandths of a world
//! unit, times are milliseconds, and speeds are thousandths of a unit per
//! second. A coordinate has 32 bits; a point that a move would carry past
//! the last coordinate stays there. Where a length has to be rounded, it is
//! rounded to the nearest whole number, unless a function says otherwise.
//!
//! Two things the core takes from its caller, because they need angles: the
//! direction in which a circling head lies from its centre after a tick,
//! and the direction in which a turned bar runs.

pub mod constants;
pub mod event;
pub mod gate;
pub mod head;
pub mod input;
pub mod interact;
pub mod number;
pub mod space;
pub mod tail;
pub mod ui;
pub mod util;
