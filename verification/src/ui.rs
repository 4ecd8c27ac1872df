//! The score.

use vstd::prelude::*;
use crate::constants::SCORE_SPEED;
use crate::event::{GameStart, ThroughGate};
use crate::util::{Centipede, CentipedeContainer};

verus! {

/// The score of the present life and the best score so far.
#[derive(Clone, Copy, PartialEq, Eq, Structural, Debug)]
pub struct Status {
    pub score: usize,
    pub high_score: usize,
}

impl Default for Status {
    /// Nothing scored yet.
    fn default() -> (status: Self)
        ensures
            status == (Status { score: 0, high_score: 0 }),
    {
        Status { score: 0, high_score: 0 }
    }
}

/// What one gate is worth to a centipede of `tail_count` segments at
/// `speed`: one point for each segment at `SCORE_SPEED`, more at a higher
/// speed and less at a lower, rounded down.
pub open spec fn gain(tail_count: usize, speed: u32) -> int {
    (tail_count * speed) / (SCORE_SPEED as int)
}

/// The status after one gate worth `gain`: the score grows by it, up to the
/// largest score there is, and the best score follows the score.
pub open spec fn scored(status: Status, gain: int) -> Status {
    let score = if status.score + gain > usize::MAX {
        usize::MAX
    } else {
        (status.score + gain) as usize
    };
    Status {
        score,
        high_score: if score >= status.high_score {
            score
        } else {
            status.high_score
        },
    }
}

/// The status after `gates` gates worth `gain` each.
pub open spec fn scored_times(status: Status, gain: int, gates: nat) -> Status
    decreases gates,
{
    if gates == 0 {
        status
    } else {
        scored_times(scored(status, gain), gain, (gates - 1) as nat)
    }
}

/// Scores the gates that the centipede went through in this tick. A dead
/// centipede scores nothing.
pub fn on_through_gate(
    container: &CentipedeContainer,
    status: &mut Status,
    gate_reader: &Vec<ThroughGate>,
)
    ensures
        !container.is_alive() ==> *final(status) == *old(status),
        container.is_alive() ==> *final(status) == scored_times(
            *old(status),
            gain(container.life().tail_count, container.life().speed),
            gate_reader.len() as nat,
        ),
{
    match &container.centipede {
        Centipede::Alive(centipede) => {
            assert(0 <= centipede.tail_count * centipede.speed <= 0xffff_ffff_ffff_ffff
                * 0xffff_ffff) by (nonlinear_arith)
                requires
                    0 <= centipede.tail_count <= 0xffff_ffff_ffff_ffff,
                    0 <= centipede.speed <= 0xffff_ffff,
            ;
            let worth: u128 = (centipede.tail_count as u128 * centipede.speed as u128)
                / SCORE_SPEED as u128;
            let mut i: usize = 0;
            while i < gate_reader.len()
                invariant
                    i <= gate_reader.len(),
                    worth == gain(centipede.tail_count, centipede.speed),
                    worth <= 0xffff_ffff_ffff_ffff_ffff_ffff,
                    scored_times(*status, worth as int, (gate_reader.len() - i) as nat)
                        == scored_times(*old(status), worth as int, gate_reader.len() as nat),
                decreases gate_reader.len() - i,
            {
                let sum: u128 = status.score as u128 + worth;
                status.score = if sum > usize::MAX as u128 {
                    usize::MAX
                } else {
                    sum as usize
                };
                if status.score >= status.high_score {
                    status.high_score = status.score;
                }
                i = i + 1;
            }
        },
        Centipede::Dead(_) => {},
    }
}

/// With a new life the score starts again at zero; the best score stays.
pub fn on_game_start(status: &mut Status, start_reader: &Vec<GameStart>)
    ensures
        start_reader.len() == 0 ==> *final(status) == *old(status),
        start_reader.len() > 0 ==> *final(status) == (Status { score: 0, ..*old(status) }),
{
    if start_reader.len() > 0 {
        status.score = 0;
    }
}

} // verus!
