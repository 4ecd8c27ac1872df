//! What the stages tell one another, and the two stages that end a life and
//! start the next.

use vstd::prelude::*;
use crate::constants::RESTART_DELAY;
use crate::util::{Centipede, CentipedeContainer};

verus! {

/// A life begins.
#[derive(Clone, Copy, PartialEq, Eq, Structural, Debug)]
pub struct GameStart {}

/// The centipede has died; `head_entity` is what the surrounding program
/// knew its head by.
#[derive(Clone, Copy, PartialEq, Eq, Structural, Debug)]
pub struct GameOver {
    pub head_entity: u64,
}

/// The head ran into a gate's post.
#[derive(Clone, Copy, PartialEq, Eq, Structural, Debug)]
pub struct CrushPoll {}

/// The head went through a gate.
#[derive(Clone, Copy, PartialEq, Eq, Structural, Debug)]
pub struct ThroughGate {}

/// The head ran into the segment with this index.
#[derive(Clone, Copy, PartialEq, Eq, Structural, Debug)]
pub struct EatTail {
    pub tail_index: usize,
}

/// The player tapped.
#[derive(Clone, Copy, PartialEq, Eq, Structural, Debug)]
pub struct Tap {}

/// Ends the life of a centipede that has no segment left: the death is
/// announced with the head that it leaves behind, and the centipede is dead
/// since `now`. Any other centipede is left alone.
pub fn game_over_system(
    now: u64,
    container: &mut CentipedeContainer,
    game_over_events: &mut Vec<GameOver>,
) -> (done: Option<()>)
    ensures
        done.is_none(),
        old(container).is_alive() && old(container).life().tail_count == 0 ==> final(container).centipede == Centipede::Dead(now) && final(game_over_events)@ == old(game_over_events)@.push(GameOver { head_entity: old(container).life().head_entity }),
        !(old(container).is_alive() && old(container).life().tail_count == 0) ==> *final(container) == *old(container) && final(game_over_events)@ == old(game_over_events)@,
{
    let head_entity = match container.alive() {
        Some(centipede) => {
            if centipede.tail_count > 0 {
                return None;
            }
            centipede.head_entity
        },
        None => {
            return None;
        },
    };
    game_over_events.push(GameOver { head_entity });
    container.centipede = Centipede::Dead(now);
    None
}

/// Whether a life may begin at `now`: the centipede is dead, and either it
/// never lived or it has been dead for longer than `RESTART_DELAY`.
pub open spec fn may_start(centipede: Centipede, now: u64) -> bool {
    match centipede {
        Centipede::Dead(dead_at) => dead_at == 0 || dead_at + RESTART_DELAY < now,
        Centipede::Alive(_) => false,
    }
}

/// Announces a new life as soon as one may begin.
pub fn game_start_system(
    now: u64,
    container: &CentipedeContainer,
    game_start_events: &mut Vec<GameStart>,
)
    ensures
        may_start(container.centipede, now) ==> final(game_start_events)@ == old(game_start_events)@.push(GameStart {  }),
        !may_start(container.centipede, now) ==> final(game_start_events)@ == old(game_start_events)@,
{
    match container.centipede {
        Centipede::Dead(dead_at) => {
            if dead_at == 0 || (now >= RESTART_DELAY && dead_at < now - RESTART_DELAY) {
                game_start_events.push(GameStart {  });
            }
        },
        Centipede::Alive(_) => {},
    }
}

} // verus!
