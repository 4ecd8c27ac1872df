//! What the head runs into: the posts of a gate, the gap between them, and
//! its own chain.

use vstd::prelude::*;
use crate::constants::{HEAD_SIZE, POLL_SIZE};
use crate::event::{CrushPoll, EatTail, ThroughGate};
use crate::gate::{Gate, Poll};
use crate::head::Head;
use crate::tail::LivingTail;
use crate::util::{crosses, intersection, CentipedeContainer, Position};

verus! {

/// The head at `head` touches the post.
pub open spec fn hits(head: Position, poll: Poll) -> bool {
    head.spec_within(poll.position, POLL_SIZE + HEAD_SIZE)
}

/// How many posts of `gate` the head touches.
pub open spec fn crush_count(head: Position, gate: Gate) -> nat {
    (if hits(head, gate.first) {
        1nat
    } else {
        0nat
    }) + (if hits(head, gate.second) {
        1nat
    } else {
        0nat
    })
}

/// The head's last step crossed the line between the posts of `gate`. A path
/// of fewer than two places holds no step.
pub open spec fn passes(history: Seq<Position>, gate: Gate) -> bool {
    history.len() >= 2 && crosses(
        history[history.len() - 1],
        history[history.len() - 2],
        gate.first.position,
        gate.second.position,
    )
}

/// `gate` is gone after this tick: the head touched a post or went
/// through.
pub open spec fn struck(head: Position, history: Seq<Position>, gate: Gate) -> bool {
    crush_count(head, gate) > 0 || passes(history, gate)
}

/// How many posts of `gates` the head touches.
pub open spec fn crushes(head: Position, gates: Seq<Gate>) -> nat
    decreases gates.len(),
{
    if gates.len() == 0 {
        0
    } else {
        crushes(head, gates.drop_last()) + crush_count(head, gates.last())
    }
}

/// How many gates of `gates` the head's last step went through.
pub open spec fn passages(history: Seq<Position>, gates: Seq<Gate>) -> nat
    decreases gates.len(),
{
    if gates.len() == 0 {
        0
    } else {
        passages(history, gates.drop_last()) + (if passes(history, gates.last()) {
            1nat
        } else {
            0nat
        })
    }
}

/// The gates that are left: those that the head neither touched nor passed.
pub open spec fn standing(head: Position, history: Seq<Position>, gates: Seq<Gate>) -> Seq<Gate> {
    gates.filter(|gate: Gate| !struck(head, history, gate))
}

/// Holds the head against every gate.
///
/// Each post that the head touches raises one `CrushPoll`, and each gate
/// whose posts the head's last step went between raises one `ThroughGate`;
/// a gate may raise both. Every such gate is taken off the board. Nothing
/// happens while the centipede is dead.
pub fn head_and_gate_system(
    container: &CentipedeContainer,
    head: &Head,
    gates: &mut Vec<Gate>,
    through_gate_events: &mut Vec<ThroughGate>,
    crush_gate_events: &mut Vec<CrushPoll>,
) -> (done: Option<()>)
    ensures
        done.is_none(),
        !container.is_alive() ==> final(gates)@ == old(gates)@ && final(through_gate_events)@
            == old(through_gate_events)@ && final(crush_gate_events)@ == old(crush_gate_events)@,
        container.is_alive() ==> ({
            let history = container.life().position_history@;
            &&& final(gates)@ == standing(head.position, history, old(gates)@)
            &&& final(crush_gate_events)@ == old(crush_gate_events)@ + Seq::new(
                crushes(head.position, old(gates)@),
                |i: int| CrushPoll {  },
            )
            &&& final(through_gate_events)@ == old(through_gate_events)@ + Seq::new(
                passages(history, old(gates)@),
                |i: int| ThroughGate {  },
            )
        }),
{
    let centipede = match container.alive() {
        Some(centipede) => centipede,
        None => {
            return None;
        },
    };
    let ghost history = centipede.position_history@;
    let ghost stands = |gate: Gate| !struck(head.position, history, gate);
    let steps = centipede.position_history.len();
    let reach = POLL_SIZE + HEAD_SIZE;
    let mut left: Vec<Gate> = Vec::new();
    let total = gates.len();
    let mut i: usize = 0;
    assert(gates@.take(0) =~= Seq::<Gate>::empty());
    assert(crush_gate_events@ =~= old(crush_gate_events)@ + Seq::new(
        crushes(head.position, gates@.take(0)),
        |i: int| CrushPoll {  },
    ));
    assert(through_gate_events@ =~= old(through_gate_events)@ + Seq::new(
        passages(history, gates@.take(0)),
        |i: int| ThroughGate {  },
    ));
    while i < total
        invariant
            total == gates.len(),
            gates@ == old(gates)@,
            i <= total,
            history == centipede.position_history@,
            steps == history.len(),
            reach == POLL_SIZE + HEAD_SIZE,
            stands == |gate: Gate| !struck(head.position, history, gate),
            left@ == gates@.take(i as int).filter(stands),
            crush_gate_events@ == old(crush_gate_events)@ + Seq::new(
                crushes(head.position, gates@.take(i as int)),
                |i: int| CrushPoll {  },
            ),
            through_gate_events@ == old(through_gate_events)@ + Seq::new(
                passages(history, gates@.take(i as int)),
                |i: int| ThroughGate {  },
            ),
        decreases total - i,
    {
        let gate = gates[i];
        let ghost crushed_before = crush_gate_events@;
        proof {
            assert(gates@.take(i + 1).drop_last() =~= gates@.take(i as int));
            assert(gates@.take(i + 1) =~= gates@.take(i as int).push(gate));
            gates@.take(i as int).lemma_filter_push(gate, stands);
        }
        let mut gone = false;
        if head.position.within(&gate.first.position, reach) {
            gone = true;
            crush_gate_events.push(CrushPoll {  });
        }
        if head.position.within(&gate.second.position, reach) {
            gone = true;
            crush_gate_events.push(CrushPoll {  });
        }
        if steps >= 2 && intersection(
            &centipede.position_history[steps - 1],
            &centipede.position_history[steps - 2],
            &gate.first.position,
            &gate.second.position,
        ) {
            gone = true;
            through_gate_events.push(ThroughGate {  });
        }
        if !gone {
            left.push(gate);
        }
        i = i + 1;
        assert(crush_gate_events@ =~= old(crush_gate_events)@ + Seq::new(
            crushes(head.position, gates@.take(i as int)),
            |i: int| CrushPoll {  },
        ));
        assert(through_gate_events@ =~= old(through_gate_events)@ + Seq::new(
            passages(history, gates@.take(i as int)),
            |i: int| ThroughGate {  },
        ));
    }
    assert(gates@.take(total as int) =~= gates@);
    *gates = left;
    None
}

/// The head at `head` touches the segment, which is shown.
pub open spec fn bites(head: Position, tail: LivingTail) -> bool {
    tail.position.visible && head.spec_within(tail.position, HEAD_SIZE as int)
}

/// The bites that the head takes of `tails`, in the order of the segments.
pub open spec fn bitten(head: Position, tails: Seq<LivingTail>) -> Seq<EatTail> {
    tails.filter(|tail: LivingTail| bites(head, tail)).map_values(
        |tail: LivingTail| EatTail { tail_index: tail.index },
    )
}

/// Holds the head against its own chain: each shown segment that it touches
/// raises one `EatTail` with the segment's index. Segments that have no
/// place yet are hidden and cannot be touched. Nothing happens while the
/// centipede is dead.
pub fn head_and_tail_system(
    container: &CentipedeContainer,
    head: &Head,
    tails: &Vec<LivingTail>,
    eat_tail_events: &mut Vec<EatTail>,
) -> (done: Option<()>)
    ensures
        done.is_none(),
        !container.is_alive() ==> final(eat_tail_events)@ == old(eat_tail_events)@,
        container.is_alive() ==> final(eat_tail_events)@ == old(eat_tail_events)@ + bitten(
            head.position,
            tails@,
        ),
{
    if container.head_entity().is_none() {
        return None;
    }
    let ghost touched = |tail: LivingTail| bites(head.position, tail);
    let ghost told = |tail: LivingTail| EatTail { tail_index: tail.index };
    let mut i: usize = 0;
    assert(tails@.take(0) =~= Seq::<LivingTail>::empty());
    assert(eat_tail_events@ =~= old(eat_tail_events)@ + tails@.take(0).filter(
        touched,
    ).map_values(told));
    while i < tails.len()
        invariant
            i <= tails.len(),
            touched == |tail: LivingTail| bites(head.position, tail),
            told == |tail: LivingTail| (EatTail { tail_index: tail.index }),
            eat_tail_events@ == old(eat_tail_events)@ + tails@.take(i as int).filter(
                touched,
            ).map_values(told),
        decreases tails.len() - i,
    {
        let tail = tails[i];
        proof {
            assert(tails@.take(i + 1) =~= tails@.take(i as int).push(tail));
            tails@.take(i as int).lemma_filter_push(tail, touched);
        }
        if tail.position.visible && head.position.within(&tail.position, HEAD_SIZE) {
            eat_tail_events.push(EatTail { tail_index: tail.index });
        }
        i = i + 1;
        assert(eat_tail_events@ =~= old(eat_tail_events)@ + tails@.take(i as int).filter(
            touched,
        ).map_values(told));
    }
    assert(tails@.take(tails.len() as int) =~= tails@);
    None
}

} // verus!
