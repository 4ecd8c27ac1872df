use centipede::event::{CrushPoll, EatTail, ThroughGate};
use centipede::gate::{Bar, Gate, Poll};
use centipede::head::Head;
use centipede::interact::{head_and_gate_system, head_and_tail_system};
use centipede::tail::LivingTail;
use centipede::util::{Alive, Centipede, CentipedeContainer, Position, Vec2};

fn at(x: i32, y: i32) -> Position {
    Position { x, y, visible: true }
}

fn walking(from: Position, to: Position) -> CentipedeContainer {
    let mut alive = Alive::default(1);
    alive.position_history = vec![at(-1_000_000, 0), from, to];
    CentipedeContainer { centipede: Centipede::Alive(alive) }
}

fn upright(x: i32, low: i32, high: i32) -> Gate {
    Gate {
        bar: Bar { position: at(x, (low + high) / 2), length: (high - low) as u32, turn: 0 },
        first: Poll { position: at(x, high) },
        second: Poll { position: at(x, low) },
    }
}

struct Outcome {
    gates: Vec<Gate>,
    through: usize,
    crushed: usize,
}

fn meet(container: &CentipedeContainer, head: Position, gates: Vec<Gate>) -> Outcome {
    let mut gates = gates;
    let mut through: Vec<ThroughGate> = Vec::new();
    let mut crushed: Vec<CrushPoll> = Vec::new();
    let done = head_and_gate_system(
        container,
        &Head { position: head },
        &mut gates,
        &mut through,
        &mut crushed,
    );
    assert!(done.is_none());
    Outcome { gates, through: through.len(), crushed: crushed.len() }
}

#[test]
fn a_head_that_goes_between_the_posts_passes() {
    let gate = upright(100_000, -50_000, 50_000);
    let container = walking(at(99_000, 0), at(101_000, 0));
    let outcome = meet(&container, at(101_000, 0), vec![gate]);
    assert_eq!(outcome.through, 1);
    assert_eq!(outcome.crushed, 0);
    assert!(outcome.gates.is_empty());
}

#[test]
fn a_head_that_stops_short_does_not_pass() {
    let gate = upright(100_000, -50_000, 50_000);
    let container = walking(at(98_000, 0), at(99_999, 0));
    let outcome = meet(&container, at(99_999, 0), vec![gate]);
    assert_eq!(outcome.through, 0);
    assert_eq!(outcome.crushed, 0);
    assert_eq!(outcome.gates, vec![gate]);
    let on_the_line = walking(at(98_000, 0), at(100_000, 0));
    assert_eq!(meet(&on_the_line, at(100_000, 0), vec![gate]).through, 0);
}

#[test]
fn a_head_that_goes_round_the_posts_does_not_pass() {
    let gate = upright(100_000, -50_000, 50_000);
    let container = walking(at(99_000, 80_000), at(101_000, 80_000));
    let outcome = meet(&container, at(101_000, 80_000), vec![gate]);
    assert_eq!(outcome.through, 0);
    assert_eq!(outcome.crushed, 0);
    assert_eq!(outcome.gates.len(), 1);
}

#[test]
fn a_head_that_touches_a_post_is_crushed() {
    let gate = upright(100_000, -50_000, 50_000);
    let container = walking(at(80_000, 50_000), at(84_000, 50_000));
    let outcome = meet(&container, at(84_000, 50_000), vec![gate]);
    assert_eq!(outcome.crushed, 1);
    assert_eq!(outcome.through, 0);
    assert!(outcome.gates.is_empty());
    let outcome = meet(&container, at(83_999, 50_000), vec![gate]);
    assert_eq!(outcome.crushed, 0);
    assert_eq!(outcome.gates.len(), 1);
    let outcome = meet(&container, at(100_000, -34_000), vec![gate]);
    assert_eq!(outcome.crushed, 1);
}

#[test]
fn a_head_that_touches_both_posts_is_crushed_twice() {
    let gate = upright(0, -10_000, 10_000);
    let container = walking(at(-10_000, 60_000), at(0, 60_000));
    let outcome = meet(&container, at(0, 0), vec![gate]);
    assert_eq!(outcome.crushed, 2);
    assert_eq!(outcome.through, 0);
    assert!(outcome.gates.is_empty());
}

#[test]
fn a_head_may_pass_and_be_crushed_at_once() {
    let gate = upright(100_000, -50_000, 50_000);
    let container = walking(at(99_000, 40_000), at(101_000, 40_000));
    let outcome = meet(&container, at(101_000, 40_000), vec![gate]);
    assert_eq!(outcome.through, 1);
    assert_eq!(outcome.crushed, 1);
    assert!(outcome.gates.is_empty());
}

#[test]
fn only_the_gates_that_are_met_go() {
    let far = upright(-300_000, -50_000, 50_000);
    let passed = upright(100_000, -50_000, 50_000);
    let other = upright(300_000, 100_000, 200_000);
    let hit = upright(101_000, 16_000, 116_000);
    let container = walking(at(99_000, 0), at(101_000, 0));
    let outcome = meet(&container, at(101_000, 0), vec![far, passed, other, hit]);
    assert_eq!(outcome.gates, vec![far, other]);
    assert_eq!(outcome.through, 1);
    assert_eq!(outcome.crushed, 1);
}

#[test]
fn events_are_added_to_those_already_raised() {
    let gate = upright(100_000, -50_000, 50_000);
    let container = walking(at(99_000, 0), at(101_000, 0));
    let mut gates = vec![gate];
    let mut through = vec![ThroughGate {}, ThroughGate {}];
    let mut crushed = vec![CrushPoll {}];
    head_and_gate_system(
        &container,
        &Head { position: at(101_000, 0) },
        &mut gates,
        &mut through,
        &mut crushed,
    );
    assert_eq!(through.len(), 3);
    assert_eq!(crushed.len(), 1);
}

#[test]
fn a_path_of_one_place_passes_no_gate() {
    let mut alive = Alive::default(1);
    alive.position_history = vec![at(0, 0)];
    let container = CentipedeContainer { centipede: Centipede::Alive(alive) };
    let outcome = meet(&container, at(0, 0), vec![upright(0, -50_000, 50_000)]);
    assert_eq!(outcome.through, 0);
    assert_eq!(outcome.gates.len(), 1);
}

#[test]
fn a_dead_centipede_meets_no_gate() {
    let container = CentipedeContainer { centipede: Centipede::Dead(1) };
    let outcome = meet(&container, at(0, 0), vec![upright(0, -10_000, 10_000)]);
    assert_eq!(outcome.crushed, 0);
    assert_eq!(outcome.through, 0);
    assert_eq!(outcome.gates.len(), 1);
}

fn segment(x: i32, y: i32, visible: bool, index: usize) -> LivingTail {
    LivingTail { position: Position { x, y, visible }, direction: Vec2 { x: 0, y: 0 }, index }
}

#[test]
fn a_head_that_touches_a_segment_bites_it() {
    let container = walking(at(0, 0), at(1, 0));
    let tails = vec![
        segment(8_000, 0, true, 0),
        segment(8_001, 0, true, 1),
        segment(0, 0, false, 2),
        segment(-4_800, 6_400, true, 9),
        segment(-4_800, 6_401, true, 4),
    ];
    let mut events = vec![EatTail { tail_index: 77 }];
    let done =
        head_and_tail_system(&container, &Head { position: at(0, 0) }, &tails, &mut events);
    assert!(done.is_none());
    assert_eq!(
        events,
        vec![EatTail { tail_index: 77 }, EatTail { tail_index: 0 }, EatTail { tail_index: 9 }]
    );
}

#[test]
fn a_hidden_segment_cannot_be_bitten() {
    let container = walking(at(0, 0), at(1, 0));
    let tails: Vec<LivingTail> = (0..30).map(|i| segment(0, 0, false, i)).collect();
    let mut events = Vec::new();
    head_and_tail_system(&container, &Head { position: at(0, 0) }, &tails, &mut events);
    assert!(events.is_empty());
}

#[test]
fn a_dead_centipede_bites_nothing() {
    let container = CentipedeContainer { centipede: Centipede::Dead(1) };
    let tails = vec![segment(0, 0, true, 0)];
    let mut events = Vec::new();
    head_and_tail_system(&container, &Head { position: at(0, 0) }, &tails, &mut events);
    assert!(events.is_empty());
}
