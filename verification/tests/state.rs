use centipede::constants::{DEFAULT_SPEED, INITIAL_CENTIPEDE_LENGTH};
use centipede::event::{game_over_system, game_start_system, GameOver, GameStart};
use centipede::util::{Alive, Centipede, CentipedeContainer, Movement, Position, Vec2};

#[test]
fn a_container_starts_dead_at_time_zero() {
    let container = CentipedeContainer::default();
    assert!(matches!(container.centipede, Centipede::Dead(0)));
    assert!(container.alive().is_none());
    assert_eq!(container.head_entity(), None);
}

#[test]
fn a_new_life_heads_right_from_the_origin() {
    let alive = Alive::default(42);
    assert_eq!(alive.head_entity, 42);
    assert_eq!(alive.speed, DEFAULT_SPEED);
    assert_eq!(alive.speed, 100_000);
    assert_eq!(alive.movement, Movement::Linear(Vec2 { x: 1000, y: 0 }));
    assert_eq!(alive.last_move, Vec2 { x: 1000, y: 0 });
    assert_eq!(alive.tail_count, INITIAL_CENTIPEDE_LENGTH);
    assert_eq!(alive.tail_count, 30);
    assert_eq!(
        alive.position_history,
        vec![
            Position { x: -1_000_000, y: 0, visible: true },
            Position { x: 0, y: 0, visible: true },
        ]
    );
}

#[test]
fn alive_gives_the_centipede_in_play() {
    let container = CentipedeContainer { centipede: Centipede::Alive(Alive::default(3)) };
    assert_eq!(container.alive().unwrap().head_entity, 3);
    assert_eq!(container.head_entity(), Some(3));
}

#[test]
fn alive_mut_changes_the_centipede_in_place() {
    let mut container = CentipedeContainer { centipede: Centipede::Alive(Alive::default(3)) };
    container.alive_mut().unwrap().tail_count = 7;
    assert_eq!(container.alive().unwrap().tail_count, 7);
    let mut dead = CentipedeContainer { centipede: Centipede::Dead(5) };
    assert!(dead.alive_mut().is_none());
    assert!(matches!(dead.centipede, Centipede::Dead(5)));
}

#[test]
fn the_first_life_starts_at_once() {
    let container = CentipedeContainer::default();
    let mut events: Vec<GameStart> = Vec::new();
    game_start_system(0, &container, &mut events);
    assert_eq!(events.len(), 1);
    game_start_system(123_456, &container, &mut events);
    assert_eq!(events.len(), 2);
}

#[test]
fn the_next_life_waits_for_the_delay() {
    let container = CentipedeContainer { centipede: Centipede::Dead(10_000) };
    let mut events: Vec<GameStart> = Vec::new();
    game_start_system(10_000, &container, &mut events);
    game_start_system(11_999, &container, &mut events);
    game_start_system(12_000, &container, &mut events);
    game_start_system(5, &container, &mut events);
    assert_eq!(events.len(), 0);
    game_start_system(12_001, &container, &mut events);
    assert_eq!(events.len(), 1);
}

#[test]
fn the_delay_is_counted_to_the_end_of_time() {
    let container = CentipedeContainer { centipede: Centipede::Dead(u64::MAX - 5) };
    let mut events: Vec<GameStart> = Vec::new();
    game_start_system(u64::MAX, &container, &mut events);
    assert_eq!(events.len(), 0);
}

#[test]
fn no_life_starts_while_one_is_in_play() {
    let container = CentipedeContainer { centipede: Centipede::Alive(Alive::default(1)) };
    let mut events: Vec<GameStart> = Vec::new();
    game_start_system(1_000_000, &container, &mut events);
    assert!(events.is_empty());
}

#[test]
fn a_centipede_without_segments_dies() {
    let mut alive = Alive::default(9);
    alive.tail_count = 0;
    let mut container = CentipedeContainer { centipede: Centipede::Alive(alive) };
    let mut events: Vec<GameOver> = Vec::new();
    let done = game_over_system(4321, &mut container, &mut events);
    assert!(done.is_none());
    assert_eq!(events, vec![GameOver { head_entity: 9 }]);
    assert!(matches!(container.centipede, Centipede::Dead(4321)));
}

#[test]
fn a_centipede_with_segments_lives_on() {
    let mut alive = Alive::default(9);
    alive.tail_count = 1;
    let mut container = CentipedeContainer { centipede: Centipede::Alive(alive) };
    let mut events: Vec<GameOver> = Vec::new();
    game_over_system(4321, &mut container, &mut events);
    assert!(events.is_empty());
    assert_eq!(container.alive().unwrap().tail_count, 1);
}

#[test]
fn a_dead_centipede_does_not_die_again() {
    let mut container = CentipedeContainer { centipede: Centipede::Dead(77) };
    let mut events: Vec<GameOver> = Vec::new();
    game_over_system(4321, &mut container, &mut events);
    assert!(events.is_empty());
    assert!(matches!(container.centipede, Centipede::Dead(77)));
}
