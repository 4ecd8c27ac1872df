use centipede::event::{
    game_over_system, CrushPoll, EatTail, GameOver, GameStart, ThroughGate,
};
use centipede::tail::{
    chain_points, move_tail_system, on_game_start, on_miss, on_through_gate, purge_tail,
    purged_tail_system, tail_bundle, LivingTail, PurgedTail,
};
use centipede::util::{Alive, Centipede, CentipedeContainer, Position, Vec2};

fn at(x: i32, y: i32) -> Position {
    Position { x, y, visible: true }
}

fn living(alive: Alive) -> CentipedeContainer {
    CentipedeContainer { centipede: Centipede::Alive(alive) }
}

fn fresh(index: usize) -> LivingTail {
    LivingTail {
        position: Position { x: 0, y: 0, visible: false },
        direction: Vec2 { x: 0, y: 0 },
        index,
    }
}

fn placed(x: i32, y: i32, index: usize) -> LivingTail {
    LivingTail { position: at(x, y), direction: Vec2 { x: 1000, y: 0 }, index }
}

#[test]
fn chain_points_lie_one_spacing_apart() {
    let history = vec![at(-1_000_000, 0), at(0, 0)];
    let points = chain_points(&history, 30_000, 30);
    assert_eq!(points.len(), 31);
    for (j, point) in points.iter().enumerate() {
        assert_eq!(*point, at(-30_000 * (j as i32 + 1), 0));
    }
}

#[test]
fn chain_points_stop_where_the_path_ends() {
    let history = vec![at(-100_000, 0), at(0, 0)];
    let points = chain_points(&history, 30_000, 30);
    assert_eq!(points, vec![at(-30_000, 0), at(-60_000, 0), at(-90_000, 0)]);
    assert_eq!(chain_points(&history, 100_000, 30), vec![at(-100_000, 0)]);
    assert!(chain_points(&history, 100_001, 30).is_empty());
}

#[test]
fn chain_points_give_one_more_than_the_count() {
    let history = vec![at(-100_000, 0), at(0, 0)];
    assert_eq!(chain_points(&history, 30_000, 0), vec![at(-30_000, 0)]);
    assert_eq!(chain_points(&history, 30_000, 1), vec![at(-30_000, 0), at(-60_000, 0)]);
    assert_eq!(chain_points(&history, 30_000, usize::MAX).len(), 3);
}

#[test]
fn chain_points_need_two_places() {
    assert!(chain_points(&Vec::new(), 30_000, 30).is_empty());
    assert!(chain_points(&vec![at(5, 5)], 30_000, 30).is_empty());
    assert!(chain_points(&vec![at(5, 5), at(5, 5)], 30_000, 30).is_empty());
}

#[test]
fn chain_points_follow_the_path_round_a_corner() {
    let history = vec![at(0, -100_000), at(0, 0), at(50_000, 0)];
    let points = chain_points(&history, 30_000, 30);
    assert_eq!(
        points,
        vec![at(20_000, 0), at(0, -10_000), at(0, -40_000), at(0, -70_000), at(0, -100_000)]
    );
}

#[test]
fn chain_points_span_many_short_steps() {
    let mut history = Vec::new();
    for i in 0..=100 {
        history.push(at(i * 1600, 0));
    }
    let points = chain_points(&history, 30_000, 30);
    assert_eq!(points.len(), 5);
    for (j, point) in points.iter().enumerate() {
        assert_eq!(*point, at(160_000 - 30_000 * (j as i32 + 1), 0));
    }
}

#[test]
fn chain_points_skip_places_where_the_head_rested() {
    let history = vec![at(-60_000, 0), at(-60_000, 0), at(0, 0), at(0, 0)];
    assert_eq!(chain_points(&history, 30_000, 30), vec![at(-30_000, 0), at(-60_000, 0)]);
}

#[test]
fn segments_lie_on_the_chain_points() {
    let mut alive = Alive::default(1);
    alive.tail_count = 3;
    alive.position_history = vec![at(-100_000, 0), at(0, 0), at(0, 20_000)];
    let container = living(alive);
    let mut tails = vec![fresh(2), fresh(0), fresh(1), fresh(7)];
    let done = move_tail_system(&container, &mut tails);
    assert!(done.is_none());
    assert_eq!(
        tails,
        vec![
            LivingTail { position: at(-70_000, 0), direction: Vec2 { x: 30_000, y: 0 }, index: 2 },
            LivingTail {
                position: at(-10_000, 0),
                direction: Vec2 { x: 10_000, y: 20_000 },
                index: 0
            },
            LivingTail { position: at(-40_000, 0), direction: Vec2 { x: 30_000, y: 0 }, index: 1 },
            fresh(7),
        ]
    );
}

#[test]
fn the_point_after_the_last_segment_places_a_segment_too() {
    let mut alive = Alive::default(1);
    alive.tail_count = 1;
    alive.position_history = vec![at(-100_000, 0), at(0, 0)];
    let container = living(alive);
    let mut tails = vec![fresh(0), fresh(1), fresh(2)];
    move_tail_system(&container, &mut tails);
    assert_eq!(tails[0].position, at(-30_000, 0));
    assert_eq!(tails[1].position, at(-60_000, 0));
    assert_eq!(tails[2], fresh(2));
}

#[test]
fn placing_the_segments_twice_changes_nothing() {
    let mut alive = Alive::default(1);
    alive.position_history =
        vec![at(-300_000, 0), at(-20_000, 7_000), at(0, 0), at(13_000, 55_000), at(90_000, 1)];
    let container = living(alive);
    let mut once: Vec<LivingTail> = (0..30).map(fresh).collect();
    move_tail_system(&container, &mut once);
    let mut twice = once.clone();
    move_tail_system(&container, &mut twice);
    assert_eq!(once, twice);
    let mut other: Vec<LivingTail> = (0..30).map(|i| placed(5, -5, i)).collect();
    move_tail_system(&container, &mut other);
    for (a, b) in once.iter().zip(other.iter()) {
        if a.position.visible {
            assert_eq!(a, b);
        }
    }
    assert!(once[0].position.visible);
    assert!(!once[29].position.visible);
}

#[test]
fn the_segments_of_a_dead_centipede_stay() {
    let container = CentipedeContainer { centipede: Centipede::Dead(3) };
    let mut tails = vec![fresh(0), placed(1, 2, 1)];
    move_tail_system(&container, &mut tails);
    assert_eq!(tails, vec![fresh(0), placed(1, 2, 1)]);
}

#[test]
fn tail_bundle_adds_a_hidden_segment() {
    let mut commands = vec![placed(1, 1, 0)];
    tail_bundle(&mut commands, 5);
    assert_eq!(commands, vec![placed(1, 1, 0), fresh(5)]);
}

fn drifting(x: i32) -> PurgedTail {
    PurgedTail { position: at(x, 0), direction: Vec2 { x: 0, y: 1 }, removed_at: 10, speed: 1000 }
}

#[test]
fn a_start_signal_makes_a_new_chain() {
    let mut tails = vec![placed(1, 1, 4), placed(2, 2, 9)];
    let mut purged = vec![drifting(3)];
    on_game_start(&mut tails, &mut purged, &vec![GameStart {}, GameStart {}]);
    assert_eq!(tails.len(), 30);
    for (i, tail) in tails.iter().enumerate() {
        assert_eq!(*tail, fresh(i));
    }
    assert!(purged.is_empty());
}

#[test]
fn without_a_start_signal_the_chain_stays() {
    let mut tails = vec![placed(1, 1, 4)];
    let mut purged = vec![drifting(3)];
    on_game_start(&mut tails, &mut purged, &Vec::new());
    assert_eq!(tails, vec![placed(1, 1, 4)]);
    assert_eq!(purged, vec![drifting(3)]);
}

#[test]
fn a_passed_gate_adds_a_segment() {
    let mut container = living(Alive::default(1));
    let mut tails: Vec<LivingTail> = (0..30).map(fresh).collect();
    let done = on_through_gate(&mut tails, &mut container, &vec![ThroughGate {}]);
    assert!(done.is_none());
    assert_eq!(container.alive().unwrap().tail_count, 31);
    assert_eq!(tails.len(), 31);
    assert_eq!(tails[30], fresh(30));
    on_through_gate(&mut tails, &mut container, &vec![ThroughGate {}, ThroughGate {}]);
    assert_eq!(container.alive().unwrap().tail_count, 33);
    assert_eq!(tails[31], fresh(31));
    assert_eq!(tails[32], fresh(32));
    on_through_gate(&mut tails, &mut container, &Vec::new());
    assert_eq!(container.alive().unwrap().tail_count, 33);
    assert_eq!(tails.len(), 33);
}

#[test]
fn a_dead_centipede_does_not_grow() {
    let mut container = CentipedeContainer { centipede: Centipede::Dead(1) };
    let mut tails = vec![fresh(0)];
    on_through_gate(&mut tails, &mut container, &vec![ThroughGate {}]);
    assert_eq!(tails, vec![fresh(0)]);
    assert!(matches!(container.centipede, Centipede::Dead(1)));
}

fn chain_of(count: usize) -> Vec<LivingTail> {
    (0..count).map(|i| placed(-30_000 * (i as i32 + 1), 0, i)).collect()
}

#[test]
fn a_bite_at_segment_4_of_10_leaves_4() {
    let mut alive = Alive::default(1);
    alive.tail_count = 10;
    let mut container = living(alive);
    let mut tails = chain_of(10);
    let mut purged: Vec<PurgedTail> = Vec::new();
    let done = on_miss(
        &mut tails,
        &mut purged,
        &mut container,
        7000,
        &vec![EatTail { tail_index: 4 }],
        &Vec::new(),
    );
    assert!(done.is_none());
    assert_eq!(container.alive().unwrap().tail_count, 4);
    assert_eq!(tails, chain_of(4));
    assert_eq!(purged.len(), 6);
    let speeds = [85_714u32, 71_428, 57_142, 42_857, 28_571, 14_285];
    for (k, tail) in purged.iter().enumerate() {
        let index = 4 + k;
        assert_eq!(
            *tail,
            PurgedTail {
                position: at(-30_000 * (index as i32 + 1), 0),
                direction: Vec2 { x: 1000, y: 0 },
                removed_at: 9500,
                speed: speeds[k],
            }
        );
    }
    for pair in purged.windows(2) {
        assert!(pair[0].speed > pair[1].speed);
    }
}

#[test]
fn a_crush_halves_the_chain() {
    let mut alive = Alive::default(1);
    alive.tail_count = 10;
    alive.speed = 60_000;
    let mut container = living(alive);
    let mut tails = chain_of(10);
    let mut purged = vec![drifting(1)];
    on_miss(&mut tails, &mut purged, &mut container, 100, &Vec::new(), &vec![CrushPoll {}]);
    assert_eq!(container.alive().unwrap().tail_count, 5);
    assert_eq!(tails, chain_of(5));
    assert_eq!(purged.len(), 6);
    assert_eq!(purged[0], drifting(1));
    let speeds: Vec<u32> = purged[1..].iter().map(|tail| tail.speed).collect();
    assert_eq!(speeds, vec![50_000, 40_000, 30_000, 20_000, 10_000]);
    assert!(purged[1..].iter().all(|tail| tail.removed_at == 2600));
}

#[test]
fn a_crush_of_an_odd_chain_rounds_down() {
    let mut alive = Alive::default(1);
    alive.tail_count = 7;
    let mut container = living(alive);
    let mut tails = chain_of(7);
    let mut purged = Vec::new();
    on_miss(&mut tails, &mut purged, &mut container, 0, &Vec::new(), &vec![CrushPoll {}]);
    assert_eq!(container.alive().unwrap().tail_count, 3);
    assert_eq!(tails, chain_of(3));
    assert_eq!(purged.len(), 4);
}

#[test]
fn two_crushes_halve_twice() {
    let mut alive = Alive::default(1);
    alive.tail_count = 10;
    let mut container = living(alive);
    let mut tails = chain_of(10);
    let mut purged = Vec::new();
    on_miss(
        &mut tails,
        &mut purged,
        &mut container,
        0,
        &Vec::new(),
        &vec![CrushPoll {}, CrushPoll {}],
    );
    assert_eq!(container.alive().unwrap().tail_count, 2);
    assert_eq!(tails, chain_of(2));
    let speeds: Vec<u32> = purged.iter().map(|tail| tail.speed).collect();
    assert_eq!(
        speeds,
        vec![83_333, 66_666, 50_000, 33_333, 16_666, 75_000, 50_000, 25_000]
    );
}

#[test]
fn crushes_come_before_bites() {
    let mut alive = Alive::default(1);
    alive.tail_count = 10;
    let mut container = living(alive);
    let mut tails = chain_of(10);
    let mut purged = Vec::new();
    on_miss(
        &mut tails,
        &mut purged,
        &mut container,
        0,
        &vec![EatTail { tail_index: 7 }, EatTail { tail_index: 2 }],
        &vec![CrushPoll {}],
    );
    assert_eq!(container.alive().unwrap().tail_count, 2);
    assert_eq!(tails, chain_of(2));
    assert_eq!(purged.len(), 8);
}

#[test]
fn a_bite_beyond_the_chain_changes_nothing() {
    let mut alive = Alive::default(1);
    alive.tail_count = 4;
    let mut container = living(alive);
    let mut tails = chain_of(4);
    let mut purged = Vec::new();
    on_miss(
        &mut tails,
        &mut purged,
        &mut container,
        0,
        &vec![EatTail { tail_index: 4 }, EatTail { tail_index: 9 }],
        &Vec::new(),
    );
    assert_eq!(container.alive().unwrap().tail_count, 4);
    assert_eq!(tails, chain_of(4));
    assert!(purged.is_empty());
}

#[test]
fn a_miss_leaves_a_dead_centipede_alone() {
    let mut container = CentipedeContainer { centipede: Centipede::Dead(1) };
    let mut tails = chain_of(4);
    let mut purged = Vec::new();
    on_miss(
        &mut tails,
        &mut purged,
        &mut container,
        0,
        &vec![EatTail { tail_index: 1 }],
        &vec![CrushPoll {}],
    );
    assert_eq!(tails, chain_of(4));
    assert!(purged.is_empty());
}

#[test]
fn a_crush_of_the_last_segment_ends_the_life() {
    let mut alive = Alive::default(5);
    alive.tail_count = 1;
    let mut container = living(alive);
    let mut tails = chain_of(1);
    let mut purged = Vec::new();
    on_miss(&mut tails, &mut purged, &mut container, 800, &Vec::new(), &vec![CrushPoll {}]);
    assert_eq!(container.alive().unwrap().tail_count, 0);
    assert!(tails.is_empty());
    assert_eq!(purged.len(), 1);
    assert_eq!(purged[0].speed, 50_000);
    let mut over: Vec<GameOver> = Vec::new();
    game_over_system(800, &mut container, &mut over);
    assert_eq!(over, vec![GameOver { head_entity: 5 }]);
    assert!(matches!(container.centipede, Centipede::Dead(800)));
}

#[test]
fn purge_tail_cuts_from_the_count_on() {
    let mut alive = Alive::default(1);
    alive.tail_count = 2;
    alive.speed = 90_000;
    let mut tails = vec![placed(0, 0, 3), placed(1, 0, 0), placed(2, 0, 2), placed(3, 0, 1)];
    let mut purged = Vec::new();
    purge_tail(&mut tails, &mut purged, 50, &alive, 4);
    assert_eq!(tails, vec![placed(1, 0, 0), placed(3, 0, 1)]);
    assert_eq!(
        purged,
        vec![
            PurgedTail {
                position: at(0, 0),
                direction: Vec2 { x: 1000, y: 0 },
                removed_at: 2550,
                speed: 30_000
            },
            PurgedTail {
                position: at(2, 0),
                direction: Vec2 { x: 1000, y: 0 },
                removed_at: 2550,
                speed: 60_000
            },
        ]
    );
}

#[test]
fn purge_tail_needs_a_shorter_chain() {
    let mut alive = Alive::default(1);
    alive.tail_count = 2;
    let mut tails = chain_of(5);
    let mut purged = Vec::new();
    purge_tail(&mut tails, &mut purged, 50, &alive, 2);
    purge_tail(&mut tails, &mut purged, 50, &alive, 1);
    assert_eq!(tails, chain_of(5));
    assert!(purged.is_empty());
}

#[test]
fn a_segment_beyond_the_old_count_drifts_at_no_speed() {
    let mut alive = Alive::default(1);
    alive.tail_count = 2;
    let mut tails = vec![placed(0, 0, 8)];
    let mut purged = Vec::new();
    purge_tail(&mut tails, &mut purged, 50, &alive, 4);
    assert!(tails.is_empty());
    assert_eq!(purged[0].speed, 0);
}

#[test]
fn purged_speeds_stay_between_nothing_and_the_speed() {
    for original in 1usize..12 {
        for kept in 0..original {
            let mut alive = Alive::default(1);
            alive.tail_count = kept;
            alive.speed = 123_457;
            let mut tails = chain_of(original);
            let mut purged = Vec::new();
            purge_tail(&mut tails, &mut purged, 0, &alive, original);
            assert_eq!(tails.len(), kept);
            assert_eq!(purged.len(), original - kept);
            for pair in purged.windows(2) {
                assert!(pair[0].speed >= pair[1].speed);
            }
            for tail in purged.iter() {
                assert!(tail.speed <= 123_457);
                assert!(tail.speed > 0);
            }
        }
    }
}

#[test]
fn the_time_of_removal_stops_at_the_end_of_time() {
    let mut alive = Alive::default(1);
    alive.tail_count = 0;
    let mut tails = chain_of(1);
    let mut purged = Vec::new();
    purge_tail(&mut tails, &mut purged, u64::MAX - 3, &alive, 1);
    assert_eq!(purged[0].removed_at, u64::MAX);
}

#[test]
fn purged_segments_drift_and_go() {
    let mut purged = vec![
        PurgedTail {
            position: at(0, 0),
            direction: Vec2 { x: 30_000, y: 0 },
            removed_at: 1000,
            speed: 50_000,
        },
        PurgedTail {
            position: at(5, 5),
            direction: Vec2 { x: 0, y: -30_000 },
            removed_at: 999,
            speed: 50_000,
        },
        PurgedTail {
            position: at(7, 7),
            direction: Vec2 { x: 0, y: 0 },
            removed_at: 2000,
            speed: 50_000,
        },
    ];
    purged_tail_system(1000, 100, &mut purged);
    assert_eq!(
        purged,
        vec![
            PurgedTail {
                position: at(5000, 0),
                direction: Vec2 { x: 30_000, y: 0 },
                removed_at: 1000,
                speed: 50_000,
            },
            PurgedTail {
                position: at(7, 7),
                direction: Vec2 { x: 0, y: 0 },
                removed_at: 2000,
                speed: 50_000,
            },
        ]
    );
    purged_tail_system(1001, 100, &mut purged);
    assert_eq!(purged.len(), 1);
    purged_tail_system(2001, 100, &mut purged);
    assert!(purged.is_empty());
}
