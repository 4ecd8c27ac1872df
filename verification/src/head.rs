//! The head: how it is steered, how it moves, and how it bounces off the
//! board's edges.

use vstd::prelude::*;
use crate::constants::{BOARD_X_BORDER, BOARD_Y_BORDER, SPEED_UP};
use crate::event::{GameOver, GameStart, Tap};
use crate::number::{clamp_coord, coord};
use crate::util::{
    about_as_long, initial_history, lemma_move_has_length, move_fits, travel, travelled, Alive,
    Centipede, CentipedeContainer, CircularMove, Movement, Position, Vec2,
};

verus! {

/// The head of the centipede.
#[derive(Clone, Copy, PartialEq, Eq, Structural, Debug)]
pub struct Head {
    pub position: Position,
}

/// The mark at the centre of a circular movement; shown while the head
/// circles.
#[derive(Clone, Copy, PartialEq, Eq, Structural, Debug)]
pub struct CenterMarker {
    pub position: Position,
}

/// The line from the head to the centre that it circles: its middle and its
/// length.
#[derive(Clone, Copy, PartialEq, Eq, Structural, Debug)]
pub struct Chain {
    pub position: Position,
    pub length: u64,
}

/// The mark and the line as they are before the first life: the mark
/// hidden, both at the origin.
pub fn setup_system() -> (made: (CenterMarker, Chain))
    ensures
        made.0.position == (Position { x: 0, y: 0, visible: false }),
        made.1.position == (Position { x: 0, y: 0, visible: true }),
        made.1.length == 0,
{
    (
        CenterMarker { position: Position::default(false) },
        Chain { position: Position::default(true), length: 0 },
    )
}

/// Whether the head rotates with the clock around `center`, so that the turn
/// goes on from its last step: the way from the head to the centre, turned
/// by a right angle, points against that step.
pub open spec fn turns_clockwise(head: Position, center: Position, last_move: Vec2) -> bool {
    (center.y - head.y) * last_move.x + (head.x - center.x) * last_move.y < 0
}

/// The movement after a tap: a circling head goes straight on along its last
/// step, and a head that went straight circles around the cursor.
pub open spec fn switched(
    movement: Movement,
    last_move: Vec2,
    head: Position,
    cursor: Position,
) -> Movement {
    match movement {
        Movement::Circular(_) => Movement::Linear(last_move),
        Movement::Linear(_) => Movement::Circular(
            CircularMove { center: cursor, clockwise: turns_clockwise(head, cursor, last_move) },
        ),
    }
}

/// The movement after `taps` taps in one tick: only an odd number of taps
/// switches it.
pub open spec fn selected(
    movement: Movement,
    last_move: Vec2,
    head: Position,
    cursor: Position,
    taps: nat,
) -> Movement {
    if taps % 2 == 1 {
        switched(movement, last_move, head, cursor)
    } else {
        movement
    }
}

/// The middle between two coordinates, rounded down.
pub open spec fn middle(a: int, b: int) -> int {
    (a + b) / 2
}

fn middle_of(a: i32, b: i32) -> (m: i32)
    ensures
        m == middle(a as int, b as int),
{
    let sum: i64 = a as i64 + b as i64;
    let lifted: u64 = (sum + 0x1_0000_0000) as u64;
    ((lifted / 2) as i64 - 0x8000_0000) as i32
}

fn clockwise_around(head: &Position, center: &Position, last_move: Vec2) -> (b: bool)
    ensures
        b == turns_clockwise(*head, *center, last_move),
{
    let across = center.y as i64 - head.y as i64;
    let along = head.x as i64 - center.x as i64;
    let mx = last_move.x as i64;
    let my = last_move.y as i64;
    assert(-0x8000_0000_0000_0000 <= across * mx <= 0x8000_0000_0000_0000) by (nonlinear_arith)
        requires
            -0xffff_ffff <= across <= 0xffff_ffff,
            -0x8000_0000 <= mx <= 0x8000_0000,
    ;
    assert(-0x8000_0000_0000_0000 <= along * my <= 0x8000_0000_0000_0000) by (nonlinear_arith)
        requires
            -0xffff_ffff <= along <= 0xffff_ffff,
            -0x8000_0000 <= my <= 0x8000_0000,
    ;
    (across as i128) * (mx as i128) + (along as i128) * (my as i128) < 0
}

/// Switches the movement on a tap and sets the mark and the line for it.
///
/// An odd number of taps switches between straight and circular movement;
/// a new circle has the cursor as its centre, and the mark goes there. The
/// mark and the line are shown just while the head circles, and the line
/// then reaches from the head to the mark. Nothing changes while the
/// centipede is dead.
pub fn select_movement_system(
    container: &mut CentipedeContainer,
    cursor_position: &Position,
    marker: &mut CenterMarker,
    chain: &mut Chain,
    head: &Head,
    tap_reader: &Vec<Tap>,
) -> (done: Option<()>)
    ensures
        done.is_none(),
        !old(container).is_alive() ==> *final(container) == *old(container) && *final(marker)
            == *old(marker) && *final(chain) == *old(chain),
        old(container).is_alive() ==> ({
            let before = old(container).life();
            let movement = selected(
                before.movement,
                before.last_move,
                head.position,
                *cursor_position,
                tap_reader.len() as nat,
            );
            let circles = movement is Circular;
            let centre = if circles && before.movement is Linear {
                *cursor_position
            } else {
                old(marker).position
            };
            &&& final(container).is_alive()
            &&& final(container).life() == (Alive { movement, ..before })
            &&& final(marker).position == (Position {
                x: centre.x,
                y: centre.y,
                visible: circles,
            })
            &&& final(chain).position.visible == circles
            &&& circles ==> final(chain).position.x == middle(
                head.position.x as int,
                centre.x as int,
            ) && final(chain).position.y == middle(head.position.y as int, centre.y as int)
                && final(chain).length == head.position.spec_distance(final(marker).position)
            &&& !circles ==> final(chain).position.x == old(chain).position.x
                && final(chain).position.y == old(chain).position.y
                && final(chain).length == old(chain).length
        }),
{
    match &mut container.centipede {
        Centipede::Alive(centipede) => {
            if tap_reader.len() % 2 == 1 {
                match centipede.movement {
                    Movement::Circular(_) => {
                        centipede.movement = Movement::Linear(centipede.last_move);
                    },
                    Movement::Linear(_) => {
                        let clockwise = clockwise_around(
                            &head.position,
                            cursor_position,
                            centipede.last_move,
                        );
                        centipede.movement = Movement::Circular(
                            CircularMove { center: *cursor_position, clockwise },
                        );
                        marker.position.x = cursor_position.x;
                        marker.position.y = cursor_position.y;
                    },
                }
            }
            let circular = match centipede.movement {
                Movement::Circular(_) => true,
                Movement::Linear(_) => false,
            };
            marker.position.visible = circular;
            chain.position.visible = circular;
            if circular {
                chain.position.x = middle_of(head.position.x, marker.position.x);
                chain.position.y = middle_of(head.position.y, marker.position.y);
                chain.length = head.position.distance(&marker.position);
            }
        },
        Centipede::Dead(_) => {},
    }
    None
}

/// The head is past the left or right edge and its last step led further
/// out.
pub open spec fn leaves_x(position: Position, last_move: Vec2) -> bool {
    position.x > BOARD_X_BORDER && last_move.x > 0 || position.x < -BOARD_X_BORDER
        && last_move.x < 0
}

/// The head is past the upper or lower edge and its last step led further
/// out.
pub open spec fn leaves_y(position: Position, last_move: Vec2) -> bool {
    position.y > BOARD_Y_BORDER && last_move.y > 0 || position.y < -BOARD_Y_BORDER
        && last_move.y < 0
}

/// The movement once the board's edges have had their say: a head that
/// leaves the board goes straight on along its last step, mirrored on each
/// axis on which it leaves. Any other head keeps its movement.
pub open spec fn reflected(movement: Movement, position: Position, last_move: Vec2) -> Movement {
    let out_x = leaves_x(position, last_move);
    let out_y = leaves_y(position, last_move);
    if out_x || out_y {
        Movement::Linear(
            Vec2 {
                x: if out_x {
                    clamp_coord(-last_move.x) as i32
                } else {
                    last_move.x
                },
                y: if out_y {
                    clamp_coord(-last_move.y) as i32
                } else {
                    last_move.y
                },
            },
        )
    } else {
        movement
    }
}

/// A head past the right edge whose last step led to the right goes straight
/// on with that step mirrored: its part along `x` is negated, and its part
/// along `y` is kept unless the head leaves through the upper or lower edge
/// as well.
pub proof fn lemma_reflection_at_right_edge(
    movement: Movement,
    position: Position,
    last_move: Vec2,
)
    requires
        position.x > BOARD_X_BORDER,
        last_move.x > 0,
    ensures
        reflected(movement, position, last_move) is Linear,
        reflected(movement, position, last_move)->Linear_0.x == -last_move.x,
        !leaves_y(position, last_move) ==> reflected(
            movement,
            position,
            last_move,
        )->Linear_0.y == last_move.y,
{
}

/// Turns a head that leaves the board back toward it.
pub fn reverse_head_move(centipede: &mut Alive, position: &Position)
    ensures
        *final(centipede) == (Alive {
            movement: reflected(old(centipede).movement, *position, old(centipede).last_move),
            ..*old(centipede)
        }),
{
    let out_x = position.x > BOARD_X_BORDER && centipede.last_move.x > 0 || position.x
        < -BOARD_X_BORDER && centipede.last_move.x < 0;
    let out_y = position.y > BOARD_Y_BORDER && centipede.last_move.y > 0 || position.y
        < -BOARD_Y_BORDER && centipede.last_move.y < 0;
    if out_x || out_y {
        let x = centipede.last_move.x;
        let y = centipede.last_move.y;
        centipede.movement = Movement::Linear(
            Vec2 {
                x: if out_x {
                    coord(-(x as i128))
                } else {
                    x
                },
                y: if out_y {
                    coord(-(y as i128))
                } else {
                    y
                },
            },
        );
    }
}

/// Where one tick takes the head.
///
/// Straight on, the head covers the length that its speed gives in `delta`
/// milliseconds, along its direction; without a direction it rests. On a
/// circle the head keeps its distance from the centre and goes to where
/// `heading` points from there; without a heading it rests.
pub open spec fn advanced(
    position: Position,
    movement: Movement,
    speed: u32,
    delta: u32,
    heading: Vec2,
) -> Position {
    match movement {
        Movement::Linear(direction) => if direction.is_zero() {
            position
        } else {
            position.spec_moved(direction, travel(speed as int, delta as int))
        },
        Movement::Circular(turn) => if heading.is_zero() {
            position
        } else {
            let on_circle = turn.center.spec_moved(heading, position.spec_distance(turn.center));
            Position { x: on_circle.x, y: on_circle.y, visible: position.visible }
        },
    }
}

/// On a circle the head stays as far from the centre as it was, up to
/// rounding: its way from the centre is about as long as the radius.
pub proof fn lemma_circling_keeps_the_radius(
    position: Position,
    turn: CircularMove,
    speed: u32,
    delta: u32,
    heading: Vec2,
)
    requires
        !heading.is_zero(),
        move_fits(turn.center, heading, position.spec_distance(turn.center)),
    ensures
        ({
            let next = advanced(position, Movement::Circular(turn), speed, delta, heading);
            about_as_long(
                next.x - turn.center.x,
                next.y - turn.center.y,
                heading,
                position.spec_distance(turn.center),
            )
        }),
{
    crate::number::lemma_near_root_sign(crate::util::dist_sq(position, turn.center));
    lemma_move_has_length(turn.center, heading, position.spec_distance(turn.center));
}

/// Going straight, the head covers the length that its speed gives in the
/// time of the tick, up to rounding.
pub proof fn lemma_straight_step_has_length(
    position: Position,
    direction: Vec2,
    speed: u32,
    delta: u32,
    heading: Vec2,
)
    requires
        !direction.is_zero(),
        move_fits(position, direction, travel(speed as int, delta as int)),
    ensures
        ({
            let next = advanced(position, Movement::Linear(direction), speed, delta, heading);
            about_as_long(
                next.x - position.x,
                next.y - position.y,
                direction,
                travel(speed as int, delta as int),
            )
        }),
{
    assert(0 <= speed * delta) by (nonlinear_arith)
        requires
            0 <= speed,
            0 <= delta,
    ;
    lemma_move_has_length(position, direction, travel(speed as int, delta as int));
}

/// The speed after `delta` milliseconds of the given movement: circling
/// gains `SPEED_UP` per millisecond, up to the largest speed there is, and
/// going straight gains nothing.
pub open spec fn hastened(speed: u32, movement: Movement, delta: u32) -> u32 {
    match movement {
        Movement::Linear(_) => speed,
        Movement::Circular(_) => if speed + SPEED_UP * delta > u32::MAX {
            u32::MAX
        } else {
            (speed + SPEED_UP * delta) as u32
        },
    }
}

/// No movement makes the head slower.
pub proof fn lemma_speed_never_drops(speed: u32, movement: Movement, delta: u32)
    ensures
        speed <= hastened(speed, movement, delta),
{
}

/// Moves the head by one tick of `delta` milliseconds.
///
/// First the board's edges turn a leaving head back. Then the head moves as
/// `advanced` says; `heading` is the direction from the centre of the circle
/// to the head's next place, which the caller finds by turning the present
/// one through the angle of `travel(speed, delta)` over the radius, and it is
/// read only while the head circles. The step is kept as the last move and
/// the new place is added to the path. Nothing changes while the centipede
/// is dead.
pub fn move_head_system(
    container: &mut CentipedeContainer,
    delta: u32,
    head: &mut Head,
    heading: Vec2,
) -> (done: Option<()>)
    ensures
        done.is_none(),
        !old(container).is_alive() ==> *final(container) == *old(container) && *final(head)
            == *old(head),
        old(container).is_alive() ==> ({
            let before = old(container).life();
            let after = final(container).life();
            let movement = reflected(before.movement, old(head).position, before.last_move);
            let next = advanced(old(head).position, movement, before.speed, delta, heading);
            &&& final(container).is_alive()
            &&& final(head).position == next
            &&& after.movement == movement
            &&& after.speed == hastened(before.speed, movement, delta)
            &&& after.last_move == Vec2::spec_between(old(head).position, next)
            &&& after.position_history@ == before.position_history@.push(next)
            &&& after.tail_count == before.tail_count
            &&& after.head_entity == before.head_entity
        }),
{
    match &mut container.centipede {
        Centipede::Alive(centipede) => {
            reverse_head_move(centipede, &head.position);
            let distance = travelled(centipede.speed, delta);
            let last_position = head.position;
            match centipede.movement {
                Movement::Circular(CircularMove { center, clockwise: _ }) => {
                    if heading != (Vec2 { x: 0, y: 0 }) {
                        let radius = head.position.distance(&center);
                        let mut on_circle = center;
                        on_circle.move_to_with_distance(heading, radius);
                        head.position.x = on_circle.x;
                        head.position.y = on_circle.y;
                    }
                    assert(SPEED_UP * delta <= 3 * 0xffff_ffff) by (nonlinear_arith)
                        requires
                            SPEED_UP == 3,
                            0 <= delta <= 0xffff_ffff,
                    ;
                    let gained: u64 = centipede.speed as u64 + SPEED_UP as u64 * delta as u64;
                    centipede.speed = if gained > u32::MAX as u64 {
                        u32::MAX
                    } else {
                        gained as u32
                    };
                },
                Movement::Linear(direction) => {
                    if direction != (Vec2 { x: 0, y: 0 }) {
                        head.position.move_to_with_distance(direction, distance);
                    }
                },
            }
            centipede.last_move = Vec2::between(&last_position, &head.position);
            centipede.position_history.push(head.position);
        },
        Centipede::Dead(_) => {},
    }
    None
}

/// A new life: the centipede is as `Alive::default` makes it, known by
/// `head_entity`, and the head stands at the origin and is shown. Without a
/// start signal nothing changes.
pub fn on_game_start(
    container: &mut CentipedeContainer,
    head: &mut Head,
    start_reader: &Vec<GameStart>,
    head_entity: u64,
)
    ensures
        start_reader.len() == 0 ==> *final(container) == *old(container) && *final(head)
            == *old(head),
        start_reader.len() > 0 ==> final(head).position == (Position {
            x: 0,
            y: 0,
            visible: true,
        }) && final(container).is_alive() && final(container).life().head_entity == head_entity
            && final(container).life().speed == crate::constants::DEFAULT_SPEED
            && final(container).life().movement == Movement::Linear(
            Vec2 { x: crate::constants::UNIT, y: 0 },
        ) && final(container).life().last_move == (Vec2 { x: crate::constants::UNIT, y: 0 })
            && final(container).life().tail_count == crate::constants::INITIAL_CENTIPEDE_LENGTH
            && final(container).life().position_history@ == initial_history(),
{
    if start_reader.len() > 0 {
        container.centipede = Centipede::Alive(Alive::default(head_entity));
        head.position = Position::default(true);
    }
}

/// The heads that the deaths of this tick leave behind, in the order of the
/// deaths.
pub open spec fn fallen(over: Seq<GameOver>) -> Seq<u64> {
    over.map_values(|event: GameOver| event.head_entity)
}

/// Adds to `commands` the head of every centipede that died, for the
/// surrounding program to take away.
pub fn on_game_over(commands: &mut Vec<u64>, over_reader: &Vec<GameOver>)
    ensures
        final(commands)@ == old(commands)@ + fallen(over_reader@),
{
    let mut i: usize = 0;
    assert(commands@ =~= old(commands)@ + fallen(over_reader@.take(0)));
    while i < over_reader.len()
        invariant
            i <= over_reader.len(),
            commands@ == old(commands)@ + fallen(over_reader@.take(i as int)),
        decreases over_reader.len() - i,
    {
        commands.push(over_reader[i].head_entity);
        i = i + 1;
        assert(commands@ =~= old(commands)@ + fallen(over_reader@.take(i as int)));
    }
    assert(over_reader@.take(i as int) =~= over_reader@);
}

} // verus!
