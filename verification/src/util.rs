//! Points, vectors and the centipede's state, shared by every stage.

use vstd::prelude::*;
use crate::constants::{DEFAULT_SPEED, INITIAL_CENTIPEDE_LENGTH, UNIT};
use crate::number::{
    clamp_coord, coord, least_double, lemma_near_root_holds, lemma_near_root_sign,
    lemma_stretch_fits, lemma_stretch_has_length, lemma_stretch_within, near_root, nearest_root,
    size, stretch, stretched, COORD_MAX, COORD_MIN,
};

verus! {

/// A displacement in the plane.
#[derive(Clone, Copy, PartialEq, Eq, Structural, Debug)]
pub struct Vec2 {
    pub x: i32,
    pub y: i32,
}

impl Vec2 {
    /// The square of the vector's length.
    pub open spec fn norm_sq(self) -> int {
        self.x * self.x + self.y * self.y
    }

    /// The vector's length, to the nearest whole number.
    pub open spec fn norm(self) -> int {
        near_root(self.norm_sq())
    }

    /// No displacement at all.
    pub open spec fn is_zero(self) -> bool {
        self.x == 0 && self.y == 0
    }

    /// The vector's length, to the nearest whole number.
    pub fn length(self) -> (len: u64)
        ensures
            len == self.norm(),
            len == 0 <==> self.is_zero(),
    {
        let x = self.x as i64;
        let y = self.y as i64;
        assert(0 <= x * x <= 0x4000_0000_0000_0000) by (nonlinear_arith)
            requires
                -0x8000_0000 <= x <= 0x8000_0000,
        ;
        assert(0 <= y * y <= 0x4000_0000_0000_0000) by (nonlinear_arith)
            requires
                -0x8000_0000 <= y <= 0x8000_0000,
        ;
        let n: u128 = (x * x) as u128 + (y * y) as u128;
        let len = nearest_root(n);
        proof {
            lemma_near_root_sign(n as int);
            if !self.is_zero() {
                assert(n >= 1) by (nonlinear_arith)
                    requires
                        n == x * x + y * y,
                        x != 0 || y != 0,
                ;
                lemma_near_root_holds(n as int);
                if len > 0xffff_ffff {
                    assert((2 * len - 1) * (2 * len - 1) >= 0x1_ffff_ffff * 0x1_ffff_ffff)
                        by (nonlinear_arith)
                        requires
                            len >= 0x1_0000_0000,
                    ;
                }
            } else {
                assert(x * x + y * y == 0) by (nonlinear_arith)
                    requires
                        x == 0,
                        y == 0,
                ;
            }
        }
        len as u64
    }
}

/// A point of the plane, and whether what stands there is shown.
/// `x` grows to the right, `y` grows upward, and the board's centre is the
/// origin. A point that a move would carry past the last coordinate stays at
/// that coordinate.
#[derive(Clone, Copy, PartialEq, Eq, Structural, Debug)]
pub struct Position {
    pub x: i32,
    pub y: i32,
    pub visible: bool,
}

/// The square of the distance between `a` and `b`.
pub open spec fn dist_sq(a: Position, b: Position) -> int {
    (b.x - a.x) * (b.x - a.x) + (b.y - a.y) * (b.y - a.y)
}

/// The square of a distance never needs more than 65 bits.
pub proof fn lemma_dist_sq_bound(a: Position, b: Position)
    ensures
        0 <= dist_sq(a, b) <= 0x1_ffff_fffc_0000_0002,
{
    let dx = b.x - a.x;
    let dy = b.y - a.y;
    assert(0 <= dx * dx <= 0xffff_fffe_0000_0001) by (nonlinear_arith)
        requires
            -0xffff_ffff <= dx <= 0xffff_ffff,
    ;
    assert(0 <= dy * dy <= 0xffff_fffe_0000_0001) by (nonlinear_arith)
        requires
            -0xffff_ffff <= dy <= 0xffff_ffff,
    ;
}

/// The square of the distance between `a` and `b`.
pub fn distance_squared(a: &Position, b: &Position) -> (n: u128)
    ensures
        n == dist_sq(*a, *b),
{
    let dx = b.x as i64 - a.x as i64;
    let dy = b.y as i64 - a.y as i64;
    proof {
        lemma_dist_sq_bound(*a, *b);
    }
    assert(0 <= dx * dx <= 0xffff_fffe_0000_0001) by (nonlinear_arith)
        requires
            -0xffff_ffff <= dx <= 0xffff_ffff,
    ;
    assert(0 <= dy * dy <= 0xffff_fffe_0000_0001) by (nonlinear_arith)
        requires
            -0xffff_ffff <= dy <= 0xffff_ffff,
    ;
    let sx: i128 = (dx as i128) * (dx as i128);
    let sy: i128 = (dy as i128) * (dy as i128);
    (sx + sy) as u128
}

impl Position {
    /// The origin, shown or hidden.
    pub fn default(visible: bool) -> (p: Position)
        ensures
            p == (Position { x: 0, y: 0, visible }),
    {
        Position { x: 0, y: 0, visible }
    }

    /// The distance from `self` to `other`, to the nearest whole number.
    pub open spec fn spec_distance(self, other: Position) -> int {
        near_root(dist_sq(self, other))
    }

    /// The distance between two points, to the nearest whole number.
    pub fn distance(self, other: &Position) -> (d: u64)
        ensures
            d == self.spec_distance(*other),
            d <= 0x1_6a09_e668,
    {
        let n = distance_squared(&self, other);
        let d = nearest_root(n);
        proof {
            lemma_dist_sq_bound(self, *other);
            lemma_near_root_sign(n as int);
            if d > 0x1_6a09_e668 {
                lemma_near_root_holds(n as int);
                assert((2 * d - 1) * (2 * d - 1) >= 0x2_d413_ccd1 * 0x2_d413_ccd1)
                    by (nonlinear_arith)
                    requires
                        d >= 0x1_6a09_e669,
                ;
            }
        }
        d as u64
    }

    /// Whether `other` lies within `radius` of `self`, the rim counted in.
    pub open spec fn spec_within(self, other: Position, radius: int) -> bool {
        dist_sq(self, other) <= radius * radius
    }

    /// Whether `other` lies within `radius` of `self`, the rim counted in.
    pub fn within(&self, other: &Position, radius: u32) -> (b: bool)
        ensures
            b == self.spec_within(*other, radius as int),
    {
        let n = distance_squared(self, other);
        assert(0 <= radius * radius <= 0xffff_fffe_0000_0001) by (nonlinear_arith)
            requires
                0 <= radius <= 0xffff_ffff,
        ;
        let limit: u128 = (radius as u128) * (radius as u128);
        n <= limit
    }

    /// Whether `other` lies within half of `span` of `self`, the rim counted
    /// in.
    pub open spec fn spec_within_half(self, other: Position, span: int) -> bool {
        4 * dist_sq(self, other) <= span * span
    }

    /// Whether `other` lies within half of `span` of `self`, the rim counted
    /// in.
    pub fn within_half(&self, other: &Position, span: u64) -> (b: bool)
        ensures
            b == self.spec_within_half(*other, span as int),
    {
        let n = distance_squared(self, other);
        proof {
            lemma_dist_sq_bound(*self, *other);
        }
        if span >= 0x4_0000_0000 {
            assert(span * span >= 0x4_0000_0000 * 0x4_0000_0000) by (nonlinear_arith)
                requires
                    span >= 0x4_0000_0000,
            ;
            true
        } else {
            assert(0 <= span * span <= 0x4_0000_0000 * 0x4_0000_0000) by (nonlinear_arith)
                requires
                    0 <= span <= 0x4_0000_0000,
            ;
            4 * n <= (span as u128) * (span as u128)
        }
    }

    /// The point at `distance` from `self` on the way to `other`: the way
    /// from `self` to `other`, stretched to that length, is added to `self`.
    /// Where the two are less than half a thousandth apart, it is `self`.
    pub open spec fn spec_forward_to(self, other: Position, distance: int) -> Position {
        let len = self.spec_distance(other);
        Position {
            x: clamp_coord(self.x + stretch(other.x - self.x, distance, len)) as i32,
            y: clamp_coord(self.y + stretch(other.y - self.y, distance, len)) as i32,
            visible: self.visible,
        }
    }

    /// The point at `distance` from `self` on the way to `other`.
    pub fn forward_to(&self, other: &Position, distance: u64) -> (p: Position)
        ensures
            p == self.spec_forward_to(*other, distance as int),
    {
        let len = self.distance(other);
        let dx = other.x as i64 - self.x as i64;
        let dy = other.y as i64 - self.y as i64;
        let sx = stretched(dx, distance, len);
        let sy = stretched(dy, distance, len);
        proof {
            lemma_stretch_fits(dx as int, distance as int, len as int);
            lemma_stretch_fits(dy as int, distance as int, len as int);
        }
        Position {
            x: coord(self.x as i128 + sx),
            y: coord(self.y as i128 + sy),
            visible: self.visible,
        }
    }

    /// `self` carried by `distance` along `direction`. A direction without
    /// length carries nowhere.
    pub open spec fn spec_moved(self, direction: Vec2, distance: int) -> Position {
        let len = direction.norm();
        Position {
            x: clamp_coord(self.x + stretch(direction.x as int, distance, len)) as i32,
            y: clamp_coord(self.y + stretch(direction.y as int, distance, len)) as i32,
            visible: self.visible,
        }
    }

    /// Carries the point by `distance` along `direction`.
    pub fn move_to_with_distance(&mut self, direction: Vec2, distance: u64)
        ensures
            *final(self) == old(self).spec_moved(direction, distance as int),
    {
        let len = direction.length();
        let sx = stretched(direction.x as i64, distance, len);
        let sy = stretched(direction.y as i64, distance, len);
        proof {
            lemma_stretch_fits(direction.x as int, distance as int, len as int);
            lemma_stretch_fits(direction.y as int, distance as int, len as int);
        }
        self.x = coord(self.x as i128 + sx);
        self.y = coord(self.y as i128 + sy);
    }

    /// Carries the point along `direction` for `delta` milliseconds at
    /// `speed`.
    pub fn move_to_with_sec(&mut self, direction: Vec2, speed: u32, delta: u32)
        ensures
            *final(self) == old(self).spec_moved(direction, travel(speed as int, delta as int)),
    {
        self.move_to_with_distance(direction, travelled(speed, delta));
    }
}

/// `value` lies between `a` and `b`, whichever of them is the smaller.
pub open spec fn between(value: int, a: int, b: int) -> bool {
    (a <= value <= b) || (b <= value <= a)
}

/// `p` lies in the upright rectangle that `a` and `b` span.
pub open spec fn in_box(p: Position, a: Position, b: Position) -> bool {
    between(p.x as int, a.x as int, b.x as int) && between(p.y as int, a.y as int, b.y as int)
}

/// On the way to another point, a point that goes no further than their
/// distance does not pass it: it stays in the rectangle that the two span.
pub proof fn lemma_forward_to_stays_between(from: Position, to: Position, distance: int)
    requires
        0 <= distance <= from.spec_distance(to),
    ensures
        in_box(from.spec_forward_to(to, distance), from, to),
{
    let len = from.spec_distance(to);
    lemma_stretch_within(to.x - from.x, distance, len);
    lemma_stretch_within(to.y - from.y, distance, len);
}

/// The move of `from` by `distance` along `direction` ends within the
/// coordinates, so that nothing of it is cut off.
pub open spec fn move_fits(from: Position, direction: Vec2, distance: int) -> bool {
    let len = direction.norm();
    let x = from.x + stretch(direction.x as int, distance, len);
    let y = from.y + stretch(direction.y as int, distance, len);
    COORD_MIN <= x <= COORD_MAX && COORD_MIN <= y <= COORD_MAX
}

/// The step `(x, y)` is as long as `distance` along `direction` comes to,
/// up to the rounding of the direction's length and of the step's two
/// parts by a half each. In doubled lengths, with `len` for the
/// direction's rounded length: the squares of the step's parts, each part
/// taken at its least, come to no more than `4 * distance * distance`
/// times the direction's true length squared over `len * len`, and each part
/// taken one half more, to more than that.
pub open spec fn about_as_long(x: int, y: int, direction: Vec2, distance: int) -> bool {
    let len = direction.norm();
    let sx = size(x);
    let sy = size(y);
    let low = least_double(sx) * least_double(sx) + least_double(sy) * least_double(sy);
    let high = (2 * sx + 1) * (2 * sx + 1) + (2 * sy + 1) * (2 * sy + 1);
    let exact = 4 * direction.norm_sq() * (distance * distance);
    low * (len * len) <= exact < high * (len * len)
}

/// A move along a direction covers the length that was asked for, up to
/// rounding.
pub proof fn lemma_move_has_length(from: Position, direction: Vec2, distance: int)
    requires
        0 <= distance,
        !direction.is_zero(),
        move_fits(from, direction, distance),
    ensures
        about_as_long(
            from.spec_moved(direction, distance).x - from.x,
            from.spec_moved(direction, distance).y - from.y,
            direction,
            distance,
        ),
{
    let len = direction.norm();
    assert(direction.norm_sq() >= 1) by (nonlinear_arith)
        requires
            direction.norm_sq() == direction.x * direction.x + direction.y * direction.y,
            direction.x != 0 || direction.y != 0,
    ;
    lemma_near_root_sign(direction.norm_sq());
    lemma_stretch_has_length(direction.x as int, direction.y as int, distance, len);
}

/// The length covered in `delta` milliseconds at `speed`, rounded down.
pub open spec fn travel(speed: int, delta: int) -> int {
    (speed * delta) / 1000
}

/// The length covered in `delta` milliseconds at `speed`.
pub fn travelled(speed: u32, delta: u32) -> (length: u64)
    ensures
        length == travel(speed as int, delta as int),
{
    assert(0 <= speed * delta <= 0xffff_fffe_0000_0001) by (nonlinear_arith)
        requires
            0 <= speed <= 0xffff_ffff,
            0 <= delta <= 0xffff_ffff,
    ;
    (speed as u64 * delta as u64) / 1000
}

impl Vec2 {
    /// The way from `from` to `to`, each part confined to the coordinates.
    pub open spec fn spec_between(from: Position, to: Position) -> Vec2 {
        Vec2 { x: clamp_coord(to.x - from.x) as i32, y: clamp_coord(to.y - from.y) as i32 }
    }

    /// The vector of the same length that points the other way.
    pub open spec fn spec_opposite(self) -> Vec2 {
        Vec2 { x: clamp_coord(-self.x) as i32, y: clamp_coord(-self.y) as i32 }
    }

    /// The vector of the same length that points the other way.
    pub fn opposite(self) -> (v: Vec2)
        ensures
            v == self.spec_opposite(),
    {
        Vec2 { x: coord(-(self.x as i128)), y: coord(-(self.y as i128)) }
    }

    /// The way from `from` to `to`.
    pub fn between(from: &Position, to: &Position) -> (v: Vec2)
        ensures
            v == Vec2::spec_between(*from, *to),
    {
        Vec2 {
            x: coord(to.x as i128 - from.x as i128),
            y: coord(to.y as i128 - from.y as i128),
        }
    }
}

/// How the head moves.
#[derive(Clone, Copy, PartialEq, Eq, Structural, Debug)]
pub enum Movement {
    /// Around a centre.
    Circular(CircularMove),
    /// Straight on, along a vector.
    Linear(Vec2),
}

/// A turn around `center`, with the clock or against it.
#[derive(Clone, Copy, PartialEq, Eq, Structural, Debug)]
pub struct CircularMove {
    pub center: Position,
    pub clockwise: bool,
}

/// A centipede in play.
pub struct Alive {
    /// What the surrounding program knows the head by.
    pub head_entity: u64,
    pub speed: u32,
    pub movement: Movement,
    /// The head's last step.
    pub last_move: Vec2,
    /// Segments that still follow the head.
    pub tail_count: usize,
    /// Every place the head has been in this life, the oldest first.
    pub position_history: Vec<Position>,
}

/// The first two places of every life: the head at the origin, come from
/// a thousand world units to its left.
pub open spec fn initial_history() -> Seq<Position> {
    seq![
        Position { x: (-1000000i32), y: 0, visible: true },
        Position { x: 0, y: 0, visible: true },
    ]
}

impl Alive {
    /// A centipede at the start of its life, heading right.
    pub fn default(head_entity: u64) -> (alive: Alive)
        ensures
            alive.head_entity == head_entity,
            alive.speed == DEFAULT_SPEED,
            alive.movement == Movement::Linear(Vec2 { x: UNIT, y: 0 }),
            alive.last_move == (Vec2 { x: UNIT, y: 0 }),
            alive.tail_count == INITIAL_CENTIPEDE_LENGTH,
            alive.position_history@ == initial_history(),
    {
        let mut position_history: Vec<Position> = Vec::new();
        position_history.push(Position { x: -1000000, y: 0, visible: true });
        position_history.push(Position { x: 0, y: 0, visible: true });
        assert(position_history@ =~= initial_history());
        Alive {
            head_entity,
            speed: DEFAULT_SPEED,
            movement: Movement::Linear(Vec2 { x: UNIT, y: 0 }),
            last_move: Vec2 { x: UNIT, y: 0 },
            tail_count: INITIAL_CENTIPEDE_LENGTH,
            position_history,
        }
    }
}

/// The centipede, in play or dead since a given time.
pub enum Centipede {
    Alive(Alive),
    Dead(u64),
}

/// Holds the one centipede of a game.
pub struct CentipedeContainer {
    pub centipede: Centipede,
}

impl Default for CentipedeContainer {
    /// Before the first life the centipede is dead since time zero.
    fn default() -> (container: Self)
        ensures
            container.centipede == Centipede::Dead(0),
    {
        CentipedeContainer { centipede: Centipede::Dead(0) }
    }
}

impl CentipedeContainer {
    /// Whether the centipede is in play.
    pub open spec fn is_alive(self) -> bool {
        self.centipede is Alive
    }

    /// The centipede in play; meaningful while `is_alive`.
    pub open spec fn life(self) -> Alive {
        self.centipede->Alive_0
    }

    /// The centipede, if it is in play.
    pub fn alive(&self) -> (found: Option<&Alive>)
        ensures
            found.is_some() == self.is_alive(),
            found.is_some() ==> *found.unwrap() == self.life(),
    {
        match &self.centipede {
            Centipede::Alive(alive) => Some(alive),
            _ => None,
        }
    }

    /// The centipede, if it is in play, to be changed in place.
    pub fn alive_mut(&mut self) -> (found: Option<&mut Alive>)
        ensures
            found.is_some() == old(self).is_alive(),
            found.is_some() ==> *found.unwrap() == old(self).life(),
            found.is_some() ==> final(self).centipede == Centipede::Alive(*final(found.unwrap())),
            found.is_none() ==> *final(self) == *old(self),
    {
        match &mut self.centipede {
            Centipede::Alive(alive) => Some(alive),
            _ => None,
        }
    }

    /// What the surrounding program knows the head by, if the centipede is in
    /// play.
    pub fn head_entity(&self) -> (found: Option<u64>)
        ensures
            found == if self.is_alive() {
                Some(self.life().head_entity)
            } else {
                None
            },
    {
        match &self.centipede {
            Centipede::Alive(alive) => Some(alive.head_entity),
            _ => None,
        }
    }
}

/// Twice the signed area of the triangle `x1`, `x2`, `y`: its sign tells on
/// which side of the line through `x1` and `x2` the point `y` lies.
pub open spec fn side(x1: Position, x2: Position, y: Position) -> int {
    (x1.x - x2.x) * (y.y - x1.y) + (x1.y - x2.y) * (x1.x - y.x)
}

/// `y1` and `y2` lie strictly on opposite sides of the line through `x1` and
/// `x2`.
pub open spec fn straddles(x1: Position, x2: Position, y1: Position, y2: Position) -> bool {
    side(x1, x2, y1) * side(x1, x2, y2) < 0
}

/// The segments from `a1` to `a2` and from `b1` to `b2` cross: each
/// straddles the line of the other.
pub open spec fn crosses(a1: Position, a2: Position, b1: Position, b2: Position) -> bool {
    straddles(a1, a2, b1, b2) && straddles(b1, b2, a1, a2)
}

/// Whether two segments cross is the same whichever is named first.
pub proof fn lemma_intersection_symmetric(a: Position, b: Position, c: Position, d: Position)
    ensures
        crosses(a, b, c, d) == crosses(c, d, a, b),
{
}

fn side_of(x1: &Position, x2: &Position, y: &Position) -> (s: i128)
    ensures
        s == side(*x1, *x2, *y),
{
    let ax = x1.x as i64 - x2.x as i64;
    let ay = y.y as i64 - x1.y as i64;
    let bx = x1.y as i64 - x2.y as i64;
    let by = x1.x as i64 - y.x as i64;
    assert(-0xffff_fffe_0000_0001 <= ax * ay <= 0xffff_fffe_0000_0001) by (nonlinear_arith)
        requires
            -0xffff_ffff <= ax <= 0xffff_ffff,
            -0xffff_ffff <= ay <= 0xffff_ffff,
    ;
    assert(-0xffff_fffe_0000_0001 <= bx * by <= 0xffff_fffe_0000_0001) by (nonlinear_arith)
        requires
            -0xffff_ffff <= bx <= 0xffff_ffff,
            -0xffff_ffff <= by <= 0xffff_ffff,
    ;
    (ax as i128) * (ay as i128) + (bx as i128) * (by as i128)
}

fn intersect(x1: &Position, x2: &Position, y1: &Position, y2: &Position) -> (b: bool)
    ensures
        b == straddles(*x1, *x2, *y1, *y2),
{
    let first = side_of(x1, x2, y1);
    let second = side_of(x1, x2, y2);
    assert((first * second < 0) == ((first < 0 && second > 0) || (first > 0 && second < 0)))
        by (nonlinear_arith);
    (first < 0 && second > 0) || (first > 0 && second < 0)
}

/// Whether the segment from `a1` to `a2` crosses the one from `b1` to `b2`.
/// Segments that only touch, or lie on one line, do not cross.
pub fn intersection(a1: &Position, a2: &Position, b1: &Position, b2: &Position) -> (b: bool)
    ensures
        b == crosses(*a1, *a2, *b1, *b2),
{
    intersect(a1, a2, b1, b2) && intersect(b1, b2, a1, a2)
}

/// Takes what a stage gave back and drops it.
pub fn void(_done: Option<()>) {
}

} // verus!
