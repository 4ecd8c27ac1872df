//! The chain of segments behind the head: where each one lies, how the
//! chain grows, and what becomes of the segments that are cut off.

use vstd::prelude::*;
use crate::constants::{INITIAL_CENTIPEDE_LENGTH, PURGE_GRACE, TAIL_DISTANCE};
use crate::event::{CrushPoll, EatTail, GameStart, ThroughGate};
use crate::number::lemma_near_root_sign;
use crate::util::{
    dist_sq, in_box, lemma_dist_sq_bound, lemma_forward_to_stays_between, travel, Alive,
    Centipede, CentipedeContainer, Position, Vec2,
};

verus! {

/// A segment that follows the head.
#[derive(Clone, Copy, PartialEq, Eq, Structural, Debug)]
pub struct LivingTail {
    pub position: Position,
    /// The way from the segment to the one before it, or to the head.
    pub direction: Vec2,
    /// The segment's place in the chain; the one next to the head has 0.
    pub index: usize,
}

/// A segment that was cut off and drifts away until it is removed.
#[derive(Clone, Copy, PartialEq, Eq, Structural, Debug)]
pub struct PurgedTail {
    pub position: Position,
    pub direction: Vec2,
    /// The time after which the segment is gone.
    pub removed_at: u64,
    pub speed: u32,
}

/// The length of the head's path from its newest place back to place `k`,
/// each step measured to the nearest whole number.
pub open spec fn path_back(history: Seq<Position>, k: int) -> int
    decreases history.len() - k,
{
    if k >= history.len() - 1 {
        0
    } else {
        path_back(history, k + 1) + history[k + 1].spec_distance(history[k])
    }
}

/// The length of the whole path.
pub open spec fn path_length(history: Seq<Position>) -> int {
    path_back(history, 0)
}

/// The point that lies `arc` back along the path, counted from place `k`
/// toward the older places. `arc` is positive and no longer than the path
/// from `k` back.
pub open spec fn point_at(history: Seq<Position>, k: int, arc: int) -> Position
    decreases k,
{
    if k <= 0 {
        history[0]
    } else {
        let step = history[k].spec_distance(history[k - 1]);
        if arc <= step {
            history[k].spec_forward_to(history[k - 1], arc)
        } else {
            point_at(history, k - 1, arc - step)
        }
    }
}

/// How many chain points a path gives: one for each full `spacing` of its
/// length, and no more than `count + 1`.
pub open spec fn chain_len(history: Seq<Position>, spacing: int, count: int) -> int {
    let full = path_length(history) / spacing;
    if full <= count + 1 {
        full
    } else {
        count + 1
    }
}

/// The chain points of a path: point `j` lies `(j + 1) * spacing` behind the
/// head, measured along the path.
pub open spec fn chain(history: Seq<Position>, spacing: int, count: int) -> Seq<Position> {
    Seq::new(
        chain_len(history, spacing, count) as nat,
        |j: int| point_at(history, history.len() - 1, (j + 1) * spacing),
    )
}

/// No part of the path has a negative length, and the part back to `k` is
/// no longer than the whole.
pub proof fn lemma_path_back_bounds(history: Seq<Position>, k: int)
    requires
        0 <= k,
    ensures
        0 <= path_back(history, k) <= path_length(history),
    decreases k,
{
    lemma_path_back_nonnegative(history, k);
    if k > 0 {
        lemma_path_back_bounds(history, k - 1);
        if k - 1 < history.len() - 1 {
            lemma_dist_sq_bound(history[k], history[k - 1]);
            lemma_near_root_sign(dist_sq(history[k], history[k - 1]));
        }
    }
}

proof fn lemma_path_back_nonnegative(history: Seq<Position>, k: int)
    ensures
        0 <= path_back(history, k),
    decreases history.len() - k,
{
    if k < history.len() - 1 {
        lemma_path_back_nonnegative(history, k + 1);
        lemma_dist_sq_bound(history[k + 1], history[k]);
        lemma_near_root_sign(dist_sq(history[k + 1], history[k]));
    }
}

/// A point further back than place `k` is found as well from `k` as from the
/// head.
pub proof fn lemma_point_at_skips(history: Seq<Position>, k: int, arc: int)
    requires
        0 <= k <= history.len() - 1,
        path_back(history, k) < arc,
    ensures
        point_at(history, history.len() - 1, arc) == point_at(
            history,
            k,
            arc - path_back(history, k),
        ),
    decreases history.len() - k,
{
    if k < history.len() - 1 {
        lemma_dist_sq_bound(history[k + 1], history[k]);
        lemma_near_root_sign(dist_sq(history[k + 1], history[k]));
        lemma_point_at_skips(history, k + 1, arc);
    }
}

/// Every chain point lies on a step of the head's path: in the rectangle
/// that two places next to each other span.
pub proof fn lemma_chain_points_lie_on_the_path(
    history: Seq<Position>,
    spacing: int,
    count: int,
    j: int,
)
    requires
        spacing > 0,
        count >= 0,
        0 <= j < chain(history, spacing, count).len(),
    ensures
        exists|i: int|
            0 < i < history.len() && #[trigger] in_box(
                chain(history, spacing, count)[j],
                history[i],
                history[i - 1],
            ),
{
    lemma_chain_needs_a_path(history, spacing, count);
    lemma_path_back_bounds(history, 0);
    let length = path_length(history);
    let full = length / spacing;
    let arc = (j + 1) * spacing;
    assert(0 <= full) by (nonlinear_arith)
        requires
            spacing > 0,
            0 <= length,
            full == length / spacing,
    ;
    assert(chain(history, spacing, count).len() == chain_len(history, spacing, count));
    assert(0 < arc <= length) by (nonlinear_arith)
        requires
            spacing > 0,
            0 <= j,
            j + 1 <= full,
            full == length / spacing,
            arc == (j + 1) * spacing,
    ;
    assert(history.take(history.len() as int) =~= history);
    let newest = history.len() - 1;
    lemma_point_at_lies_on_a_step(history, newest, arc);
    let i = choose|i: int|
        0 < i <= newest && #[trigger] in_box(
            point_at(history, newest, arc),
            history[i],
            history[i - 1],
        );
    assert(in_box(chain(history, spacing, count)[j], history[i], history[i - 1]));
}

/// A point on the path lies on one of its steps.
proof fn lemma_point_at_lies_on_a_step(history: Seq<Position>, k: int, arc: int)
    requires
        0 < k <= history.len() - 1,
        0 < arc <= path_back(history.take(k + 1), 0),
    ensures
        exists|i: int|
            0 < i <= k && #[trigger] in_box(point_at(history, k, arc), history[i], history[i - 1]),
    decreases k,
{
    let upto = history.take(k + 1);
    let step = history[k].spec_distance(history[k - 1]);
    lemma_dist_sq_bound(history[k], history[k - 1]);
    lemma_near_root_sign(dist_sq(history[k], history[k - 1]));
    lemma_path_back_of_prefix(history, k);
    if arc <= step {
        lemma_forward_to_stays_between(history[k], history[k - 1], arc);
        assert(in_box(point_at(history, k, arc), history[k], history[k - 1]));
    } else {
        lemma_point_at_lies_on_a_step(history, k - 1, arc - step);
        let i = choose|i: int|
            0 < i <= k - 1 && #[trigger] in_box(
                point_at(history, k - 1, arc - step),
                history[i],
                history[i - 1],
            );
        assert(in_box(point_at(history, k, arc), history[i], history[i - 1]));
    }
}

/// The path that ends at place `k` is one step longer than the path that
/// ends at the place before.
proof fn lemma_path_back_of_prefix(history: Seq<Position>, k: int)
    requires
        0 < k <= history.len() - 1,
    ensures
        path_back(history.take(k + 1), 0) == path_back(history.take(k), 0)
            + history[k].spec_distance(history[k - 1]),
{
    lemma_path_back_grows(history.take(k), history[k], 0);
    assert(history.take(k).push(history[k]) =~= history.take(k + 1));
}

/// One more place at the head makes every part of the path longer by the
/// new step.
proof fn lemma_path_back_grows(history: Seq<Position>, next: Position, from: int)
    requires
        history.len() > 0,
        0 <= from <= history.len() - 1,
    ensures
        path_back(history.push(next), from) == path_back(history, from) + next.spec_distance(
            history.last(),
        ),
    decreases history.len() - from,
{
    let longer = history.push(next);
    if from < history.len() - 1 {
        lemma_path_back_grows(history, next, from + 1);
        assert(longer[from + 1] == history[from + 1]);
        assert(longer[from] == history[from]);
    } else {
        assert(path_back(longer, from + 1) == 0);
        assert(longer[from + 1] == next);
        assert(longer[from] == history.last());
    }
}

/// The chain points of `history` for a chain of `count` segments: one more
/// point than segments, as far as the path is long enough.
pub fn chain_points(history: &Vec<Position>, spacing: u32, count: usize) -> (points: Vec<Position>)
    requires
        spacing > 0,
    ensures
        points@ == chain(history@, spacing as int, count as int),
{
    let mut points: Vec<Position> = Vec::new();
    let n = history.len();
    if n < 2 {
        proof {
            assert(path_length(history@) == 0);
            assert(0int / (spacing as int) == 0);
            assert(points@ =~= chain(history@, spacing as int, count as int));
        }
        return points;
    }
    let mut k: usize = n - 1;
    let mut distance: u64 = 0;
    let ghost mut cut: int = 0;
    assert(points.len() * spacing == 0) by (nonlinear_arith)
        requires
            points.len() == 0,
    ;
    while k > 0 && points.len() <= count
        invariant
            n == history.len(),
            k <= n - 1,
            spacing > 0,
            cut == points.len() * spacing,
            distance == path_back(history@, k as int) - cut,
            points.len() <= count ==> distance < spacing,
            points.len() <= count + 1,
            forall|j: int|
                0 <= j < points.len() ==> points[j] == point_at(
                    history@,
                    n - 1,
                    (j + 1) * spacing,
                ),
        decreases k,
    {
        let newer = history[k];
        let older = history[k - 1];
        let step = newer.distance(&older);
        let ghost walked = path_back(history@, k as int);
        distance = distance + step;
        while distance >= spacing as u64 && points.len() <= count
            invariant
                n == history.len(),
                0 < k <= n - 1,
                spacing > 0,
                newer == history[k as int],
                older == history[k - 1],
                step == newer.spec_distance(older),
                walked == path_back(history@, k as int),
                cut == points.len() * spacing,
                distance == walked + step - cut,
                walked < cut + spacing,
                distance <= spacing + step,
                points.len() <= count + 1,
                forall|j: int|
                    0 <= j < points.len() ==> points[j] == point_at(
                        history@,
                        n - 1,
                        (j + 1) * spacing,
                    ),
            decreases distance,
        {
            distance = distance - spacing as u64;
            let point = newer.forward_to(&older, step - distance);
            proof {
                let arc = cut + spacing;
                assert(arc == (points.len() + 1) * spacing) by (nonlinear_arith)
                    requires
                        cut == points.len() * spacing,
                        arc == cut + spacing,
                ;
                lemma_point_at_skips(history@, k as int, arc);
                assert(step - distance == arc - walked);
                cut = arc;
            }
            points.push(point);
        }
        k = k - 1;
    }
    proof {
        let length = path_length(history@);
        let s = spacing as int;
        let m = points.len() as int;
        lemma_path_back_bounds(history@, k as int);
        if m <= count {
            assert(k == 0);
            assert(length / s == m) by (nonlinear_arith)
                requires
                    s > 0,
                    0 <= length - m * s < s,
            ;
        } else {
            assert(length / s >= m) by (nonlinear_arith)
                requires
                    s > 0,
                    m * s <= length,
            ;
        }
        assert(points@ =~= chain(history@, s, count as int));
    }
    points
}

/// A segment once the chain points are known: a segment whose index has a
/// chain point lies there and is shown, and faces the chain point before
/// its own, the first segment the head. Any other segment is left as it is.
pub open spec fn placed(tail: LivingTail, points: Seq<Position>, head: Position) -> LivingTail {
    if tail.index < points.len() {
        let at = points[tail.index as int];
        let to = if tail.index == 0 {
            head
        } else {
            points[tail.index - 1]
        };
        let position = Position { x: at.x, y: at.y, visible: true };
        LivingTail { position, direction: Vec2::spec_between(position, to), index: tail.index }
    } else {
        tail
    }
}

/// Where a segment lies follows from its index and the chain points alone:
/// what place and direction it had before leaves no trace.
pub proof fn lemma_placement_forgets(
    one: LivingTail,
    other: LivingTail,
    points: Seq<Position>,
    head: Position,
)
    requires
        one.index == other.index,
        one.index < points.len(),
    ensures
        placed(one, points, head) == placed(other, points, head),
{
}

/// Every segment of `tails`, placed.
pub open spec fn placed_all(tails: Seq<LivingTail>, points: Seq<Position>, head: Position) -> Seq<
    LivingTail,
> {
    Seq::new(tails.len(), |i: int| placed(tails[i], points, head))
}

/// Where the segments lie follows from the head's path alone: to place them
/// a second time changes nothing.
pub proof fn lemma_placement_is_idempotent(
    tails: Seq<LivingTail>,
    points: Seq<Position>,
    head: Position,
)
    ensures
        placed_all(placed_all(tails, points, head), points, head) == placed_all(
            tails,
            points,
            head,
        ),
{
    assert(placed_all(placed_all(tails, points, head), points, head) =~= placed_all(
        tails,
        points,
        head,
    ));
}

/// The segments of a centipede with the given path, whatever lay in `tails`
/// before.
pub open spec fn followed(tails: Seq<LivingTail>, centipede: Alive) -> Seq<LivingTail> {
    placed_all(
        tails,
        chain(centipede.position_history@, TAIL_DISTANCE as int, centipede.tail_count as int),
        centipede.position_history@.last(),
    )
}

/// Lays every segment on the head's path, one `TAIL_DISTANCE` behind the
/// other. Nothing moves while the centipede is dead.
pub fn move_tail_system(container: &CentipedeContainer, tails: &mut Vec<LivingTail>) -> (done:
    Option<()>)
    ensures
        done.is_none(),
        !container.is_alive() ==> final(tails)@ == old(tails)@,
        container.is_alive() ==> final(tails)@ == followed(old(tails)@, container.life()),
        forall|count: usize| in_step(old(tails)@, count) ==> in_step(final(tails)@, count),
{
    let centipede = match container.alive() {
        Some(centipede) => centipede,
        None => {
            return None;
        },
    };
    let points = chain_points(&centipede.position_history, TAIL_DISTANCE, centipede.tail_count);
    let total = tails.len();
    let mut i: usize = 0;
    while i < total
        invariant
            total == tails.len(),
            total == old(tails).len(),
            i <= total,
            points@ == chain(
                centipede.position_history@,
                TAIL_DISTANCE as int,
                centipede.tail_count as int,
            ),
            forall|j: int|
                0 <= j < i ==> tails[j] == placed(
                    old(tails)[j],
                    points@,
                    centipede.position_history@.last(),
                ),
            forall|j: int| i <= j < total ==> tails[j] == old(tails)[j],
        decreases total - i,
    {
        let tail = tails[i];
        if tail.index < points.len() {
            let at = points[tail.index];
            let position = Position { x: at.x, y: at.y, visible: true };
            let direction = if tail.index > 0 {
                Vec2::between(&position, &points[tail.index - 1])
            } else {
                proof {
                    lemma_chain_needs_a_path(
                        centipede.position_history@,
                        TAIL_DISTANCE as int,
                        centipede.tail_count as int,
                    );
                }
                let newest = centipede.position_history.len() - 1;
                Vec2::between(&position, &centipede.position_history[newest])
            };
            tails.set(i, LivingTail { position, direction, index: tail.index });
        }
        i = i + 1;
    }
    assert(tails@ =~= followed(old(tails)@, *centipede));
    None
}

/// A path with a chain point on it has at least two places.
pub proof fn lemma_chain_needs_a_path(history: Seq<Position>, spacing: int, count: int)
    requires
        spacing > 0,
        count >= 0,
        chain(history, spacing, count).len() > 0,
    ensures
        history.len() >= 2,
{
    if history.len() < 2 {
        assert(path_length(history) == 0);
        assert(0int / spacing == 0) by (nonlinear_arith)
            requires
                spacing > 0,
        ;
    }
}

/// A new segment: hidden at the origin until the path is long enough to
/// place it.
pub open spec fn new_tail(index: usize) -> LivingTail {
    LivingTail {
        position: Position { x: 0, y: 0, visible: false },
        direction: Vec2 { x: 0, y: 0 },
        index,
    }
}

/// Adds a new segment with the given index to `commands`.
pub fn tail_bundle(commands: &mut Vec<LivingTail>, index: usize)
    ensures
        final(commands)@ == old(commands)@.push(new_tail(index)),
{
    commands.push(
        LivingTail { position: Position::default(false), direction: Vec2 { x: 0, y: 0 }, index },
    );
}

/// New segments with the `count` indices from `first` on.
pub open spec fn new_tails(first: int, count: int) -> Seq<LivingTail> {
    Seq::new(count as nat, |i: int| new_tail((first + i) as usize))
}

/// With a new life the chain starts afresh: every segment, living or purged,
/// goes, and `INITIAL_CENTIPEDE_LENGTH` new ones take the indices from 0 on.
pub fn on_game_start(
    tails: &mut Vec<LivingTail>,
    purged: &mut Vec<PurgedTail>,
    start_reader: &Vec<GameStart>,
)
    ensures
        start_reader.len() == 0 ==> final(tails)@ == old(tails)@
            && final(purged)@ == old(purged)@,
        start_reader.len() > 0 ==> final(tails)@ == new_tails(0, INITIAL_CENTIPEDE_LENGTH as int)
            && final(purged)@ == Seq::<PurgedTail>::empty() && in_step(
            final(tails)@,
            INITIAL_CENTIPEDE_LENGTH,
        ),
{
    if start_reader.len() > 0 {
        tails.clear();
        purged.clear();
        let mut index: usize = 0;
        while index < INITIAL_CENTIPEDE_LENGTH
            invariant
                index <= INITIAL_CENTIPEDE_LENGTH,
                tails@ == new_tails(0, index as int),
            decreases INITIAL_CENTIPEDE_LENGTH - index,
        {
            tail_bundle(tails, index);
            index = index + 1;
            assert(tails@ =~= new_tails(0, index as int));
        }
    }
}

/// The centipede with another number of segments.
pub open spec fn with_tail_count(centipede: Alive, tail_count: usize) -> Alive {
    Alive { tail_count, ..centipede }
}

/// For each gate passed the chain grows by one segment, which takes the
/// next index. A dead centipede does not grow.
pub fn on_through_gate(
    tails: &mut Vec<LivingTail>,
    container: &mut CentipedeContainer,
    through_gate_reader: &Vec<ThroughGate>,
) -> (done: Option<()>)
    requires
        old(container).is_alive() ==> old(container).life().tail_count + through_gate_reader.len()
            <= usize::MAX,
    ensures
        done.is_none(),
        !old(container).is_alive() ==> *final(container) == *old(container) && final(tails)@
            == old(tails)@,
        old(container).is_alive() ==> final(container).is_alive() && final(container).life()
            == with_tail_count(
            old(container).life(),
            (old(container).life().tail_count + through_gate_reader.len()) as usize,
        ) && final(tails)@ == old(tails)@ + new_tails(
            old(container).life().tail_count as int,
            through_gate_reader.len() as int,
        ),
        old(container).is_alive() && in_step(old(tails)@, old(container).life().tail_count)
            ==> in_step(final(tails)@, final(container).life().tail_count),
{
    match &mut container.centipede {
        Centipede::Alive(centipede) => {
            let ghost first = centipede.tail_count;
            let ghost before = *centipede;
            let mut i: usize = 0;
            while i < through_gate_reader.len()
                invariant
                    i <= through_gate_reader.len(),
                    first + through_gate_reader.len() <= usize::MAX,
                    *centipede == with_tail_count(before, (first + i) as usize),
                    tails@ == old(tails)@ + new_tails(first as int, i as int),
                decreases through_gate_reader.len() - i,
            {
                tail_bundle(tails, centipede.tail_count);
                centipede.tail_count = centipede.tail_count + 1;
                i = i + 1;
                assert(tails@ =~= old(tails)@ + new_tails(first as int, i as int));
            }
        },
        Centipede::Dead(_) => {},
    }
    None
}

/// The share of the centipede's speed that segment `index` takes along when a
/// chain of `original` segments is cut: this many parts of
/// `purged_parts`. A segment beyond the chain takes none.
pub open spec fn purged_part(original: int, index: int) -> int {
    if original > index {
        original - index
    } else {
        0
    }
}

/// The parts into which the speed is divided when a chain of `original`
/// segments is cut down to `kept`.
pub open spec fn purged_parts(original: int, kept: int) -> int {
    original - kept + 1
}

/// The speed at which segment `index` drifts off, once a chain of
/// `original` segments is cut down to `kept`: the centipede's speed times
/// `purged_part / purged_parts`, rounded down.
pub open spec fn purged_speed(speed: int, original: int, kept: int, index: int) -> int {
    (speed * purged_part(original, index)) / purged_parts(original, kept)
}

/// The share of the speed that a cut-off segment takes along is never
/// negative and never the whole.
pub proof fn lemma_purged_ratio_bounds(original: int, kept: int, index: int)
    requires
        0 <= kept <= index,
        kept < original,
    ensures
        0 <= purged_part(original, index) < purged_parts(original, kept),
{
}

/// A segment that is cut off drifts no faster than the centipede moved, and
/// never backward.
pub proof fn lemma_purged_speed_bounds(speed: int, original: int, kept: int, index: int)
    requires
        0 <= speed,
        0 <= kept <= index,
        kept < original,
    ensures
        0 <= purged_speed(speed, original, kept, index) <= speed,
{
    let share = purged_part(original, index);
    let parts = purged_parts(original, kept);
    assert(0 <= (speed * share) / parts <= speed) by (nonlinear_arith)
        requires
            0 <= speed,
            0 <= share < parts,
    ;
}

/// Of two segments that are cut off together, the one nearer to the head
/// drifts no slower than the other.
pub proof fn lemma_purged_speed_monotonic(
    speed: int,
    original: int,
    kept: int,
    near: int,
    far: int,
)
    requires
        0 <= speed,
        0 <= kept <= near <= far,
        kept < original,
    ensures
        purged_speed(speed, original, kept, far) <= purged_speed(speed, original, kept, near),
{
    let parts = purged_parts(original, kept);
    let a = speed * purged_part(original, far);
    let b = speed * purged_part(original, near);
    assert(a <= b) by (nonlinear_arith)
        requires
            0 <= speed,
            purged_part(original, far) <= purged_part(original, near),
            a == speed * purged_part(original, far),
            b == speed * purged_part(original, near),
    ;
    assert(a / parts <= b / parts) by (nonlinear_arith)
        requires
            a <= b,
            parts > 0,
    ;
}

fn purge_speed(speed: u32, original: usize, kept: usize, index: usize) -> (drift: u32)
    requires
        kept <= index,
        kept < original,
    ensures
        drift == purged_speed(speed as int, original as int, kept as int, index as int),
{
    if original > index {
        let share = (original - index) as u128;
        let parts = (original - kept) as u128 + 1;
        proof {
            lemma_purged_speed_bounds(speed as int, original as int, kept as int, index as int);
        }
        assert(0 <= speed * share <= 0xffff_ffff * 0xffff_ffff_ffff_ffff) by (nonlinear_arith)
            requires
                0 <= speed <= 0xffff_ffff,
                0 <= share <= 0xffff_ffff_ffff_ffff,
        ;
        ((speed as u128 * share) / parts) as u32
    } else {
        0
    }
}

/// What a living segment becomes when it is cut off at time `now`: it keeps
/// its place and its direction, and is gone after `PURGE_GRACE`.
pub open spec fn purged_tail(
    tail: LivingTail,
    now: u64,
    speed: u32,
    original: usize,
    kept: usize,
) -> PurgedTail {
    PurgedTail {
        position: tail.position,
        direction: tail.direction,
        removed_at: now.saturating_add(PURGE_GRACE),
        speed: purged_speed(speed as int, original as int, kept as int, tail.index as int) as u32,
    }
}

/// The segments of `tails` that stay when the chain is cut to `kept`.
pub open spec fn kept_tails(tails: Seq<LivingTail>, kept: usize) -> Seq<LivingTail> {
    tails.filter(|tail: LivingTail| tail.index < kept)
}

/// The segments of `tails` that go when a chain of `original` segments is
/// cut to `kept`, as purged segments and in their old order.
pub open spec fn cut_tails(
    tails: Seq<LivingTail>,
    now: u64,
    speed: u32,
    original: usize,
    kept: usize,
) -> Seq<PurgedTail> {
    tails.filter(|tail: LivingTail| tail.index >= kept).map_values(
        |tail: LivingTail| purged_tail(tail, now, speed, original, kept),
    )
}

/// Cuts the chain: after the centipede has gone from `original_count`
/// segments down to its present `tail_count`, every segment from that index
/// on is moved from `tails` to the end of `purged`. Nothing happens unless
/// the chain got shorter.
pub fn purge_tail(
    tails: &mut Vec<LivingTail>,
    purged: &mut Vec<PurgedTail>,
    now: u64,
    centipede: &Alive,
    original_count: usize,
)
    ensures
        original_count <= centipede.tail_count ==> final(tails)@ == old(tails)@
            && final(purged)@ == old(purged)@,
        original_count > centipede.tail_count ==> final(tails)@ == kept_tails(
            old(tails)@,
            centipede.tail_count,
        ) && final(purged)@ == old(purged)@ + cut_tails(
            old(tails)@,
            now,
            centipede.speed,
            original_count,
            centipede.tail_count,
        ),
{
    let kept = centipede.tail_count;
    if original_count <= kept {
        return ;
    }
    let ghost stays = |tail: LivingTail| tail.index < kept;
    let ghost goes = |tail: LivingTail| tail.index >= kept;
    let ghost turn = |tail: LivingTail|
        purged_tail(tail, now, centipede.speed, original_count, kept);
    let mut staying: Vec<LivingTail> = Vec::new();
    let total = tails.len();
    let mut i: usize = 0;
    assert(tails@.take(0) =~= Seq::<LivingTail>::empty());
    assert(purged@ =~= old(purged)@ + tails@.take(0).filter(goes).map_values(turn));
    while i < total
        invariant
            total == tails.len(),
            tails@ == old(tails)@,
            i <= total,
            kept == centipede.tail_count,
            kept < original_count,
            stays == |tail: LivingTail| tail.index < kept,
            goes == |tail: LivingTail| tail.index >= kept,
            turn == |tail: LivingTail|
                purged_tail(tail, now, centipede.speed, original_count, kept),
            staying@ == tails@.take(i as int).filter(stays),
            purged@ == old(purged)@ + tails@.take(i as int).filter(goes).map_values(turn),
        decreases total - i,
    {
        let tail = tails[i];
        proof {
            assert(tails@.take(i + 1) =~= tails@.take(i as int).push(tail));
            tails@.take(i as int).lemma_filter_push(tail, stays);
            tails@.take(i as int).lemma_filter_push(tail, goes);
        }
        if tail.index < kept {
            staying.push(tail);
        } else {
            let speed = purge_speed(centipede.speed, original_count, kept, tail.index);
            purged.push(
                PurgedTail {
                    position: tail.position,
                    direction: tail.direction,
                    removed_at: now.saturating_add(PURGE_GRACE),
                    speed,
                },
            );
            assert(purged@ =~= old(purged)@ + tails@.take(i + 1).filter(goes).map_values(turn));
        }
        i = i + 1;
    }
    assert(tails@.take(total as int) =~= tails@);
    *tails = staying;
}

/// The chain as a miss finds it and leaves it: the number of segments that
/// the centipede counts, those that live, and those that drift.
pub struct Chained {
    pub count: usize,
    pub living: Seq<LivingTail>,
    pub purged: Seq<PurgedTail>,
}

/// The chain cut down to `kept` segments at time `now`, the centipede moving
/// at `speed`. `kept` is no more than the chain counted before.
pub open spec fn cut(chained: Chained, now: u64, speed: u32, kept: usize) -> Chained {
    if chained.count <= kept {
        Chained { count: kept, ..chained }
    } else {
        Chained {
            count: kept,
            living: kept_tails(chained.living, kept),
            purged: chained.purged + cut_tails(chained.living, now, speed, chained.count, kept),
        }
    }
}

/// The chain after the head has hit a post: half of it is left, rounded
/// down.
pub open spec fn crushed(chained: Chained, now: u64, speed: u32) -> Chained {
    cut(chained, now, speed, chained.count / 2)
}

/// The chain after the head has hit `times` posts.
pub open spec fn crushed_times(chained: Chained, now: u64, speed: u32, times: nat) -> Chained
    decreases times,
{
    if times == 0 {
        chained
    } else {
        crushed_times(crushed(chained, now, speed), now, speed, (times - 1) as nat)
    }
}

/// The chain after the head has bitten the segment that `bite` names: the
/// chain ends before that segment. A bite at a segment that the chain no
/// longer counts changes nothing.
pub open spec fn eaten(chained: Chained, now: u64, speed: u32, bite: EatTail) -> Chained {
    if bite.tail_index >= chained.count {
        chained
    } else {
        cut(chained, now, speed, bite.tail_index)
    }
}

/// The chain after the bites of `bites`, taken in their order.
pub open spec fn eaten_all(chained: Chained, now: u64, speed: u32, bites: Seq<EatTail>) -> Chained
    decreases bites.len(),
{
    if bites.len() == 0 {
        chained
    } else {
        eaten_all(eaten(chained, now, speed, bites[0]), now, speed, bites.drop_first())
    }
}

/// Shortens the chain for every miss of this tick: first each hit post
/// halves it, then each bite ends it before the bitten segment. What is cut
/// off becomes purged. A dead centipede is left alone.
pub fn on_miss(
    tails: &mut Vec<LivingTail>,
    purged: &mut Vec<PurgedTail>,
    container: &mut CentipedeContainer,
    now: u64,
    eat_tail_reader: &Vec<EatTail>,
    crush_poll_reader: &Vec<CrushPoll>,
) -> (done: Option<()>)
    ensures
        done.is_none(),
        !old(container).is_alive() ==> *final(container) == *old(container) && final(tails)@
            == old(tails)@ && final(purged)@ == old(purged)@,
        old(container).is_alive() ==> ({
            let before = old(container).life();
            let start = Chained {
                count: before.tail_count,
                living: old(tails)@,
                purged: old(purged)@,
            };
            let end = eaten_all(
                crushed_times(start, now, before.speed, crush_poll_reader.len() as nat),
                now,
                before.speed,
                eat_tail_reader@,
            );
            &&& final(container).is_alive()
            &&& final(container).life() == with_tail_count(before, end.count)
            &&& final(tails)@ == end.living
            &&& final(purged)@ == end.purged
        }),
        old(container).is_alive() && in_step(old(tails)@, old(container).life().tail_count)
            ==> in_step(final(tails)@, final(container).life().tail_count) && final(container).life().tail_count <= old(container).life().tail_count,
{
    match &mut container.centipede {
        Centipede::Alive(centipede) => {
            let ghost before = *centipede;
            let ghost start = Chained {
                count: before.tail_count,
                living: tails@,
                purged: purged@,
            };
            let ghost mut chained = start;
            let crushes = crush_poll_reader.len();
            let mut i: usize = 0;
            while i < crushes
                invariant
                    i <= crushes,
                    *centipede == with_tail_count(before, chained.count),
                    tails@ == chained.living,
                    purged@ == chained.purged,
                    crushed_times(chained, now, before.speed, (crushes - i) as nat)
                        == crushed_times(start, now, before.speed, crushes as nat),
                decreases crushes - i,
            {
                let original_count = centipede.tail_count;
                centipede.tail_count = original_count / 2;
                purge_tail(tails, purged, now, &*centipede, original_count);
                proof {
                    chained = crushed(chained, now, before.speed);
                }
                i = i + 1;
            }
            let ghost halved = chained;
            let bites = eat_tail_reader.len();
            let mut j: usize = 0;
            assert(eat_tail_reader@.skip(0) =~= eat_tail_reader@);
            while j < bites
                invariant
                    j <= bites,
                    bites == eat_tail_reader.len(),
                    *centipede == with_tail_count(before, chained.count),
                    tails@ == chained.living,
                    purged@ == chained.purged,
                    eaten_all(chained, now, before.speed, eat_tail_reader@.skip(j as int))
                        == eaten_all(halved, now, before.speed, eat_tail_reader@),
                decreases bites - j,
            {
                let bite = eat_tail_reader[j];
                proof {
                    assert(eat_tail_reader@.skip(j as int).drop_first()
                        =~= eat_tail_reader@.skip(j + 1));
                    assert(eat_tail_reader@.skip(j as int)[0] == bite);
                }
                if bite.tail_index < centipede.tail_count {
                    let original_count = centipede.tail_count;
                    centipede.tail_count = bite.tail_index;
                    purge_tail(tails, purged, now, &*centipede, original_count);
                }
                proof {
                    chained = eaten(chained, now, before.speed, bite);
                }
                j = j + 1;
            }
            proof {
                if in_step(start.living, start.count) {
                    lemma_crushes_keep_step(start, now, before.speed, crushes as nat);
                    lemma_bites_keep_step(halved, now, before.speed, eat_tail_reader@);
                }
            }
        },
        Centipede::Dead(_) => {},
    }
    None
}

/// A purged segment after `delta` milliseconds of drifting along its
/// direction at its speed.
pub open spec fn drifted(tail: PurgedTail, delta: u32) -> PurgedTail {
    PurgedTail {
        position: tail.position.spec_moved(tail.direction, travel(tail.speed as int, delta as int)),
        ..tail
    }
}

/// The purged segments one tick later: those whose time has passed at `now`
/// are gone, the others have drifted for `delta` milliseconds.
pub open spec fn drifting(purged: Seq<PurgedTail>, now: u64, delta: u32) -> Seq<PurgedTail> {
    purged.filter(|tail: PurgedTail| now <= tail.removed_at).map_values(
        |tail: PurgedTail| drifted(tail, delta),
    )
}

/// Lets every purged segment drift for `delta` milliseconds, and removes
/// those whose time has passed at `now`.
pub fn purged_tail_system(now: u64, delta: u32, purged: &mut Vec<PurgedTail>)
    ensures
        final(purged)@ == drifting(old(purged)@, now, delta),
{
    let ghost stays = |tail: PurgedTail| now <= tail.removed_at;
    let ghost moves = |tail: PurgedTail| drifted(tail, delta);
    let mut staying: Vec<PurgedTail> = Vec::new();
    let total = purged.len();
    let mut i: usize = 0;
    assert(purged@.take(0) =~= Seq::<PurgedTail>::empty());
    assert(staying@ =~= purged@.take(0).filter(stays).map_values(moves));
    while i < total
        invariant
            total == purged.len(),
            purged@ == old(purged)@,
            i <= total,
            stays == |tail: PurgedTail| now <= tail.removed_at,
            moves == |tail: PurgedTail| drifted(tail, delta),
            staying@ == purged@.take(i as int).filter(stays).map_values(moves),
        decreases total - i,
    {
        let mut tail = purged[i];
        proof {
            assert(purged@.take(i + 1) =~= purged@.take(i as int).push(tail));
            purged@.take(i as int).lemma_filter_push(tail, stays);
        }
        if now <= tail.removed_at {
            let mut position = tail.position;
            position.move_to_with_sec(tail.direction, tail.speed, delta);
            tail.position = position;
            staying.push(tail);
            assert(staying@ =~= purged@.take(i + 1).filter(stays).map_values(moves));
        }
        i = i + 1;
    }
    assert(purged@.take(total as int) =~= purged@);
    *purged = staying;
}

/// The living segments are in step with the centipede's count: there are
/// as many as it counts, and the segment at place `i` of the list has the
/// index `i`.
pub open spec fn in_step(tails: Seq<LivingTail>, tail_count: usize) -> bool {
    &&& tails.len() == tail_count
    &&& forall|i: int| 0 <= i < tails.len() ==> (#[trigger] tails[i]).index == i
}

/// The chain of a new life is in step.
pub proof fn lemma_new_chain_is_in_step()
    ensures
        in_step(new_tails(0, INITIAL_CENTIPEDE_LENGTH as int), INITIAL_CENTIPEDE_LENGTH),
{
}

/// A chain in step stays in step when it grows: the new segments take the
/// next indices.
pub proof fn lemma_growth_keeps_step(tails: Seq<LivingTail>, tail_count: usize, grown: usize)
    requires
        in_step(tails, tail_count),
        tail_count + grown <= usize::MAX,
    ensures
        in_step(tails + new_tails(tail_count as int, grown as int), (tail_count + grown) as usize),
{
}

/// A chain in step stays in step when its segments are placed: no segment
/// changes its index.
pub proof fn lemma_placement_keeps_step(
    tails: Seq<LivingTail>,
    tail_count: usize,
    points: Seq<Position>,
    head: Position,
)
    requires
        in_step(tails, tail_count),
    ensures
        in_step(placed_all(tails, points, head), tail_count),
{
}

/// Of a chain in step a cut keeps the first `kept` segments and takes the
/// rest.
pub proof fn lemma_cut_splits(tails: Seq<LivingTail>, tail_count: usize, kept: usize)
    requires
        in_step(tails, tail_count),
        kept <= tail_count,
    ensures
        kept_tails(tails, kept) == tails.take(kept as int),
        tails.filter(|tail: LivingTail| tail.index >= kept) == tails.skip(kept as int),
    decreases tails.len(),
{
    let stays = |tail: LivingTail| tail.index < kept;
    let goes = |tail: LivingTail| tail.index >= kept;
    if tails.len() == 0 {
        assert(tails.filter(stays) =~= tails.take(kept as int));
        assert(tails.filter(goes) =~= tails.skip(kept as int));
    } else {
        let front = tails.drop_last();
        let last = tails.last();
        assert(tails =~= front.push(last));
        front.lemma_filter_push(last, stays);
        front.lemma_filter_push(last, goes);
        if kept == tail_count {
            lemma_cut_splits(front, (tail_count - 1) as usize, (kept - 1) as usize);
            lemma_all_stay(front, kept);
            assert(front.filter(stays) =~= front);
            assert(front.filter(goes) =~= Seq::<LivingTail>::empty());
            assert(tails.filter(stays) =~= tails.take(kept as int));
            assert(tails.filter(goes) =~= tails.skip(kept as int));
        } else {
            lemma_cut_splits(front, (tail_count - 1) as usize, kept);
            assert(front.take(kept as int) =~= tails.take(kept as int));
            assert(front.skip(kept as int).push(last) =~= tails.skip(kept as int));
        }
    }
}

proof fn lemma_all_stay(tails: Seq<LivingTail>, kept: usize)
    requires
        forall|i: int| 0 <= i < tails.len() ==> (#[trigger] tails[i]).index < kept,
    ensures
        tails.filter(|tail: LivingTail| tail.index < kept) == tails,
        tails.filter(|tail: LivingTail| tail.index >= kept) == Seq::<LivingTail>::empty(),
    decreases tails.len(),
{
    let stays = |tail: LivingTail| tail.index < kept;
    let goes = |tail: LivingTail| tail.index >= kept;
    if tails.len() == 0 {
        assert(tails.filter(stays) =~= tails);
        assert(tails.filter(goes) =~= Seq::<LivingTail>::empty());
    } else {
        let front = tails.drop_last();
        let last = tails.last();
        assert(tails =~= front.push(last));
        front.lemma_filter_push(last, stays);
        front.lemma_filter_push(last, goes);
        lemma_all_stay(front, kept);
    }
}

/// A cut leaves a chain in step as it found it, and every segment that it
/// takes turns up among the purged.
pub proof fn lemma_cut_keeps_step(chained: Chained, now: u64, speed: u32, kept: usize)
    requires
        in_step(chained.living, chained.count),
        kept <= chained.count,
    ensures
        in_step(cut(chained, now, speed, kept).living, cut(chained, now, speed, kept).count),
        cut(chained, now, speed, kept).count == kept,
        cut(chained, now, speed, kept).living == chained.living.take(kept as int),
        cut(chained, now, speed, kept).purged.len() == chained.purged.len() + chained.count
            - kept,
{
    lemma_cut_splits(chained.living, chained.count, kept);
    if chained.count == kept {
        assert(chained.living.take(kept as int) =~= chained.living);
    }
}

/// Hits of posts leave a chain in step as they found it, and never make it
/// longer.
pub proof fn lemma_crushes_keep_step(chained: Chained, now: u64, speed: u32, times: nat)
    requires
        in_step(chained.living, chained.count),
    ensures
        in_step(
            crushed_times(chained, now, speed, times).living,
            crushed_times(chained, now, speed, times).count,
        ),
        crushed_times(chained, now, speed, times).count <= chained.count,
    decreases times,
{
    if times > 0 {
        lemma_cut_keeps_step(chained, now, speed, (chained.count / 2) as usize);
        lemma_crushes_keep_step(crushed(chained, now, speed), now, speed, (times - 1) as nat);
    }
}

/// Bites leave a chain in step as they found it, and never make it longer.
pub proof fn lemma_bites_keep_step(chained: Chained, now: u64, speed: u32, bites: Seq<EatTail>)
    requires
        in_step(chained.living, chained.count),
    ensures
        in_step(
            eaten_all(chained, now, speed, bites).living,
            eaten_all(chained, now, speed, bites).count,
        ),
        eaten_all(chained, now, speed, bites).count <= chained.count,
    decreases bites.len(),
{
    if bites.len() > 0 {
        if bites[0].tail_index < chained.count {
            lemma_cut_keeps_step(chained, now, speed, bites[0].tail_index);
        }
        lemma_bites_keep_step(
            eaten(chained, now, speed, bites[0]),
            now,
            speed,
            bites.drop_first(),
        );
    }
}

} // verus!
