//! Gates: two posts with a bar between them, set on the board at a steady
//! pace and at places drawn by chance.

use vstd::prelude::*;
use crate::constants::{
    BOARD_X_BORDER, BOARD_X_SIZE, BOARD_Y_BORDER, BOARD_Y_SIZE, GATE_MAX_WIDTH, GATE_MIN_WIDTH,
    GATE_NOT_SPAWN_DISTANCE_TO_HEAD, GATE_SPAWN_ATTEMPTS, GATE_SPAWN_INTERVAL,
};
use crate::event::GameStart;
use crate::head::Head;
use crate::util::{CentipedeContainer, Position, Vec2};

verus! {

/// How many gates the present game has set up.
#[derive(Clone, Copy, PartialEq, Eq, Structural, Debug)]
pub struct GatesInfo {
    pub count: u64,
}

impl Default for GatesInfo {
    /// No gate yet.
    fn default() -> (info: Self)
        ensures
            info.count == 0,
    {
        GatesInfo { count: 0 }
    }
}

/// A post of a gate.
#[derive(Clone, Copy, PartialEq, Eq, Structural, Debug)]
pub struct Poll {
    pub position: Position,
}

/// The bar of a gate: its middle, its length from post to post, and how far
/// it is turned. A turn of `t` stands for the angle of `t / 2^32` half
/// turns.
#[derive(Clone, Copy, PartialEq, Eq, Structural, Debug)]
pub struct Bar {
    pub position: Position,
    pub length: u32,
    pub turn: u32,
}

/// A gate on the board.
#[derive(Clone, Copy, PartialEq, Eq, Structural, Debug)]
pub struct Gate {
    pub bar: Bar,
    /// The post toward which the bar's axis points.
    pub first: Poll,
    /// The post on the other side.
    pub second: Poll,
}

/// A post of the bar around `center`: half the bar's `length` from there
/// along `axis`.
pub open spec fn poll_at(center: Position, length: u32, axis: Vec2) -> Poll {
    Poll { position: center.spec_moved(axis, length as int / 2) }
}

/// Sets a post half of `length` from `center` along `axis`.
pub fn spawn_poll(center: &Position, length: u32, axis: Vec2) -> (poll: Poll)
    ensures
        poll == poll_at(*center, length, axis),
{
    let mut position = *center;
    position.move_to_with_distance(axis, (length / 2) as u64);
    Poll { position }
}

impl Gate {
    /// A gate with the given bar whose posts stand along `axis`, one on each side of
    /// the bar's middle.
    pub open spec fn spec_new(bar: Bar, axis: Vec2) -> Gate {
        Gate {
            bar,
            first: poll_at(bar.position, bar.length, axis),
            second: poll_at(bar.position, bar.length, axis.spec_opposite()),
        }
    }

    /// Builds a gate from its bar, with the two posts. `axis` is the direction
    /// in which the turned bar runs; the caller finds it from `bar.turn`.
    pub fn new(bar: Bar, axis: Vec2) -> (gate: Gate)
        ensures
            gate == Gate::spec_new(bar, axis),
    {
        Gate {
            bar,
            first: spawn_poll(&bar.position, bar.length, axis),
            second: spawn_poll(&bar.position, bar.length, axis.opposite()),
        }
    }
}

/// The part `draw / 2^32` of `span`, rounded down.
pub open spec fn share(draw: u32, span: int) -> int {
    (draw * span) / 0x1_0000_0000
}

fn share_of(draw: u32, span: i64) -> (part: i64)
    requires
        -0x1_0000_0000 <= span <= 0x1_0000_0000,
    ensures
        part == share(draw, span as int),
        span >= 0 ==> 0 <= part <= span,
        span <= 0 ==> span <= part <= 0,
{
    if span >= 0 {
        assert(0 <= draw * span <= 0xffff_ffff * span) by (nonlinear_arith)
            requires
                0 <= draw <= 0xffff_ffff,
                0 <= span,
        ;
        ((draw as u128 * span as u128) / 0x1_0000_0000) as i64
    } else {
        let size = (-span) as u128;
        assert(0 <= draw * size <= 0xffff_ffff * size) by (nonlinear_arith)
            requires
                0 <= draw <= 0xffff_ffff,
                0 <= size,
        ;
        assert(draw * span == -(draw * size)) by (nonlinear_arith)
            requires
                size == -span,
        ;
        let up = (draw as u128 * size + 0xffff_ffff) / 0x1_0000_0000;
        -(up as i64)
    }
}

/// The width that the draw `draw` gives to a gate: from `GATE_MIN_WIDTH`
/// up to, but not as far as, `GATE_MAX_WIDTH`, a larger draw giving no
/// narrower gate.
pub open spec fn width_of(draw: u32) -> int {
    GATE_MIN_WIDTH + share(draw, GATE_MAX_WIDTH - GATE_MIN_WIDTH)
}

/// The width that `draw` gives to a gate.
pub fn gate_width(draw: u32) -> (length: u32)
    ensures
        length == width_of(draw),
        GATE_MIN_WIDTH <= length < GATE_MAX_WIDTH,
{
    let part = share_of(draw, (GATE_MAX_WIDTH - GATE_MIN_WIDTH) as i64);
    assert(part < GATE_MAX_WIDTH - GATE_MIN_WIDTH) by {
        assert(draw * 80000 <= 0xffff_ffff * 80000) by (nonlinear_arith)
            requires
                0 <= draw <= 0xffff_ffff,
        ;
    }
    GATE_MIN_WIDTH + part as u32
}

/// One coordinate of a candidate: the draw spreads the middle of a gate of
/// the given `length` over a board of the width `size` that reaches `border`
/// to each side of the origin, kept half the length away from either edge.
pub open spec fn spread(draw: u32, size: int, border: int, length: u32) -> int {
    share(draw, size - length) - (border - length as int / 2)
}

/// The place that two draws give to a gate of the given `length`.
pub open spec fn candidate(length: u32, draw_x: u32, draw_y: u32) -> Position {
    Position {
        x: spread(draw_x, BOARD_X_SIZE as int, BOARD_X_BORDER as int, length) as i32,
        y: spread(draw_y, BOARD_Y_SIZE as int, BOARD_Y_BORDER as int, length) as i32,
        visible: true,
    }
}

/// A gate that is narrower than the board gets its place on the board, and
/// half its length away from every edge.
pub proof fn lemma_candidate_is_inset(length: u32, draw_x: u32, draw_y: u32)
    requires
        length < BOARD_Y_SIZE,
    ensures
        ({
            let place = candidate(length, draw_x, draw_y);
            let half = length as int / 2;
            &&& -(BOARD_X_BORDER - half) <= place.x < BOARD_X_BORDER - half
            &&& -(BOARD_Y_BORDER - half) <= place.y < BOARD_Y_BORDER - half
        }),
{
    lemma_share_is_less(draw_x, BOARD_X_SIZE - length);
    lemma_share_is_less(draw_y, BOARD_Y_SIZE - length);
}

proof fn lemma_share_is_less(draw: u32, span: int)
    requires
        0 < span,
    ensures
        0 <= share(draw, span) < span,
{
    assert(0 <= draw * span < 0x1_0000_0000 * span) by (nonlinear_arith)
        requires
            0 <= draw < 0x1_0000_0000,
            0 < span,
    ;
}

fn spread_of(draw: u32, size: i32, border: i32, length: u32) -> (at: i32)
    requires
        size == 2 * border,
        0 <= border <= 0x1000_0000,
    ensures
        at == spread(draw, size as int, border as int, length),
{
    let part = share_of(draw, size as i64 - length as i64);
    (part - (border as i64 - (length / 2) as i64)) as i32
}

/// The place that two draws give to a gate of the given `length`.
pub fn gate_candidate(length: u32, draw_x: u32, draw_y: u32) -> (place: Position)
    ensures
        place == candidate(length, draw_x, draw_y),
{
    Position {
        x: spread_of(draw_x, BOARD_X_SIZE, BOARD_X_BORDER, length),
        y: spread_of(draw_y, BOARD_Y_SIZE, BOARD_Y_BORDER, length),
        visible: true,
    }
}

/// A gate of the given `length` at `place` keeps clear of `other`:
/// their middles are further apart than half of both lengths together.
pub open spec fn clear_of(place: Position, length: u32, other: Gate) -> bool {
    !place.spec_within_half(other.bar.position, length + other.bar.length)
}

/// A gate of the given `length` may stand at `place`: the head is further
/// than `GATE_NOT_SPAWN_DISTANCE_TO_HEAD` away, and the place keeps clear of
/// every gate there is.
pub open spec fn fits(place: Position, length: u32, gates: Seq<Gate>, head: Position) -> bool {
    &&& !head.spec_within(place, GATE_NOT_SPAWN_DISTANCE_TO_HEAD as int)
    &&& forall|i: int| 0 <= i < gates.len() ==> clear_of(place, length, #[trigger] gates[i])
}

/// Whether a gate of the given `length` may stand at `place`.
pub fn gate_fits(place: &Position, length: u32, gates: &Vec<Gate>, head_position: &Position) -> (ok:
    bool)
    ensures
        ok == fits(*place, length, gates@, *head_position),
{
    if head_position.within(place, GATE_NOT_SPAWN_DISTANCE_TO_HEAD) {
        return false;
    }
    let mut i: usize = 0;
    while i < gates.len()
        invariant
            i <= gates.len(),
            forall|j: int| 0 <= j < i ==> clear_of(*place, length, #[trigger] gates[j]),
        decreases gates.len() - i,
    {
        let other = &gates[i].bar;
        if place.within_half(&other.position, length as u64 + other.length as u64) {
            return false;
        }
        i = i + 1;
    }
    true
}

/// The first place among the candidates of `draws` at which a gate of the
/// given `length` may stand, if there is one. Each draw is a pair, for `x`
/// and for `y`.
pub open spec fn first_fit(
    length: u32,
    draws: Seq<(u32, u32)>,
    gates: Seq<Gate>,
    head: Position,
) -> Option<Position>
    decreases draws.len(),
{
    if draws.len() == 0 {
        None
    } else {
        let place = candidate(length, draws[0].0, draws[0].1);
        if fits(place, length, gates, head) {
            Some(place)
        } else {
            first_fit(length, draws.drop_first(), gates, head)
        }
    }
}

/// A place that is found keeps clear of the head and of every gate.
pub proof fn lemma_first_fit_fits(
    length: u32,
    draws: Seq<(u32, u32)>,
    gates: Seq<Gate>,
    head: Position,
)
    ensures
        first_fit(length, draws, gates, head) matches Some(place) ==> fits(
            place,
            length,
            gates,
            head,
        ),
    decreases draws.len(),
{
    if draws.len() > 0 {
        lemma_first_fit_fits(length, draws.drop_first(), gates, head);
    }
}

/// Draws that all fail stay failed when one more is tried: the search then
/// rests on that one alone.
proof fn lemma_first_fit_after_misses(
    length: u32,
    draws: Seq<(u32, u32)>,
    next: (u32, u32),
    gates: Seq<Gate>,
    head: Position,
)
    requires
        first_fit(length, draws, gates, head) is None,
    ensures
        first_fit(length, draws.push(next), gates, head) == first_fit(
            length,
            seq![next],
            gates,
            head,
        ),
    decreases draws.len(),
{
    if draws.len() > 0 {
        assert(draws.push(next).drop_first() =~= draws.drop_first().push(next));
        lemma_first_fit_after_misses(length, draws.drop_first(), next, gates, head);
    } else {
        assert(draws.push(next) =~= seq![next]);
    }
}

/// What came of a search with the given draws: the first candidate that
/// fits, after no more than `GATE_SPAWN_ATTEMPTS` draws, or nothing after
/// all of them.
pub open spec fn searched(
    found: Option<Position>,
    length: u32,
    draws: Seq<(u32, u32)>,
    gates: Seq<Gate>,
    head: Position,
) -> bool {
    &&& draws.len() <= GATE_SPAWN_ATTEMPTS
    &&& found == first_fit(length, draws, gates, head)
    &&& found is None ==> draws.len() == GATE_SPAWN_ATTEMPTS
}

/// Draws a number by chance with `rand::random`, which takes it from the
/// thread's generator. Each of the 2^32 numbers may come, so nothing is
/// promised of the result. The generator is seeded by the system, and the
/// call fails where the system has no seed to give.
#[verifier::external_body]
fn draw() -> (number: u32) {
    rand::random::<u32>()
}

/// Looks for a place for a gate of the given `length`: up to
/// `GATE_SPAWN_ATTEMPTS` candidates are drawn, and the first that fits is
/// taken. Where none of them fits there is no place this time.
pub fn gate_position(length: u32, gates: &Vec<Gate>, head_position: &Position) -> (found: Option<
    Position,
>)
    ensures
        exists|draws: Seq<(u32, u32)>| #[trigger]
            searched(found, length, draws, gates@, *head_position),
        found matches Some(place) ==> fits(place, length, gates@, *head_position),
{
    let mut attempt: usize = 0;
    let ghost mut draws: Seq<(u32, u32)> = Seq::empty();
    while attempt < GATE_SPAWN_ATTEMPTS
        invariant
            attempt <= GATE_SPAWN_ATTEMPTS,
            draws.len() == attempt,
            first_fit(length, draws, gates@, *head_position) is None,
        decreases GATE_SPAWN_ATTEMPTS - attempt,
    {
        let draw_x = draw();
        let draw_y = draw();
        let place = gate_candidate(length, draw_x, draw_y);
        let ok = gate_fits(&place, length, gates, head_position);
        proof {
            lemma_first_fit_after_misses(length, draws, (draw_x, draw_y), gates@, *head_position);
            let one = seq![(draw_x, draw_y)];
            assert(one.drop_first().len() == 0);
            assert(first_fit(length, one.drop_first(), gates@, *head_position) is None);
            assert(first_fit(length, one, gates@, *head_position) == if ok {
                Some(place)
            } else {
                None
            });
            draws = draws.push((draw_x, draw_y));
        }
        if ok {
            assert(searched(Some(place), length, draws, gates@, *head_position));
            return Some(place);
        }
        attempt = attempt + 1;
    }
    assert(searched(None, length, draws, gates@, *head_position));
    None
}

/// Whether a gate is due: fewer gates were set up than `GATE_SPAWN_INTERVAL`
/// fits into the time that the game has run.
pub open spec fn due(elapsed: u64, info: GatesInfo) -> bool {
    info.count < elapsed / GATE_SPAWN_INTERVAL
}

/// The bar and the count that follow from a search: a place that was found
/// gives a bar there, and one gate more is counted; no place gives no bar,
/// and the count stays.
pub open spec fn spawned_from(
    found: Option<Position>,
    length: u32,
    turn: u32,
    before: GatesInfo,
) -> (Option<Bar>, GatesInfo) {
    match found {
        Some(position) => (
            Some(Bar { position, length, turn }),
            GatesInfo { count: (before.count + 1) as u64 },
        ),
        None => (None, before),
    }
}

/// What came of setting up a gate with the given draws: the first draw gave
/// the width, `draws` were tried for the place, and `turn` is the bar's
/// turn.
pub open spec fn set_up(
    spawned: Option<Bar>,
    after: GatesInfo,
    before: GatesInfo,
    width_draw: u32,
    draws: Seq<(u32, u32)>,
    turn: u32,
    gates: Seq<Gate>,
    head: Position,
) -> bool {
    let length = width_of(width_draw) as u32;
    let found = first_fit(length, draws, gates, head);
    &&& searched(found, length, draws, gates, head)
    &&& (spawned, after) == spawned_from(found, length, turn, before)
}

/// Sets up the next gate when one is due.
///
/// No gate is due, or the centipede is dead: nothing happens. Else a width
/// is drawn and a place is looked for. Where one is found, this gate is
/// counted and its bar is handed back, with a turn drawn by chance; where
/// none is found, a gate stays due.
pub fn spawn_gate_system(
    container: &CentipedeContainer,
    elapsed: u64,
    gates_info: &mut GatesInfo,
    head: &Head,
    gates: &Vec<Gate>,
) -> (spawned: Option<Bar>)
    ensures
        !(due(elapsed, *old(gates_info)) && container.is_alive()) ==> spawned.is_none()
            && *final(gates_info) == *old(gates_info),
        due(elapsed, *old(gates_info)) && container.is_alive() ==> exists|
            width_draw: u32,
            draws: Seq<(u32, u32)>,
            turn: u32,
        | #[trigger]
            set_up(
                spawned,
                *final(gates_info),
                *old(gates_info),
                width_draw,
                draws,
                turn,
                gates@,
                head.position,
            ),
        spawned matches Some(bar) ==> GATE_MIN_WIDTH <= bar.length < GATE_MAX_WIDTH && fits(
            bar.position,
            bar.length,
            gates@,
            head.position,
        ),
        old(gates_info).count <= final(gates_info).count <= old(gates_info).count + 1,
        old(gates_info).count <= elapsed / GATE_SPAWN_INTERVAL ==> final(gates_info).count
            <= elapsed / GATE_SPAWN_INTERVAL,
{
    if gates_info.count < elapsed / GATE_SPAWN_INTERVAL && container.head_entity().is_some() {
        let width_draw = draw();
        let length = gate_width(width_draw);
        let found = gate_position(length, gates, &head.position);
        let ghost draws = choose|draws: Seq<(u32, u32)>| #[trigger]
            searched(found, length, draws, gates@, head.position);
        match found {
            Some(position) => {
                let turn = draw();
                gates_info.count = gates_info.count + 1;
                assert(set_up(
                    Some(Bar { position, length, turn }),
                    *gates_info,
                    *old(gates_info),
                    width_draw,
                    draws,
                    turn,
                    gates@,
                    head.position,
                ));
                Some(Bar { position, length, turn })
            },
            None => {
                assert(set_up(
                    None,
                    *gates_info,
                    *old(gates_info),
                    width_draw,
                    draws,
                    0,
                    gates@,
                    head.position,
                ));
                None
            },
        }
    } else {
        None
    }
}

/// With a new life the board is cleared: every gate goes, and the count of
/// gates starts again at zero.
pub fn on_game_start(
    gates: &mut Vec<Gate>,
    gates_info: &mut GatesInfo,
    start_reader: &Vec<GameStart>,
)
    ensures
        start_reader.len() == 0 ==> final(gates)@ == old(gates)@ && *final(gates_info) == *old(gates_info),
        start_reader.len() > 0 ==> final(gates)@ == Seq::<Gate>::empty() && final(gates_info).count == 0,
{
    if start_reader.len() > 0 {
        gates.clear();
        gates_info.count = 0;
    }
}

} // verus!
