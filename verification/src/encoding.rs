//! States and search results as planes of numbers: the picture of a state
//! for an evaluator, and the place of each move in a policy.

use vstd::prelude::*;
use crate::action::{BoardAction, Coordinate};
use crate::board::Board;
use crate::game::{is_offer, BoardState, GameView};
use crate::grid::{cell_at, on_board, Cell, HEIGHT, WIDTH};
use crate::player::Player;

verus! {

/// The number of planes that picture a state.
pub const INPUT_PLANES: usize = 4;

/// The number of planes that hold a policy.
pub const POLICY_PLANES: usize = 3;

/// The number of places of a policy: three planes of the grid's size.
pub const POLICY_SIZE: usize = 192;

/// What plane `plane` of the picture of `v` holds at column `x`, row `y`.
///
/// The first plane marks the stones of the player to move, the second
/// those of the opponent. The third holds the points of the player to move
/// in every place, the fourth those of the opponent; a plane holds a byte,
/// so points are kept modulo 256.
pub open spec fn input_value(v: GameView, plane: int, x: int, y: int) -> int {
    if plane == 0 {
        if cell_at(v.grid, x, y) == Cell::Filled(v.mover) {
            1
        } else {
            0
        }
    } else if plane == 1 {
        if cell_at(v.grid, x, y) == Cell::Filled(v.mover.other()) {
            1
        } else {
            0
        }
    } else if plane == 2 {
        v.points_of(v.mover) as int % 256
    } else {
        v.points_of(v.mover.other()) as int % 256
    }
}

/// Whether `plane` has the size of the grid and holds `f(x, y)` at column
/// `x`, row `y`.
pub open spec fn is_plane(plane: Seq<Vec<u8>>, f: spec_fn(int, int) -> int) -> bool {
    &&& plane.len() == WIDTH
    &&& forall|x: int| 0 <= x < WIDTH ==> (#[trigger] plane[x])@.len() == HEIGHT
    &&& forall|x: int, y: int| on_board(x, y) ==> #[trigger] plane[x]@[y] == f(x, y)
}

/// Whether `planes` picture the state `v`.
pub open spec fn is_input(planes: Seq<Vec<Vec<u8>>>, v: GameView) -> bool {
    &&& planes.len() == INPUT_PLANES
    &&& forall|p: int|
        0 <= p < INPUT_PLANES ==> is_plane(
            (#[trigger] planes[p])@,
            |x: int, y: int| input_value(v, p, x, y),
        )
}

/// The plane that marks the stones of `player` with a one.
fn stone_plane(board: &Board, player: Player) -> (plane: Vec<Vec<u8>>)
    ensures
        is_plane(
            plane@,
            |x: int, y: int|
                if cell_at(board@, x, y) == Cell::Filled(player) {
                    1int
                } else {
                    0int
                },
        ),
{
    let mut plane: Vec<Vec<u8>> = Vec::new();
    for x in 0..WIDTH
        invariant
            plane@.len() == x,
            forall|i: int| 0 <= i < x ==> (#[trigger] plane@[i])@.len() == HEIGHT,
            forall|i: int, j: int|
                0 <= i < x && 0 <= j < HEIGHT ==> #[trigger] plane@[i]@[j] == if cell_at(
                    board@,
                    i,
                    j,
                ) == Cell::Filled(player) {
                    1int
                } else {
                    0int
                },
    {
        let mut column: Vec<u8> = Vec::new();
        for y in 0..HEIGHT
            invariant
                x < WIDTH,
                column@.len() == y,
                forall|j: int|
                    0 <= j < y ==> #[trigger] column@[j] == if cell_at(board@, x as int, j)
                        == Cell::Filled(player) {
                        1int
                    } else {
                        0int
                    },
        {
            let mark: u8 = match board.get(Coordinate::new(x as isize, y as isize)) {
                Cell::Filled(p) => if p == player {
                    1
                } else {
                    0
                },
                Cell::Empty => 0,
            };
            column.push(mark);
        }
        plane.push(column);
    }
    plane
}

/// The plane that holds `value` in every place.
fn flat_plane(value: u8) -> (plane: Vec<Vec<u8>>)
    ensures
        is_plane(plane@, |x: int, y: int| value as int),
{
    let mut plane: Vec<Vec<u8>> = Vec::new();
    for x in 0..WIDTH
        invariant
            plane@.len() == x,
            forall|i: int| 0 <= i < x ==> (#[trigger] plane@[i])@.len() == HEIGHT,
            forall|i: int, j: int| 0 <= i < x && 0 <= j < HEIGHT ==> #[trigger] plane@[i]@[j] == value,
    {
        let mut column: Vec<u8> = Vec::new();
        for y in 0..HEIGHT
            invariant
                column@.len() == y,
                forall|j: int| 0 <= j < y ==> #[trigger] column@[j] == value,
        {
            column.push(value);
        }
        plane.push(column);
    }
    plane
}

/// The picture of a state, as it is shown to an evaluator: four planes of
/// the grid's size, seen from the player to move.
pub fn state_to_input(state: &BoardState) -> (planes: Vec<Vec<Vec<u8>>>)
    ensures
        is_input(planes@, state@),
{
    let player = state.current_player();
    let next_player = player.next_player();

    let cross_plane = stone_plane(state.board(), player);
    let circle_plane = stone_plane(state.board(), next_player);
    let own_points_plane = flat_plane((state.points(player) % 256) as u8);
    let other_points_plane = flat_plane((state.points(next_player) % 256) as u8);

    let mut planes: Vec<Vec<Vec<u8>>> = Vec::new();
    planes.push(cross_plane);
    planes.push(circle_plane);
    planes.push(own_points_plane);
    planes.push(other_points_plane);
    planes
}

/// Whether a policy has a place for `action`: a drop goes into a column of
/// the grid, and a switch joins two places of the grid in one column or in
/// one row.
pub open spec fn has_slot(action: BoardAction) -> bool {
    match action {
        BoardAction::DropStone(_, col) => col < WIDTH,
        BoardAction::SwitchStone(a, b) => {
            &&& on_board(a.0 as int, a.1 as int)
            &&& on_board(b.0 as int, b.1 as int)
            &&& a.0 == b.0 || a.1 == b.1
        },
    }
}

/// The smaller of two integers.
pub open spec fn least(a: int, b: int) -> int {
    if a <= b {
        a
    } else {
        b
    }
}

/// The place of `action` in a policy, as plane, column and row: a drop
/// stands in the first plane, in the bottom row of its column; a switch
/// within a column in the second plane, at the lower of its two places; a
/// switch within a row in the third plane, at the left one.
pub open spec fn slot_of(action: BoardAction) -> (int, int, int) {
    match action {
        BoardAction::DropStone(_, col) => (0, col as int, 0),
        BoardAction::SwitchStone(a, b) => if a.0 == b.0 {
            (1, a.0 as int, least(a.1 as int, b.1 as int))
        } else {
            (2, least(a.0 as int, b.0 as int), a.1 as int)
        },
    }
}

/// Where the place of plane `slot.0`, column `slot.1`, row `slot.2` lies in
/// a policy that is written out plane by plane and column by column.
pub open spec fn offset_of(slot: (int, int, int)) -> int {
    slot.0 * (WIDTH * HEIGHT) + slot.1 * HEIGHT + slot.2
}

/// Whether a policy has a place for `action`: see [`has_slot`].
pub fn has_policy_slot(action: &BoardAction) -> (ok: bool)
    ensures
        ok == has_slot(*action),
{
    match action {
        BoardAction::DropStone(_, col) => *col < WIDTH,
        BoardAction::SwitchStone(a, b) => a.is_contained(
            (0, 0),
            (WIDTH as isize, HEIGHT as isize),
        ) && b.is_contained((0, 0), (WIDTH as isize, HEIGHT as isize)) && (a.x() == b.x() || a.y()
            == b.y()),
    }
}

/// The place of `action` in a policy: see [`slot_of`].
pub fn policy_slot(action: &BoardAction) -> (slot: (usize, usize, usize))
    requires
        has_slot(*action),
    ensures
        (slot.0 as int, slot.1 as int, slot.2 as int) == slot_of(*action),
        slot.0 < POLICY_PLANES,
        slot.1 < WIDTH,
        slot.2 < HEIGHT,
{
    match action {
        BoardAction::DropStone(_, col) => (0, *col, 0),
        BoardAction::SwitchStone(a, b) => {
            if a.x() == b.x() {
                let y = if a.y() <= b.y() {
                    a.y()
                } else {
                    b.y()
                };
                (1, a.x() as usize, y as usize)
            } else {
                let x = if a.x() <= b.x() {
                    a.x()
                } else {
                    b.x()
                };
                (2, x as usize, a.y() as usize)
            }
        },
    }
}

/// Where the place of `action` lies in a policy that is written out plane
/// by plane and column by column.
pub fn policy_offset(action: &BoardAction) -> (offset: usize)
    requires
        has_slot(*action),
    ensures
        offset == offset_of(slot_of(*action)),
        offset < POLICY_SIZE,
{
    let (plane, x, y) = policy_slot(action);
    plane * (WIDTH * HEIGHT) + x * HEIGHT + y
}

/// How often a search has tried a move.
#[derive(Debug, Clone, Copy, PartialEq, Eq, Structural)]
pub struct MoveStat {
    /// The move.
    pub action: BoardAction,
    /// The number of visits.
    pub visits: u64,
}

/// What a search has found at one position: how often it has visited each
/// place of a policy, and how often any. The share of a place in the total
/// is the probability of its move.
#[derive(Debug, Clone, PartialEq, Eq)]
pub struct Policy {
    /// The visits of each place, plane by plane and column by column.
    pub visits: Vec<u64>,
    /// The visits of all moves.
    pub total: u64,
}

/// The visits of the first `n` moves of `stats`, taken together.
pub open spec fn visits_sum(stats: Seq<MoveStat>, n: int) -> int
    decreases n,
{
    if n <= 0 {
        0
    } else {
        visits_sum(stats, n - 1) + stats[n - 1].visits
    }
}

/// The visits that stand in a policy once the first `n` moves of `stats`
/// have been written into it, each at its place: a place that no move has
/// holds zero, and of two moves with one place the later one stays.
pub open spec fn written(stats: Seq<MoveStat>, n: int) -> Seq<u64>
    decreases n,
{
    if n <= 0 {
        Seq::new(POLICY_SIZE as nat, |i: int| 0u64)
    } else {
        written(stats, n - 1).update(offset_of(slot_of(stats[n - 1].action)), stats[n - 1].visits)
    }
}

/// Whether a policy can be made of `stats`: every move has a place, and the
/// visits of all moves together are a machine integer and not zero.
pub open spec fn is_search_result(stats: Seq<MoveStat>) -> bool {
    &&& forall|i: int| 0 <= i < stats.len() ==> has_slot(#[trigger] stats[i].action)
    &&& 0 < visits_sum(stats, stats.len() as int) <= u64::MAX
}

/// The visits of the first `n` moves do not exceed those of all.
pub proof fn lemma_visits_sum_grows(stats: Seq<MoveStat>, n: int, m: int)
    requires
        0 <= n <= m,
    ensures
        0 <= visits_sum(stats, n) <= visits_sum(stats, m),
    decreases m,
{
    if n < m {
        lemma_visits_sum_grows(stats, n, m - 1);
    } else if n > 0 {
        lemma_visits_sum_grows(stats, n - 1, n - 1);
    }
}

/// Whether a policy can be made of `stats`: see [`is_search_result`].
pub fn can_make_policy(stats: &Vec<MoveStat>) -> (ok: bool)
    ensures
        ok == is_search_result(stats@),
{
    let mut total: u64 = 0;
    for i in 0..stats.len()
        invariant
            total == visits_sum(stats@, i as int),
            forall|k: int| 0 <= k < i ==> has_slot(#[trigger] stats@[k].action),
    {
        if !has_policy_slot(&stats[i].action) {
            return false;
        }
        if stats[i].visits > u64::MAX - total {
            proof {
                lemma_visits_sum_grows(stats@, i + 1, stats@.len() as int);
            }
            return false;
        }
        total += stats[i].visits;
    }
    total > 0
}

/// The policy that a search's visits make: each move's visits at the
/// move's place, and the visits of all moves as the total.
pub fn moves_to_policy(stats: &Vec<MoveStat>) -> (policy: Policy)
    requires
        is_search_result(stats@),
    ensures
        policy.visits@ == written(stats@, stats@.len() as int),
        policy.total == visits_sum(stats@, stats@.len() as int),
{
    let mut visits: Vec<u64> = Vec::new();
    for i in 0..POLICY_SIZE
        invariant
            visits@.len() == i,
            forall|k: int| 0 <= k < i ==> #[trigger] visits@[k] == 0,
    {
        visits.push(0);
    }
    assert(visits@ =~= written(stats@, 0));

    let mut parent_visits: u64 = 0;
    for i in 0..stats.len()
        invariant
            is_search_result(stats@),
            parent_visits == visits_sum(stats@, i as int),
    {
        proof {
            lemma_visits_sum_grows(stats@, i + 1, stats@.len() as int);
        }
        parent_visits += stats[i].visits;
    }

    for i in 0..stats.len()
        invariant
            is_search_result(stats@),
            visits@.len() == POLICY_SIZE,
            visits@ == written(stats@, i as int),
    {
        let m = &stats[i];
        let offset = policy_offset(&m.action);
        visits.set(offset, m.visits);
    }

    Policy { visits, total: parent_visits }
}

/// What a policy holds for each of `moves`: the value at the move's place.
pub fn policy_to_moves<T: Copy>(policy: &Vec<T>, moves: &Vec<BoardAction>) -> (values: Vec<T>)
    requires
        policy@.len() == POLICY_SIZE,
        forall|i: int| 0 <= i < moves@.len() ==> has_slot(#[trigger] moves@[i]),
    ensures
        values@.len() == moves@.len(),
        forall|i: int|
            0 <= i < moves@.len() ==> #[trigger] values@[i] == policy@[offset_of(slot_of(moves@[i]))],
{
    let mut values: Vec<T> = Vec::new();
    for i in 0..moves.len()
        invariant
            policy@.len() == POLICY_SIZE,
            forall|k: int| 0 <= k < moves@.len() ==> has_slot(#[trigger] moves@[k]),
            values@.len() == i,
            forall|k: int|
                0 <= k < i ==> #[trigger] values@[k] == policy@[offset_of(slot_of(moves@[k]))],
    {
        let offset = policy_offset(&moves[i]);
        values.push(policy[offset]);
    }
    values
}

/// Two moves with a place each have one place only if they agree in plane,
/// column and row.
pub proof fn lemma_offset_injective(a: BoardAction, b: BoardAction)
    requires
        has_slot(a),
        has_slot(b),
        offset_of(slot_of(a)) == offset_of(slot_of(b)),
    ensures
        slot_of(a) == slot_of(b),
{
}

/// A policy that was made of a search's visits gives each move its visits
/// back, unless a later move of the search has the same place.
pub proof fn lemma_policy_round_trip(stats: Seq<MoveStat>, n: int, i: int)
    requires
        0 <= i < n <= stats.len(),
        forall|k: int| 0 <= k < stats.len() ==> has_slot(#[trigger] stats[k].action),
        forall|k: int|
            i < k < n ==> offset_of(slot_of(#[trigger] stats[k].action)) != offset_of(
                slot_of(stats[i].action),
            ),
    ensures
        written(stats, n).len() == POLICY_SIZE,
        written(stats, n)[offset_of(slot_of(stats[i].action))] == stats[i].visits,
    decreases n,
{
    lemma_written_len(stats, n);
    lemma_written_len(stats, n - 1);
    assert(has_slot(stats[n - 1].action));
    assert(has_slot(stats[i].action));
    if i < n - 1 {
        lemma_policy_round_trip(stats, n - 1, i);
        assert(offset_of(slot_of(stats[n - 1].action)) != offset_of(slot_of(stats[i].action)));
    }
}

/// A policy has a place for every plane, column and row.
pub proof fn lemma_written_len(stats: Seq<MoveStat>, n: int)
    requires
        n <= stats.len(),
        forall|k: int| 0 <= k < stats.len() ==> has_slot(#[trigger] stats[k].action),
    ensures
        written(stats, n).len() == POLICY_SIZE,
    decreases n,
{
    if n > 0 {
        lemma_written_len(stats, n - 1);
        assert(has_slot(stats[n - 1].action));
    }
}

/// Every move that a state offers has a place in a policy, and no two of
/// them have the same place.
pub proof fn lemma_offers_have_own_slots(v: GameView, a: BoardAction, b: BoardAction)
    requires
        is_offer(v, a),
        is_offer(v, b),
    ensures
        has_slot(a),
        has_slot(b),
        offset_of(slot_of(a)) == offset_of(slot_of(b)) ==> a == b,
{
    if offset_of(slot_of(a)) == offset_of(slot_of(b)) {
        lemma_offset_injective(a, b);
    }
}

/// A policy that was made of a search's visits of the moves that a state
/// offers, each move once, gives every move its visits back.
pub proof fn lemma_offered_round_trip(v: GameView, stats: Seq<MoveStat>, i: int)
    requires
        0 <= i < stats.len(),
        forall|k: int| 0 <= k < stats.len() ==> is_offer(v, #[trigger] stats[k].action),
        forall|k: int, m: int|
            0 <= k < stats.len() && 0 <= m < stats.len() && k != m ==> (#[trigger] stats[k]).action
                != (#[trigger] stats[m]).action,
    ensures
        written(stats, stats.len() as int)[offset_of(slot_of(stats[i].action))] == stats[i].visits,
{
    assert forall|k: int| 0 <= k < stats.len() implies has_slot(#[trigger] stats[k].action) by {
        lemma_offers_have_own_slots(v, stats[k].action, stats[k].action);
    }
    assert forall|k: int| i < k < stats.len() implies offset_of(
        slot_of(#[trigger] stats[k].action),
    ) != offset_of(slot_of(stats[i].action)) by {
        lemma_offers_have_own_slots(v, stats[k].action, stats[i].action);
        assert(stats[k].action != stats[i].action);
    }
    lemma_policy_round_trip(stats, stats.len() as int, i);
}

} // verus!
