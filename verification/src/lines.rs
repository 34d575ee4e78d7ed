//! Lines of stones: how far a line goes, and the lines of exactly four
//! that end a game.

use vstd::prelude::*;
use crate::grid::{cell_at, on_board, Cell, Grid, HEIGHT, WIDTH};
use crate::player::Player;

verus! {

/// The outcome that a position may have reached.
#[derive(Debug, Clone, Copy, PartialEq, Eq, Hash, Structural)]
pub enum TerminalResult {
    Ongoing,
    Win(Player),
    Draw,
}

impl Default for TerminalResult {
    fn default() -> (result: TerminalResult)
        ensures
            result == TerminalResult::Ongoing,
    {
        TerminalResult::Ongoing
    }
}

/// Whether `(dx, dy)` leads from a place to another one.
pub open spec fn is_step(dx: int, dy: int) -> bool {
    dx != 0 || dy != 0
}

/// A bound on the places of the grid that are met from column `x`, row `y`
/// by going on by `(dx, dy)`: no line on the grid is longer.
pub open spec fn reach(x: int, y: int, dx: int, dy: int) -> nat {
    if !on_board(x, y) {
        0
    } else if dx > 0 {
        (WIDTH - x) as nat
    } else if dx < 0 {
        (x + 1) as nat
    } else if dy > 0 {
        (HEIGHT - y) as nat
    } else {
        (y + 1) as nat
    }
}

/// The places of the unbroken line of `p`'s stones that begins at column
/// `x`, row `y` and goes on by `(dx, dy)`, in that order. It is empty where
/// `p` has no stone at its beginning.
pub open spec fn run_cells(g: Grid, p: Player, x: int, y: int, dx: int, dy: int) -> Seq<(int, int)>
    decreases reach(x, y, dx, dy),
    when is_step(dx, dy)
{
    if cell_at(g, x, y) == Cell::Filled(p) {
        seq![(x, y)] + run_cells(g, p, x + dx, y + dy, dx, dy)
    } else {
        Seq::empty()
    }
}

/// The number of `p`'s stones in a row from column `x`, row `y` on.
pub open spec fn run_len(g: Grid, p: Player, x: int, y: int, dx: int, dy: int) -> nat {
    run_cells(g, p, x, y, dx, dy).len()
}

/// Whether a line of exactly four of `p`'s stones begins at column `x`,
/// row `y`: four stones in a row from there on, and none of `p`'s just
/// behind. A longer line has no such beginning.
pub open spec fn starts_four(g: Grid, p: Player, x: int, y: int, dx: int, dy: int) -> bool {
    &&& run_len(g, p, x, y, dx, dy) == 4
    &&& cell_at(g, x - dx, y - dy) != Cell::Filled(p)
}

/// The player whose line of exactly four begins at column `x`, row `y`.
pub open spec fn four_owner(g: Grid, x: int, y: int, dx: int, dy: int) -> Option<Player> {
    match cell_at(g, x, y) {
        Cell::Filled(p) => if starts_four(g, p, x, y, dx, dy) {
            Some(p)
        } else {
            None
        },
        Cell::Empty => None,
    }
}

/// Whether a line of exactly four of `p`'s begins at column `x`, row `y`
/// along one of the four axes: rightwards, upwards or along a diagonal.
pub open spec fn four_at(g: Grid, p: Player, x: int, y: int) -> bool {
    ||| starts_four(g, p, x, y, 1, 0)
    ||| starts_four(g, p, x, y, 0, 1)
    ||| starts_four(g, p, x, y, 1, 1)
    ||| starts_four(g, p, x, y, -1, 1)
}

/// Whether `p` has a line of exactly four anywhere on the grid.
pub open spec fn has_four(g: Grid, p: Player) -> bool {
    exists|x: int, y: int| on_board(x, y) && #[trigger] four_at(g, p, x, y)
}

/// How the position stands: drawn where both players have a line of exactly
/// four, won where one of them has, open otherwise.
pub open spec fn terminal_status(g: Grid) -> TerminalResult {
    if has_four(g, Player::Player1) && has_four(g, Player::Player2) {
        TerminalResult::Draw
    } else if has_four(g, Player::Player1) {
        TerminalResult::Win(Player::Player1)
    } else if has_four(g, Player::Player2) {
        TerminalResult::Win(Player::Player2)
    } else {
        TerminalResult::Ongoing
    }
}

/// Whether `(dx, dy)` is one of the four axes along which a line of four
/// is looked for.
pub open spec fn is_axis(dx: int, dy: int) -> bool {
    ||| (dx == 1 && dy == 0)
    ||| (dx == 0 && dy == 1)
    ||| (dx == 1 && dy == 1)
    ||| (dx == -1 && dy == 1)
}

/// Four stones of `p` in a row, with none of `p`'s before the first nor
/// after the last, are a line of exactly four: `p` has won, unless the
/// opponent has such a line too, and then the game is drawn.
pub proof fn lemma_four_in_a_row(g: Grid, p: Player, x: int, y: int, dx: int, dy: int)
    requires
        is_axis(dx, dy),
        on_board(x, y),
        cell_at(g, x, y) == Cell::Filled(p),
        cell_at(g, x + dx, y + dy) == Cell::Filled(p),
        cell_at(g, x + 2 * dx, y + 2 * dy) == Cell::Filled(p),
        cell_at(g, x + 3 * dx, y + 3 * dy) == Cell::Filled(p),
        cell_at(g, x + 4 * dx, y + 4 * dy) != Cell::Filled(p),
        cell_at(g, x - dx, y - dy) != Cell::Filled(p),
    ensures
        starts_four(g, p, x, y, dx, dy),
        has_four(g, p),
        terminal_status(g) == if has_four(g, p.other()) {
            TerminalResult::Draw
        } else {
            TerminalResult::Win(p)
        },
{
    reveal_with_fuel(run_cells, 6);
    assert(run_cells(g, p, x + 4 * dx, y + 4 * dy, dx, dy).len() == 0);
    assert(x + dx + dx == x + 2 * dx && x + 2 * dx + dx == x + 3 * dx && x + 3 * dx + dx == x + 4
        * dx);
    assert(y + dy + dy == y + 2 * dy && y + 2 * dy + dy == y + 3 * dy && y + 3 * dy + dy == y + 4
        * dy);
    assert(run_len(g, p, x, y, dx, dy) == 4);
    assert(four_at(g, p, x, y));
}

/// A line of exactly four begins only where exactly four stones follow: no
/// place from which five or more of `p`'s stones follow begins one.
pub proof fn lemma_longer_is_no_four(g: Grid, p: Player, x: int, y: int, dx: int, dy: int)
    requires
        is_step(dx, dy),
        run_len(g, p, x, y, dx, dy) >= 5,
    ensures
        !starts_four(g, p, x, y, dx, dy),
        four_owner(g, x, y, dx, dy) != Some(p),
{
}

/// Within a line, only the first place can begin a line of exactly four:
/// every other place has a stone of the line's player just behind it.
pub proof fn lemma_inner_is_no_four(
    g: Grid,
    p: Player,
    x: int,
    y: int,
    dx: int,
    dy: int,
    c: (int, int),
)
    requires
        is_step(dx, dy),
        run_cells(g, p, x, y, dx, dy).contains(c),
        c != (x, y),
    ensures
        !starts_four(g, p, c.0, c.1, dx, dy),
    decreases reach(x, y, dx, dy),
{
    let run = run_cells(g, p, x, y, dx, dy);
    let rest = run_cells(g, p, x + dx, y + dy, dx, dy);
    let k = choose|k: int| 0 <= k < run.len() && run[k] == c;
    assert(run[0] == (x, y));
    assert(rest[k - 1] == c);
    if c != (x + dx, y + dy) {
        lemma_inner_is_no_four(g, p, x + dx, y + dy, dx, dy, c);
    }
}

} // verus!
