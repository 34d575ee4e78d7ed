//! What a move brings about on the grid: the passes in which scoring lines
//! are reported and taken away until the grid is at rest.

use vstd::prelude::*;
use crate::action::BoardAction;
use crate::grid::{
    cell_at, collapsed, dropped, lemma_collapsed_count, on_board, stone, stone_count, switched,
    Cell, Grid, HEIGHT, WIDTH,
};
use crate::lines::{has_four, run_cells, terminal_status, TerminalResult};
use crate::player::Player;
use crate::scoring::{
    cell_score, covers, lemma_run_filled, line_marks, marked_by, row_score, rows_score, scores,
    total_score,
};

verus! {

/// What a move brought about.
#[derive(Debug, Clone, Copy, PartialEq, Eq, Structural)]
pub enum MoveResult {
    /// The player has a line of exactly four, and the opponent has none.
    Winner(Player),
    /// Both players have a line of exactly four.
    Draw,
    /// The player has scored a line of three.
    Three(Player),
}

/// Whether `action` can be carried out on `g`: a stone is dropped into a
/// column of the grid that is not full, and stones are switched between two
/// places of the grid.
pub open spec fn playable(g: Grid, action: BoardAction) -> bool {
    match action {
        BoardAction::DropStone(_, col) => col < WIDTH && cell_at(g, col as int, HEIGHT - 1)
            == Cell::Empty,
        BoardAction::SwitchStone(a, b) => on_board(a.0 as int, a.1 as int) && on_board(
            b.0 as int,
            b.1 as int,
        ),
    }
}

/// `g` with the stone of `action` dropped or its two stones switched, before
/// anything scores.
pub open spec fn placed(g: Grid, action: BoardAction) -> Grid {
    match action {
        BoardAction::DropStone(p, col) => dropped(g, p, col as int),
        BoardAction::SwitchStone(a, b) => switched(
            g,
            (a.0 as int, a.1 as int),
            (b.0 as int, b.1 as int),
        ),
    }
}

/// `n` times that `p` has scored a line of three.
pub open spec fn threes(p: Player, n: nat) -> Seq<MoveResult> {
    Seq::new(n, |i: int| MoveResult::Three(p))
}

/// What one pass over `g` reports: the first player's lines of three, then
/// the second player's.
pub open spec fn pass_events(g: Grid) -> Seq<MoveResult> {
    threes(Player::Player1, total_score(g, Player::Player1)) + threes(
        Player::Player2,
        total_score(g, Player::Player2),
    )
}

/// Whether any line scores on `g`.
pub open spec fn any_scores(g: Grid) -> bool {
    total_score(g, Player::Player1) != 0 || total_score(g, Player::Player2) != 0
}

/// The places of all scoring lines of both players.
pub open spec fn marked(g: Grid) -> Set<(int, int)> {
    marked_by(g, Player::Player1) + marked_by(g, Player::Player2)
}

/// `g` after the places of `marks` in row `y`, left of column `x`, have been
/// taken away one by one, from left to right.
pub open spec fn sweep_row(g: Grid, marks: Set<(int, int)>, y: int, x: int) -> Grid
    decreases x,
{
    if x <= 0 {
        g
    } else {
        let before = sweep_row(g, marks, y, x - 1);
        if marks.contains((x - 1, y)) {
            collapsed(before, x - 1, y)
        } else {
            before
        }
    }
}

/// `g` after the places of `marks` in row `y` and above have been taken
/// away, the top row first.
pub open spec fn sweep_rows(g: Grid, marks: Set<(int, int)>, y: int) -> Grid
    decreases HEIGHT - y,
{
    if y >= HEIGHT {
        g
    } else {
        sweep_row(sweep_rows(g, marks, y + 1), marks, y, WIDTH as int)
    }
}

/// `g` after one pass: the places of all scoring lines are taken away, from
/// the top row down, and the stones above each have come down.
pub open spec fn settled(g: Grid) -> Grid {
    sweep_rows(g, marked(g), 0)
}

/// Whether `h` holds what `g` holds in every place of a row below `y`, and
/// in row `y` from column `x` on.
pub open spec fn same_from(g: Grid, h: Grid, x: int, y: int) -> bool {
    forall|i: int, j: int|
        on_board(i, j) && (j < y || (j == y && i >= x)) ==> #[trigger] cell_at(h, i, j) == cell_at(
            g,
            i,
            j,
        )
}

/// Whether every place of `marks` holds a stone on `g`.
pub open spec fn all_stones(g: Grid, marks: Set<(int, int)>) -> bool {
    forall|c: (int, int)| #[trigger] marks.contains(c) ==> on_board(c.0, c.1) && stone(g, c.0, c.1) == 1
}

/// Sweeping a row leaves the places that the sweep has not reached as they
/// were, and takes a stone off the grid for every place of `marks` that it
/// has passed.
proof fn lemma_sweep_row(g: Grid, start: Grid, marks: Set<(int, int)>, y: int, x: int)
    requires
        0 <= y < HEIGHT,
        0 <= x <= WIDTH,
        all_stones(g, marks),
        same_from(g, start, 0, y),
    ensures
        same_from(g, sweep_row(start, marks, y, x), x, y),
        stone_count(sweep_row(start, marks, y, x)) <= stone_count(start),
        (exists|i: int| 0 <= i < x && marks.contains((i, y))) ==> stone_count(
            sweep_row(start, marks, y, x),
        ) < stone_count(start),
    decreases x,
{
    if x > 0 {
        lemma_sweep_row(g, start, marks, y, x - 1);
        let before = sweep_row(start, marks, y, x - 1);
        let after = sweep_row(start, marks, y, x);
        if marks.contains((x - 1, y)) {
            lemma_collapsed_count(before, x - 1, y);
            assert(cell_at(before, x - 1, y) == cell_at(g, x - 1, y));
            assert(stone(before, x - 1, y) == 1);
            assert(same_from(g, after, x, y));
        } else {
            assert forall|i: int| 0 <= i < x && marks.contains((i, y)) implies 0 <= i < x - 1 by {}
        }
    }
}

/// Sweeping the rows from the top down to row `y` leaves the rows below as
/// they were, and takes a stone off the grid for every place of `marks`
/// that it has passed.
proof fn lemma_sweep_rows(g: Grid, marks: Set<(int, int)>, y: int)
    requires
        0 <= y <= HEIGHT,
        all_stones(g, marks),
    ensures
        same_from(g, sweep_rows(g, marks, y), 0, y - 1),
        stone_count(sweep_rows(g, marks, y)) <= stone_count(g),
        (exists|c: (int, int)| marks.contains(c) && c.1 >= y) ==> stone_count(
            sweep_rows(g, marks, y),
        ) < stone_count(g),
    decreases HEIGHT - y,
{
    if y < HEIGHT {
        lemma_sweep_rows(g, marks, y + 1);
        let start = sweep_rows(g, marks, y + 1);
        lemma_sweep_row(g, start, marks, y, WIDTH as int);
        let after = sweep_rows(g, marks, y);
        assert(same_from(g, after, 0, y - 1));
        if exists|c: (int, int)| marks.contains(c) && c.1 >= y {
            let c = choose|c: (int, int)| marks.contains(c) && c.1 >= y;
            if c.1 == y {
                assert(marks.contains((c.0, y)));
            } else {
                assert(marks.contains(c) && c.1 >= y + 1);
            }
        }
    } else {
        assert forall|c: (int, int)| marks.contains(c) implies c.1 < HEIGHT by {}
    }
}

/// A row with a point holds the beginning of a scoring line.
proof fn lemma_row_scorer(g: Grid, p: Player, y: int, x: int) -> (i: int)
    requires
        row_score(g, p, y, x) > 0,
    ensures
        0 <= i < x,
        cell_score(g, p, i, y) > 0,
    decreases x,
{
    if cell_score(g, p, x - 1, y) > 0 {
        x - 1
    } else {
        lemma_row_scorer(g, p, y, x - 1)
    }
}

/// Rows with a point hold the beginning of a scoring line.
proof fn lemma_rows_scorer(g: Grid, p: Player, y: int) -> (c: (int, int))
    requires
        rows_score(g, p, y) > 0,
    ensures
        0 <= c.0 < WIDTH,
        0 <= c.1 < y,
        cell_score(g, p, c.0, c.1) > 0,
    decreases y,
{
    if row_score(g, p, y - 1, WIDTH as int) > 0 {
        (lemma_row_scorer(g, p, y - 1, WIDTH as int), y - 1)
    } else {
        lemma_rows_scorer(g, p, y - 1)
    }
}

/// The places of scoring lines hold stones.
pub proof fn lemma_marked_are_stones(g: Grid)
    ensures
        all_stones(g, marked(g)),
{
    assert forall|c: (int, int)| #[trigger] marked(g).contains(c) implies on_board(c.0, c.1)
        && stone(g, c.0, c.1) == 1 by {
        let p = if marked_by(g, Player::Player1).contains(c) {
            Player::Player1
        } else {
            Player::Player2
        };
        let (dx, dy): (int, int) = if line_marks(g, p, 0, 1).contains(c) {
            (0, 1)
        } else if line_marks(g, p, 1, 1).contains(c) {
            (1, 1)
        } else if line_marks(g, p, 1, 0).contains(c) {
            (1, 0)
        } else {
            (1, -1)
        };
        assert(line_marks(g, p, dx, dy).contains(c));
        let (i, j) = choose|i: int, j: int| on_board(i, j) && #[trigger] covers(g, p, i, j, dx, dy, c);
        lemma_run_filled(g, p, i, j, dx, dy, c);
    }
}

/// Where a player has a point, some place is marked.
proof fn lemma_score_marks(g: Grid, p: Player) -> (c: (int, int))
    requires
        total_score(g, p) > 0,
    ensures
        marked_by(g, p).contains(c),
{
    let c = lemma_rows_scorer(g, p, HEIGHT as int);
    lemma_scorer_marked(g, p, c.0, c.1);
    c
}

/// A pass in which a line scores takes stones off the grid.
pub proof fn lemma_settled_count(g: Grid)
    requires
        any_scores(g),
    ensures
        stone_count(settled(g)) < stone_count(g),
{
    lemma_marked_are_stones(g);
    let c = if total_score(g, Player::Player1) > 0 {
        lemma_score_marks(g, Player::Player1)
    } else {
        lemma_score_marks(g, Player::Player2)
    };
    assert(marked(g).contains(c) && c.1 >= 0);
    lemma_sweep_rows(g, marked(g), 0);
}

/// What becomes of `g` once a stone has been placed: the events in their
/// order, and the grid at rest.
///
/// A position with a line of exactly four ends the game, and nothing scores
/// any more. Otherwise the scoring lines of both players are reported and
/// taken away; where there were any, the grid that is left is looked at
/// again in the same way.
pub open spec fn resolve(g: Grid) -> (Seq<MoveResult>, Grid)
    decreases stone_count(g),
{
    match terminal_status(g) {
        TerminalResult::Win(p) => (seq![MoveResult::Winner(p)], g),
        TerminalResult::Draw => (seq![MoveResult::Draw], g),
        TerminalResult::Ongoing => {
            if any_scores(g) {
                proof {
                    lemma_settled_count(g);
                }
                let then = resolve(settled(g));
                (pass_events(g) + then.0, then.1)
            } else {
                (pass_events(g), settled(g))
            }
        },
    }
}

/// Where both players have a line of exactly four, the game is drawn:
/// the one event is the draw, and nothing is taken from the grid.
pub proof fn lemma_both_fours_draw(g: Grid)
    requires
        has_four(g, Player::Player1),
        has_four(g, Player::Player2),
    ensures
        terminal_status(g) == TerminalResult::Draw,
        resolve(g) == (seq![MoveResult::Draw], g),
{
}

/// Where one player alone has a line of exactly four, that player has won:
/// the one event is the win, and nothing is taken from the grid.
pub proof fn lemma_one_four_wins(g: Grid, p: Player)
    requires
        has_four(g, p),
        !has_four(g, p.other()),
    ensures
        terminal_status(g) == TerminalResult::Win(p),
        resolve(g) == (seq![MoveResult::Winner(p)], g),
{
}

/// What taking the stone at column `x`, row `y` away leaves in each place:
/// the cells above it in its column have come down by one row, the top of
/// the column is empty, and every other place holds what it held.
pub proof fn lemma_collapsed_cells(g: Grid, x: int, y: int, i: int, j: int)
    requires
        on_board(x, y),
        on_board(i, j),
    ensures
        i == x && y <= j < HEIGHT - 1 ==> cell_at(collapsed(g, x, y), i, j) == cell_at(g, i, j + 1),
        i == x && j == HEIGHT - 1 ==> cell_at(collapsed(g, x, y), i, j) == Cell::Empty,
        i != x || j < y ==> cell_at(collapsed(g, x, y), i, j) == cell_at(g, i, j),
{
}

/// A scoring line has its first place marked.
proof fn lemma_scorer_marked(g: Grid, p: Player, x: int, y: int)
    requires
        on_board(x, y),
        cell_score(g, p, x, y) > 0,
    ensures
        marked_by(g, p).contains((x, y)),
{
    let (dx, dy): (int, int) = if scores(g, p, x, y, 0, 1) {
        (0, 1)
    } else if scores(g, p, x, y, 1, 1) {
        (1, 1)
    } else if scores(g, p, x, y, 1, 0) {
        (1, 0)
    } else {
        (1, -1)
    };
    assert(run_cells(g, p, x, y, dx, dy)[0] == (x, y));
    assert(covers(g, p, x, y, dx, dy, (x, y)));
    assert(line_marks(g, p, dx, dy).contains((x, y)));
}

/// A row's points are at least those of each of its places.
proof fn lemma_row_score_covers(g: Grid, p: Player, y: int, x: int, i: int)
    requires
        0 <= i < x,
    ensures
        row_score(g, p, y, x) >= cell_score(g, p, i, y),
    decreases x,
{
    if i < x - 1 {
        lemma_row_score_covers(g, p, y, x - 1, i);
    }
}

/// The points of the rows are at least those of each of their places.
proof fn lemma_rows_score_covers(g: Grid, p: Player, y: int, i: int, j: int)
    requires
        0 <= i < WIDTH,
        0 <= j < y,
    ensures
        rows_score(g, p, y) >= cell_score(g, p, i, j),
    decreases y,
{
    if j < y - 1 {
        lemma_rows_score_covers(g, p, y - 1, i, j);
    } else {
        lemma_row_score_covers(g, p, j, WIDTH as int, i);
    }
}

/// Where no line scores, no place is marked, and a pass leaves the grid as
/// it is.
pub proof fn lemma_quiet_pass(g: Grid)
    requires
        !any_scores(g),
    ensures
        marked(g) == Set::<(int, int)>::empty(),
        pass_events(g) == Seq::<MoveResult>::empty(),
        settled(g) == g,
{
    assert forall|c: (int, int)| !marked(g).contains(c) by {
        if marked(g).contains(c) {
            let p = if marked_by(g, Player::Player1).contains(c) {
                Player::Player1
            } else {
                Player::Player2
            };
            let (dx, dy): (int, int) = if line_marks(g, p, 0, 1).contains(c) {
                (0, 1)
            } else if line_marks(g, p, 1, 1).contains(c) {
                (1, 1)
            } else if line_marks(g, p, 1, 0).contains(c) {
                (1, 0)
            } else {
                (1, -1)
            };
            assert(line_marks(g, p, dx, dy).contains(c));
            let (i, j) = choose|i: int, j: int|
                on_board(i, j) && #[trigger] covers(g, p, i, j, dx, dy, c);
            assert(cell_score(g, p, i, j) > 0);
            lemma_rows_score_covers(g, p, HEIGHT as int, i, j);
        }
    }
    assert(marked(g) =~= Set::<(int, int)>::empty());
    assert(pass_events(g) =~= Seq::<MoveResult>::empty());
    lemma_sweep_nothing(g, 0);
}

/// A sweep with nothing marked leaves the grid as it is.
proof fn lemma_sweep_nothing(g: Grid, y: int)
    requires
        0 <= y <= HEIGHT,
    ensures
        sweep_rows(g, Set::<(int, int)>::empty(), y) == g,
    decreases HEIGHT - y,
{
    if y < HEIGHT {
        lemma_sweep_nothing(g, y + 1);
        lemma_sweep_row_nothing(g, y, WIDTH as int);
    }
}

/// A sweep of a row with nothing marked leaves the grid as it is.
proof fn lemma_sweep_row_nothing(g: Grid, y: int, x: int)
    requires
        0 <= x,
    ensures
        sweep_row(g, Set::<(int, int)>::empty(), y, x) == g,
    decreases x,
{
    if x > 0 {
        lemma_sweep_row_nothing(g, y, x - 1);
    }
}

/// Whether an event ends the game.
pub open spec fn is_final(event: MoveResult) -> bool {
    event is Winner || event is Draw
}

/// The events of a move are lines of three, but for the last, which may
/// be the end of the game; and the board is at rest afterwards: either the
/// game is over, or no line scores.
pub proof fn lemma_resolve_shape(g: Grid)
    ensures
        forall|i: int|
            0 <= i < resolve(g).0.len() - 1 ==> (#[trigger] resolve(g).0[i]) is Three,
        terminal_status(resolve(g).1) != TerminalResult::Ongoing <==> resolve(g).0.len() > 0
            && is_final(resolve(g).0.last()),
        terminal_status(resolve(g).1) == TerminalResult::Ongoing ==> !any_scores(resolve(g).1),
    decreases stone_count(g),
{
    if terminal_status(g) == TerminalResult::Ongoing {
        if any_scores(g) {
            lemma_settled_count(g);
            lemma_resolve_shape(settled(g));
            let first = pass_events(g);
            let then = resolve(settled(g)).0;
            assert forall|i: int| 0 <= i < resolve(g).0.len() - 1 implies (#[trigger] resolve(
                g,
            ).0[i]) is Three by {
                if i >= first.len() {
                    assert(resolve(g).0[i] == then[i - first.len()]);
                }
            }
            if then.len() > 0 {
                assert(resolve(g).0.last() == then.last());
            } else {
                assert(resolve(g).0 =~= first);
                if first.len() > 0 {
                    assert(first.last() is Three);
                }
            }
        } else {
            lemma_quiet_pass(g);
        }
    }
}

/// The number of places of `marks` in column `x`, from row `lo` up to, but
/// without, row `hi`.
pub open spec fn marked_between(marks: Set<(int, int)>, x: int, lo: int, hi: int) -> int
    decreases hi - lo,
{
    if lo >= hi {
        0
    } else if marks.contains((x, lo)) {
        1 + marked_between(marks, x, lo + 1, hi)
    } else {
        marked_between(marks, x, lo + 1, hi)
    }
}

/// Whether `h` holds at column `x`, row `y` what `g` holds there.
pub open spec fn kept_in_place(g: Grid, h: Grid, x: int, y: int) -> bool {
    cell_at(h, x, y) == cell_at(g, x, y)
}

/// Whether the cell of `g` at column `x`, row `y` stands in `h` as many
/// rows further down as places of `marks` lie below it, from row `r` on.
pub open spec fn come_down(g: Grid, h: Grid, marks: Set<(int, int)>, x: int, r: int, y: int) -> bool {
    cell_at(h, x, y - marked_between(marks, x, r, y)) == cell_at(g, x, y)
}

/// Whether `h` is empty at column `x`, row `y`.
pub open spec fn cleared(h: Grid, x: int, y: int) -> bool {
    cell_at(h, x, y) == Cell::Empty
}

/// Whether column `x` of `h` is what is left of column `x` of `g` once the
/// places of `marks` in row `r` and above are gone: the rows below `r` are
/// as they were, every other cell that stays has come down by the number of
/// places that went below it, and the top of the column is empty.
pub open spec fn column_swept(g: Grid, h: Grid, marks: Set<(int, int)>, x: int, r: int) -> bool {
    &&& forall|y: int| 0 <= y < r ==> #[trigger] kept_in_place(g, h, x, y)
    &&& forall|y: int|
        r <= y < HEIGHT && !marks.contains((x, y)) ==> #[trigger] come_down(g, h, marks, x, r, y)
    &&& forall|j: int|
        HEIGHT - marked_between(marks, x, r, HEIGHT as int) <= j < HEIGHT ==> #[trigger] cleared(
            h,
            x,
            j,
        )
}

/// No more places are marked in a stretch of a column than it has rows.
proof fn lemma_marked_between_bound(marks: Set<(int, int)>, x: int, lo: int, hi: int)
    requires
        lo <= hi,
    ensures
        0 <= marked_between(marks, x, lo, hi) <= hi - lo,
    decreases hi - lo,
{
    if lo < hi {
        lemma_marked_between_bound(marks, x, lo + 1, hi);
    }
}

/// Taking the place of row `r` away, where it is marked, leads from a
/// column swept down to row `r + 1` to one swept down to row `r`.
proof fn lemma_column_step(g: Grid, h: Grid, marks: Set<(int, int)>, x: int, r: int)
    requires
        on_board(x, r),
        column_swept(g, h, marks, x, r + 1),
    ensures
        column_swept(
            g,
            if marks.contains((x, r)) {
                collapsed(h, x, r)
            } else {
                h
            },
            marks,
            x,
            r,
        ),
{
    let after = if marks.contains((x, r)) {
        collapsed(h, x, r)
    } else {
        h
    };
    assert forall|y: int| r <= y < HEIGHT && !marks.contains((x, y)) implies #[trigger] come_down(
        g,
        after,
        marks,
        x,
        r,
        y,
    ) by {
        if y > r {
            lemma_marked_between_bound(marks, x, r + 1, y);
            assert(come_down(g, h, marks, x, r + 1, y));
        } else {
            assert(kept_in_place(g, h, x, y));
        }
    }
    assert forall|j: int|
        HEIGHT - marked_between(marks, x, r, HEIGHT as int) <= j < HEIGHT implies #[trigger] cleared(
        after,
        x,
        j,
    ) by {
        lemma_marked_between_bound(marks, x, r + 1, HEIGHT as int);
        if marks.contains((x, r)) {
            if j + 1 < HEIGHT {
                assert(cleared(h, x, j + 1));
            }
        } else {
            assert(cleared(h, x, j));
        }
    }
    assert forall|y: int| 0 <= y < r implies #[trigger] kept_in_place(g, after, x, y) by {
        assert(kept_in_place(g, h, x, y));
    }
}

/// Taking a place of another column away leaves a column as it is.
proof fn lemma_column_apart(
    g: Grid,
    h: Grid,
    marks: Set<(int, int)>,
    x: int,
    r: int,
    c: int,
    row: int,
)
    requires
        0 <= x < WIDTH,
        0 <= r <= HEIGHT,
        on_board(c, row),
        c != x,
        column_swept(g, h, marks, x, r),
    ensures
        column_swept(g, collapsed(h, c, row), marks, x, r),
{
    let after = collapsed(h, c, row);
    assert forall|y: int| r <= y < HEIGHT && !marks.contains((x, y)) implies #[trigger] come_down(
        g,
        after,
        marks,
        x,
        r,
        y,
    ) by {
        lemma_marked_between_bound(marks, x, r, y);
        assert(come_down(g, h, marks, x, r, y));
    }
    assert forall|j: int|
        HEIGHT - marked_between(marks, x, r, HEIGHT as int) <= j < HEIGHT implies #[trigger] cleared(
        after,
        x,
        j,
    ) by {
        lemma_marked_between_bound(marks, x, r, HEIGHT as int);
        assert(cleared(h, x, j));
    }
    assert forall|y: int| 0 <= y < r implies #[trigger] kept_in_place(g, after, x, y) by {
        assert(kept_in_place(g, h, x, y));
    }
}

/// The sweep of row `r` as far as column `c` has swept the columns left of
/// `c` down to row `r`, and has left the others swept down to row `r + 1`.
proof fn lemma_sweep_row_columns(
    g: Grid,
    start: Grid,
    marks: Set<(int, int)>,
    r: int,
    c: int,
    x: int,
)
    requires
        0 <= r < HEIGHT,
        0 <= c <= WIDTH,
        0 <= x < WIDTH,
        column_swept(g, start, marks, x, r + 1),
    ensures
        column_swept(
            g,
            sweep_row(start, marks, r, c),
            marks,
            x,
            if x < c {
                r
            } else {
                r + 1
            },
        ),
    decreases c,
{
    if c > 0 {
        lemma_sweep_row_columns(g, start, marks, r, c - 1, x);
        let before = sweep_row(start, marks, r, c - 1);
        if x == c - 1 {
            lemma_column_step(g, before, marks, x, r);
        } else if marks.contains((c - 1, r)) {
            lemma_column_apart(
                g,
                before,
                marks,
                x,
                if x < c {
                    r
                } else {
                    r + 1
                },
                c - 1,
                r,
            );
        }
    }
}

/// The sweep of the rows from the top down to row `r` has swept every
/// column down to row `r`.
proof fn lemma_sweep_rows_columns(g: Grid, marks: Set<(int, int)>, r: int, x: int)
    requires
        0 <= r <= HEIGHT,
        0 <= x < WIDTH,
    ensures
        column_swept(g, sweep_rows(g, marks, r), marks, x, r),
    decreases HEIGHT - r,
{
    if r < HEIGHT {
        lemma_sweep_rows_columns(g, marks, r + 1, x);
        lemma_sweep_row_columns(g, sweep_rows(g, marks, r + 1), marks, r, WIDTH as int, x);
    }
}

/// A pass takes the places of all scoring lines at once: a stone that
/// stays comes down by as many rows as places of scoring lines lay below it
/// in its column, and the column is empty above the stones that stay.
pub proof fn lemma_pass_settles(g: Grid, x: int, y: int)
    requires
        on_board(x, y),
    ensures
        0 <= marked_between(marked(g), x, 0, y) <= y,
        !marked(g).contains((x, y)) ==> cell_at(
            settled(g),
            x,
            y - marked_between(marked(g), x, 0, y),
        ) == cell_at(g, x, y),
        y >= HEIGHT - marked_between(marked(g), x, 0, HEIGHT as int) ==> cell_at(settled(g), x, y)
            == Cell::Empty,
{
    lemma_sweep_rows_columns(g, marked(g), 0, x);
    lemma_marked_between_bound(marked(g), x, 0, y);
    if !marked(g).contains((x, y)) {
        assert(come_down(g, settled(g), marked(g), x, 0, y));
    }
    if y >= HEIGHT - marked_between(marked(g), x, 0, HEIGHT as int) {
        assert(cleared(settled(g), x, y));
    }
}

} // verus!
