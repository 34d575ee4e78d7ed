//! Lines that score: which places score in a scan of the grid, the points
//! that a player gains, and the places that are taken away.

use vstd::prelude::*;
use crate::grid::{cell_at, on_board, Cell, Grid, HEIGHT, WIDTH};
use crate::lines::{
    four_at, has_four, is_step, reach, run_cells, run_len, starts_four, terminal_status,
    TerminalResult,
};
use crate::player::Player;

verus! {

/// Whether a line of `n` stones scores: three or more, but not four.
pub open spec fn scoring_len(n: nat) -> bool {
    n >= 3 && n != 4
}

/// Whether column `i`, row `j` comes before column `x`, row `y` in the scan
/// of the grid, which goes through the rows from the bottom up and through
/// each row from left to right.
pub open spec fn scanned_before(i: int, j: int, x: int, y: int) -> bool {
    j < y || (j == y && i < x)
}

/// Whether the scan meets the places of a line along `(dx, dy)` after the
/// line's beginning.
pub open spec fn scan_follows(dx: int, dy: int) -> bool {
    dy > 0 || (dy == 0 && dx > 0)
}

/// Whether the line of `p`'s stones that begins at column `x`, row `y` and
/// goes on by `(dx, dy)` scores a point.
///
/// Its length must score. Where the scan follows the line, a line scores
/// from its beginning only, so none of `p`'s stones lies just behind; the
/// one exception is the second stone of a line of exactly four, from which
/// three follow. Where the scan runs against the line, every place from
/// which a scoring length follows scores.
pub open spec fn scores(g: Grid, p: Player, x: int, y: int, dx: int, dy: int) -> bool {
    let n = run_len(g, p, x, y, dx, dy);
    &&& scoring_len(n)
    &&& scan_follows(dx, dy) ==> {
        ||| cell_at(g, x - dx, y - dy) != Cell::Filled(p)
        ||| (n == 3 && cell_at(g, x - 2 * dx, y - 2 * dy) != Cell::Filled(p))
    }
}

/// Whether the line that begins at column `i`, row `j` scores and holds the
/// place `c`.
pub open spec fn covers(g: Grid, p: Player, i: int, j: int, dx: int, dy: int, c: (int, int)) -> bool {
    scores(g, p, i, j, dx, dy) && run_cells(g, p, i, j, dx, dy).contains(c)
}

/// The places of `p`'s scoring lines along `(dx, dy)`.
pub open spec fn line_marks(g: Grid, p: Player, dx: int, dy: int) -> Set<(int, int)> {
    Set::new(
        |c: (int, int)| exists|i: int, j: int| on_board(i, j) && #[trigger] covers(g, p, i, j, dx, dy, c),
    )
}

/// The places of `p`'s scoring lines along `(dx, dy)` that begin before
/// column `x`, row `y` in the scan.
pub open spec fn line_marks_before(g: Grid, p: Player, dx: int, dy: int, x: int, y: int) -> Set<
    (int, int),
> {
    Set::new(
        |c: (int, int)|
            exists|i: int, j: int|
                on_board(i, j) && scanned_before(i, j, x, y) && #[trigger] covers(
                    g,
                    p,
                    i,
                    j,
                    dx,
                    dy,
                    c,
                ),
    )
}

/// The places of all of `p`'s scoring lines: upwards, up to the right,
/// rightwards and down to the right.
pub open spec fn marked_by(g: Grid, p: Player) -> Set<(int, int)> {
    line_marks(g, p, 0, 1) + line_marks(g, p, 1, 1) + line_marks(g, p, 1, 0) + line_marks(
        g,
        p,
        1,
        -1,
    )
}

/// One where the condition holds, zero where it does not.
pub open spec fn one_if(b: bool) -> nat {
    if b {
        1
    } else {
        0
    }
}

/// The number of `p`'s scoring lines that begin at column `x`, row `y`.
pub open spec fn cell_score(g: Grid, p: Player, x: int, y: int) -> nat {
    one_if(scores(g, p, x, y, 0, 1)) + one_if(scores(g, p, x, y, 1, 1)) + one_if(
        scores(g, p, x, y, 1, 0),
    ) + one_if(scores(g, p, x, y, 1, -1))
}

/// The number of `p`'s scoring lines that begin in row `y`, left of column `x`.
pub open spec fn row_score(g: Grid, p: Player, y: int, x: int) -> nat
    decreases x,
{
    if x <= 0 {
        0
    } else {
        row_score(g, p, y, x - 1) + cell_score(g, p, x - 1, y)
    }
}

/// The number of `p`'s scoring lines that begin below row `y`.
pub open spec fn rows_score(g: Grid, p: Player, y: int) -> nat
    decreases y,
{
    if y <= 0 {
        0
    } else {
        rows_score(g, p, y - 1) + row_score(g, p, y - 1, WIDTH as int)
    }
}

/// The number of `p`'s scoring lines on the grid: the points that `p` gains.
pub open spec fn total_score(g: Grid, p: Player) -> nat {
    rows_score(g, p, HEIGHT as int)
}

/// Every place of a line holds a stone of the line's player.
pub proof fn lemma_run_filled(g: Grid, p: Player, x: int, y: int, dx: int, dy: int, c: (int, int))
    requires
        is_step(dx, dy),
        run_cells(g, p, x, y, dx, dy).contains(c),
    ensures
        cell_at(g, c.0, c.1) == Cell::Filled(p),
        on_board(c.0, c.1),
    decreases reach(x, y, dx, dy),
{
    let run = run_cells(g, p, x, y, dx, dy);
    let k = choose|k: int| 0 <= k < run.len() && run[k] == c;
    if k > 0 {
        let rest = run_cells(g, p, x + dx, y + dy, dx, dy);
        assert(rest[k - 1] == c);
        lemma_run_filled(g, p, x + dx, y + dy, dx, dy, c);
    }
}

/// A place of a line other than its beginning lies ahead of the beginning,
/// and the place just behind it belongs to the line too.
pub proof fn lemma_run_ahead(g: Grid, p: Player, x: int, y: int, dx: int, dy: int, c: (int, int))
    requires
        is_step(dx, dy),
        run_cells(g, p, x, y, dx, dy).contains(c),
        c != (x, y),
    ensures
        run_cells(g, p, x, y, dx, dy).contains((c.0 - dx, c.1 - dy)),
        dy > 0 ==> c.1 > y,
        dy < 0 ==> c.1 < y,
        dy == 0 ==> c.1 == y,
        dx > 0 ==> c.0 > x,
        dx < 0 ==> c.0 < x,
        dx == 0 ==> c.0 == x,
    decreases reach(x, y, dx, dy),
{
    let run = run_cells(g, p, x, y, dx, dy);
    let k = choose|k: int| 0 <= k < run.len() && run[k] == c;
    let rest = run_cells(g, p, x + dx, y + dy, dx, dy);
    assert(run[0] == (x, y));
    assert(k > 0);
    assert(rest[k - 1] == c);
    if c == (x + dx, y + dy) {
        assert(run[0] == (c.0 - dx, c.1 - dy));
    } else {
        lemma_run_ahead(g, p, x + dx, y + dy, dx, dy, c);
        let m = choose|m: int| 0 <= m < rest.len() && rest[m] == (c.0 - dx, c.1 - dy);
        assert(run[m + 1] == (c.0 - dx, c.1 - dy));
    }
}

/// A line goes on as long as its player's stones do: with a place it holds
/// the next one, where that has a stone of the player.
pub proof fn lemma_run_extends(g: Grid, p: Player, x: int, y: int, dx: int, dy: int, c: (int, int))
    requires
        is_step(dx, dy),
        run_cells(g, p, x, y, dx, dy).contains(c),
        cell_at(g, c.0 + dx, c.1 + dy) == Cell::Filled(p),
    ensures
        run_cells(g, p, x, y, dx, dy).contains((c.0 + dx, c.1 + dy)),
    decreases reach(x, y, dx, dy),
{
    let run = run_cells(g, p, x, y, dx, dy);
    let rest = run_cells(g, p, x + dx, y + dy, dx, dy);
    let k = choose|k: int| 0 <= k < run.len() && run[k] == c;
    if k == 0 {
        assert(c == (x, y));
        assert(rest[0] == (x + dx, y + dy));
        assert(run[1] == (c.0 + dx, c.1 + dy));
    } else {
        assert(rest[k - 1] == c);
        lemma_run_extends(g, p, x + dx, y + dy, dx, dy, c);
        let m = choose|m: int| 0 <= m < rest.len() && rest[m] == (c.0 + dx, c.1 + dy);
        assert(run[m + 1] == (c.0 + dx, c.1 + dy));
    }
}

/// A place from which five or more stones follow lies on a scoring line
/// that begins there or behind it.
pub proof fn lemma_long_run_scored(g: Grid, p: Player, x: int, y: int, dx: int, dy: int) -> (start:
    (int, int))
    requires
        is_step(dx, dy),
        scan_follows(dx, dy),
        run_len(g, p, x, y, dx, dy) >= 5,
    ensures
        on_board(start.0, start.1),
        start == (x, y) || scanned_before(start.0, start.1, x, y),
        covers(g, p, start.0, start.1, dx, dy, (x, y)),
    decreases reach(x, y, -dx, -dy),
{
    let run = run_cells(g, p, x, y, dx, dy);
    assert(run[0] == (x, y));
    assert(on_board(x, y));
    if cell_at(g, x - dx, y - dy) == Cell::Filled(p) {
        let start = lemma_long_run_scored(g, p, x - dx, y - dy, dx, dy);
        lemma_run_extends(g, p, start.0, start.1, dx, dy, (x - dx, y - dy));
        start
    } else {
        (x, y)
    }
}

/// When the scan comes to column `x`, row `y`, and a scoring length follows
/// from there, the place scores exactly if no scoring line that began
/// earlier holds it.
pub proof fn lemma_scores_iff_unmarked(g: Grid, p: Player, x: int, y: int, dx: int, dy: int)
    requires
        is_step(dx, dy),
        on_board(x, y),
        scoring_len(run_len(g, p, x, y, dx, dy)),
    ensures
        scores(g, p, x, y, dx, dy) <==> !line_marks_before(g, p, dx, dy, x, y).contains((x, y)),
{
    let n = run_len(g, p, x, y, dx, dy);
    let marks = line_marks_before(g, p, dx, dy, x, y);
    if marks.contains((x, y)) {
        let (i, j) = choose|i: int, j: int|
            on_board(i, j) && scanned_before(i, j, x, y) && #[trigger] covers(
                g,
                p,
                i,
                j,
                dx,
                dy,
                (x, y),
            );
        lemma_run_ahead(g, p, i, j, dx, dy, (x, y));
        lemma_run_filled(g, p, i, j, dx, dy, (x - dx, y - dy));
        assert(scan_follows(dx, dy));
        if n == 3 && cell_at(g, x - 2 * dx, y - 2 * dy) != Cell::Filled(p) {
            if (i, j) != (x - dx, y - dy) {
                lemma_run_ahead(g, p, i, j, dx, dy, (x - dx, y - dy));
                lemma_run_filled(g, p, i, j, dx, dy, (x - 2 * dx, y - 2 * dy));
            }
            assert(run_len(g, p, i, j, dx, dy) == 4);
        }
    } else if scan_follows(dx, dy) && cell_at(g, x - dx, y - dy) == Cell::Filled(p) {
        if n != 3 {
            let start = lemma_long_run_scored(g, p, x - dx, y - dy, dx, dy);
            lemma_run_extends(g, p, start.0, start.1, dx, dy, (x - dx, y - dy));
            assert(covers(g, p, start.0, start.1, dx, dy, (x, y)));
            assert(false);
        } else if cell_at(g, x - 2 * dx, y - 2 * dy) == Cell::Filled(p) {
            assert(run_len(g, p, x - dx, y - dy, dx, dy) == 4);
            assert(x - 2 * dx + dx == x - dx && y - 2 * dy + dy == y - dy);
            assert(run_len(g, p, x - 2 * dx, y - 2 * dy, dx, dy) == 5);
            let start = lemma_long_run_scored(g, p, x - 2 * dx, y - 2 * dy, dx, dy);
            lemma_run_extends(g, p, start.0, start.1, dx, dy, (x - 2 * dx, y - 2 * dy));
            lemma_run_extends(g, p, start.0, start.1, dx, dy, (x - dx, y - dy));
            assert(covers(g, p, start.0, start.1, dx, dy, (x, y)));
            assert(false);
        }
    }
}

/// What the scan has marked along `(dx, dy)` once it has left column `x`,
/// row `y`: what it had marked before, and the line that begins there,
/// where that scores.
pub proof fn lemma_marks_after_cell(g: Grid, p: Player, dx: int, dy: int, x: int, y: int)
    requires
        on_board(x, y),
    ensures
        line_marks_before(g, p, dx, dy, x + 1, y) == if scores(g, p, x, y, dx, dy) {
            line_marks_before(g, p, dx, dy, x, y) + run_cells(g, p, x, y, dx, dy).to_set()
        } else {
            line_marks_before(g, p, dx, dy, x, y)
        },
{
    let before = line_marks_before(g, p, dx, dy, x, y);
    let after = line_marks_before(g, p, dx, dy, x + 1, y);
    let expected = if scores(g, p, x, y, dx, dy) {
        before + run_cells(g, p, x, y, dx, dy).to_set()
    } else {
        before
    };
    assert forall|c: (int, int)| after.contains(c) == expected.contains(c) by {
        if after.contains(c) {
            let (i, j) = choose|i: int, j: int|
                on_board(i, j) && scanned_before(i, j, x + 1, y) && #[trigger] covers(
                    g,
                    p,
                    i,
                    j,
                    dx,
                    dy,
                    c,
                );
            if (i, j) != (x, y) {
                assert(scanned_before(i, j, x, y));
            }
        }
        if before.contains(c) {
            let (i, j) = choose|i: int, j: int|
                on_board(i, j) && scanned_before(i, j, x, y) && #[trigger] covers(
                    g,
                    p,
                    i,
                    j,
                    dx,
                    dy,
                    c,
                );
            assert(scanned_before(i, j, x + 1, y));
        }
        if scores(g, p, x, y, dx, dy) && run_cells(g, p, x, y, dx, dy).contains(c) {
            assert(covers(g, p, x, y, dx, dy, c));
            assert(scanned_before(x, y, x + 1, y));
        }
    }
    assert(after =~= expected);
}

/// The scan passes from the end of a row to the beginning of the next.
pub proof fn lemma_marks_next_row(g: Grid, p: Player, dx: int, dy: int, y: int)
    ensures
        line_marks_before(g, p, dx, dy, 0, y + 1) == line_marks_before(
            g,
            p,
            dx,
            dy,
            WIDTH as int,
            y,
        ),
{
    let a = line_marks_before(g, p, dx, dy, 0, y + 1);
    let b = line_marks_before(g, p, dx, dy, WIDTH as int, y);
    assert forall|c: (int, int)| a.contains(c) == b.contains(c) by {
        if a.contains(c) {
            let (i, j) = choose|i: int, j: int|
                on_board(i, j) && scanned_before(i, j, 0, y + 1) && #[trigger] covers(
                    g,
                    p,
                    i,
                    j,
                    dx,
                    dy,
                    c,
                );
            assert(scanned_before(i, j, WIDTH as int, y));
        }
        if b.contains(c) {
            let (i, j) = choose|i: int, j: int|
                on_board(i, j) && scanned_before(i, j, WIDTH as int, y) && #[trigger] covers(
                    g,
                    p,
                    i,
                    j,
                    dx,
                    dy,
                    c,
                );
            assert(scanned_before(i, j, 0, y + 1));
        }
    }
    assert(a =~= b);
}

/// Once the scan is through, it has marked every scoring line.
pub proof fn lemma_marks_complete(g: Grid, p: Player, dx: int, dy: int)
    ensures
        line_marks_before(g, p, dx, dy, 0, HEIGHT as int) == line_marks(g, p, dx, dy),
        line_marks_before(g, p, dx, dy, 0, 0) == Set::<(int, int)>::empty(),
{
    let a = line_marks_before(g, p, dx, dy, 0, HEIGHT as int);
    let b = line_marks(g, p, dx, dy);
    assert forall|c: (int, int)| a.contains(c) == b.contains(c) by {
        if a.contains(c) {
            let (i, j) = choose|i: int, j: int|
                on_board(i, j) && scanned_before(i, j, 0, HEIGHT as int) && #[trigger] covers(
                    g,
                    p,
                    i,
                    j,
                    dx,
                    dy,
                    c,
                );
            assert(covers(g, p, i, j, dx, dy, c));
        }
        if b.contains(c) {
            let (i, j) = choose|i: int, j: int|
                on_board(i, j) && #[trigger] covers(g, p, i, j, dx, dy, c);
            assert(scanned_before(i, j, 0, HEIGHT as int));
        }
    }
    assert(a =~= b);
    assert(line_marks_before(g, p, dx, dy, 0, 0) =~= Set::<(int, int)>::empty());
}

/// Whether the scan, with the places in `seen` marked along `(dx, dy)`,
/// counts the line that begins at column `x`, row `y`: the place is not
/// marked yet, and a scoring length follows from it.
pub open spec fn newly_scored(
    seen: Set<(int, int)>,
    g: Grid,
    p: Player,
    x: int,
    y: int,
    dx: int,
    dy: int,
) -> bool {
    !seen.contains((x, y)) && scoring_len(run_len(g, p, x, y, dx, dy))
}

/// `marks` with the places of the line that begins at column `x`, row `y`,
/// where the scan counts that line.
pub open spec fn with_line(
    marks: Set<(int, int)>,
    seen: Set<(int, int)>,
    g: Grid,
    p: Player,
    x: int,
    y: int,
    dx: int,
    dy: int,
) -> Set<(int, int)> {
    if newly_scored(seen, g, p, x, y, dx, dy) {
        marks + run_cells(g, p, x, y, dx, dy).to_set()
    } else {
        marks
    }
}

/// One step of the scan along `(dx, dy)`: at column `x`, row `y` it counts
/// a line exactly if the line scores, and then holds the marks of all lines
/// that begin up to there.
pub proof fn lemma_scan_step(g: Grid, p: Player, dx: int, dy: int, x: int, y: int)
    requires
        is_step(dx, dy),
        on_board(x, y),
    ensures
        newly_scored(line_marks_before(g, p, dx, dy, x, y), g, p, x, y, dx, dy) == scores(
            g,
            p,
            x,
            y,
            dx,
            dy,
        ),
        with_line(
            line_marks_before(g, p, dx, dy, x, y),
            line_marks_before(g, p, dx, dy, x, y),
            g,
            p,
            x,
            y,
            dx,
            dy,
        ) == line_marks_before(g, p, dx, dy, x + 1, y),
{
    if scoring_len(run_len(g, p, x, y, dx, dy)) {
        lemma_scores_iff_unmarked(g, p, x, y, dx, dy);
    }
    lemma_marks_after_cell(g, p, dx, dy, x, y);
}

/// While no line of exactly four stands on the grid, a place scores
/// upwards, rightwards or up to the right exactly if it begins a line of
/// three or more: three or more of the player's stones follow from it, and
/// none lies just behind it.
pub proof fn lemma_scores_when_open(g: Grid, p: Player, x: int, y: int, dx: int, dy: int)
    requires
        terminal_status(g) == TerminalResult::Ongoing,
        on_board(x, y),
        (dx == 0 && dy == 1) || (dx == 1 && dy == 1) || (dx == 1 && dy == 0),
    ensures
        scores(g, p, x, y, dx, dy) <==> run_len(g, p, x, y, dx, dy) >= 3 && cell_at(
            g,
            x - dx,
            y - dy,
        ) != Cell::Filled(p),
{
    let n = run_len(g, p, x, y, dx, dy);
    assert(!has_four(g, p));
    if n == 4 && cell_at(g, x - dx, y - dy) != Cell::Filled(p) {
        assert(four_at(g, p, x, y));
    }
    if n == 3 && cell_at(g, x - dx, y - dy) == Cell::Filled(p) && cell_at(g, x - 2 * dx, y - 2 * dy)
        != Cell::Filled(p) {
        assert(x - dx + dx == x && y - dy + dy == y);
        assert(run_len(g, p, x - dx, y - dy, dx, dy) == 4);
        assert(x - dx - dx == x - 2 * dx && y - dy - dy == y - 2 * dy);
        assert(starts_four(g, p, x - dx, y - dy, dx, dy));
        assert(four_at(g, p, x - dx, y - dy));
    }
}

} // verus!
