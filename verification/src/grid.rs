//! The grid as a mathematical value, and what dropping, switching and
//! taking away stones make of it.

use vstd::prelude::*;
use crate::player::Player;

verus! {

/// The number of columns.
pub const WIDTH: usize = 8;

/// The number of rows.
pub const HEIGHT: usize = 8;

/// What one place of the grid holds.
#[derive(Debug, Clone, Copy, PartialEq, Eq, Hash, Structural)]
pub enum Cell {
    Empty,
    Filled(Player),
}

impl Default for Cell {
    fn default() -> (cell: Cell)
        ensures
            cell == Cell::Empty,
    {
        Cell::Empty
    }
}

/// The mathematical grid: columns of cells, each column from the bottom up.
pub type Grid = Seq<Seq<Cell>>;

/// Whether column `x`, row `y` is a place of the grid.
pub open spec fn on_board(x: int, y: int) -> bool {
    0 <= x < WIDTH && 0 <= y < HEIGHT
}

/// The cell at column `x`, row `y`. Beyond the grid every place is empty.
pub open spec fn cell_at(g: Grid, x: int, y: int) -> Cell {
    if on_board(x, y) {
        g[x][y]
    } else {
        Cell::Empty
    }
}

/// The grid that holds `f(x, y)` at column `x`, row `y`.
pub open spec fn grid_of(f: spec_fn(int, int) -> Cell) -> Grid {
    Seq::new(WIDTH as nat, |x: int| Seq::new(HEIGHT as nat, |y: int| f(x, y)))
}

/// Whether `g` has the shape of the grid: `WIDTH` columns of `HEIGHT` cells.
pub open spec fn well_formed(g: Grid) -> bool {
    &&& g.len() == WIDTH
    &&& forall|x: int| 0 <= x < WIDTH ==> (#[trigger] g[x]).len() == HEIGHT
}

/// Two grids that hold the same in every place are the same grid.
pub proof fn lemma_same_cells(g: Grid, h: Grid)
    requires
        well_formed(g),
        well_formed(h),
        forall|x: int, y: int| on_board(x, y) ==> #[trigger] cell_at(g, x, y) == cell_at(h, x, y),
    ensures
        g == h,
{
    assert forall|x: int| 0 <= x < WIDTH implies #[trigger] g[x] =~= h[x] by {
        assert forall|y: int| 0 <= y < HEIGHT implies g[x][y] == h[x][y] by {
            assert(cell_at(g, x, y) == cell_at(h, x, y));
        }
    }
    assert(g =~= h);
}

/// The grid without a stone.
pub open spec fn empty_grid() -> Grid {
    grid_of(|x: int, y: int| Cell::Empty)
}

/// `g` with `cell` at column `x`, row `y`.
pub open spec fn with_cell(g: Grid, x: int, y: int, cell: Cell) -> Grid {
    grid_of(|i: int, j: int| if i == x && j == y { cell } else { cell_at(g, i, j) })
}

/// The lowest empty row of column `col` at or above row `from`, or
/// `HEIGHT` where the column has none.
pub open spec fn empty_row_from(g: Grid, col: int, from: int) -> int
    decreases HEIGHT - from,
{
    if from >= HEIGHT {
        HEIGHT as int
    } else if cell_at(g, col, from) == Cell::Empty {
        from
    } else {
        empty_row_from(g, col, from + 1)
    }
}

/// The row in which a stone that falls into column `col` comes to rest.
pub open spec fn landing_row(g: Grid, col: int) -> int {
    empty_row_from(g, col, 0)
}

/// `g` after `p` has dropped a stone into column `col`.
pub open spec fn dropped(g: Grid, p: Player, col: int) -> Grid {
    with_cell(g, col, landing_row(g, col), Cell::Filled(p))
}

/// `g` with the contents of the places `a` and `b` exchanged.
pub open spec fn switched(g: Grid, a: (int, int), b: (int, int)) -> Grid {
    grid_of(
        |i: int, j: int|
            if (i, j) == b {
                cell_at(g, a.0, a.1)
            } else if (i, j) == a {
                cell_at(g, b.0, b.1)
            } else {
                cell_at(g, i, j)
            },
    )
}

/// `g` after the stone at column `x`, row `y` has been taken away: every
/// cell above it in its column has come down by one row, and the top of the
/// column is empty.
pub open spec fn collapsed(g: Grid, x: int, y: int) -> Grid {
    grid_of(
        |i: int, j: int|
            if i == x && j >= y {
                cell_at(g, i, j + 1)
            } else {
                cell_at(g, i, j)
            },
    )
}

/// One where column `x`, row `y` holds a stone, zero where it does not.
pub open spec fn stone(g: Grid, x: int, y: int) -> nat {
    if cell_at(g, x, y) == Cell::Empty {
        0
    } else {
        1
    }
}

/// The number of stones in column `x` below row `y`.
pub open spec fn column_stones(g: Grid, x: int, y: int) -> nat
    decreases y,
{
    if y <= 0 {
        0
    } else {
        column_stones(g, x, y - 1) + stone(g, x, y - 1)
    }
}

/// The number of stones in the columns left of column `x`.
pub open spec fn stones_left_of(g: Grid, x: int) -> nat
    decreases x,
{
    if x <= 0 {
        0
    } else {
        stones_left_of(g, x - 1) + column_stones(g, x - 1, HEIGHT as int)
    }
}

/// The number of stones on the grid.
pub open spec fn stone_count(g: Grid) -> nat {
    stones_left_of(g, WIDTH as int)
}

/// A column in which two grids agree holds as many stones in both.
pub proof fn lemma_column_stones_agree(g: Grid, h: Grid, x: int, y: int)
    requires
        forall|j: int| 0 <= j < y ==> #[trigger] cell_at(g, x, j) == cell_at(h, x, j),
    ensures
        column_stones(g, x, y) == column_stones(h, x, y),
    decreases y,
{
    if y > 0 {
        lemma_column_stones_agree(g, h, x, y - 1);
    }
}

/// Columns in which two grids agree hold as many stones in both.
pub proof fn lemma_stones_left_agree(g: Grid, h: Grid, x: int)
    requires
        forall|i: int, j: int| 0 <= i < x && 0 <= j < HEIGHT ==> #[trigger] cell_at(g, i, j) == cell_at(h, i, j),
    ensures
        stones_left_of(g, x) == stones_left_of(h, x),
    decreases x,
{
    if x > 0 {
        lemma_stones_left_agree(g, h, x - 1);
        lemma_column_stones_agree(g, h, x - 1, HEIGHT as int);
    }
}

/// The stones of a column from which one place was taken: below row `n`
/// the column holds what it held below row `n + 1`, but for the place.
proof fn lemma_collapsed_column(g: Grid, x: int, y: int, n: int)
    requires
        on_board(x, y),
        y <= n <= HEIGHT,
    ensures
        column_stones(collapsed(g, x, y), x, n) + stone(g, x, y) == column_stones(g, x, n + 1),
    decreases n,
{
    let h = collapsed(g, x, y);
    if n == y {
        assert(forall|j: int| 0 <= j < y ==> #[trigger] cell_at(h, x, j) == cell_at(g, x, j));
        lemma_column_stones_agree(h, g, x, y);
    } else {
        lemma_collapsed_column(g, x, y, n - 1);
        assert(cell_at(h, x, n - 1) == cell_at(g, x, n));
    }
}

/// The stones left of column `n` once a place of column `x` was taken.
proof fn lemma_collapsed_left(g: Grid, x: int, y: int, n: int)
    requires
        on_board(x, y),
        0 <= n <= WIDTH,
    ensures
        stones_left_of(collapsed(g, x, y), n) + (if x < n {
            stone(g, x, y)
        } else {
            0
        }) == stones_left_of(g, n),
    decreases n,
{
    let h = collapsed(g, x, y);
    if n > 0 {
        lemma_collapsed_left(g, x, y, n - 1);
        if n - 1 == x {
            lemma_collapsed_column(g, x, y, HEIGHT as int);
            assert(column_stones(g, x, HEIGHT + 1) == column_stones(g, x, HEIGHT as int));
        } else {
            assert(forall|j: int|
                0 <= j < HEIGHT ==> #[trigger] cell_at(h, n - 1, j) == cell_at(g, n - 1, j));
            lemma_column_stones_agree(h, g, n - 1, HEIGHT as int);
        }
    }
}

/// Taking a place away takes one stone off the grid where the place held
/// one, and none where it was empty.
pub proof fn lemma_collapsed_count(g: Grid, x: int, y: int)
    requires
        on_board(x, y),
    ensures
        stone_count(collapsed(g, x, y)) + stone(g, x, y) == stone_count(g),
{
    lemma_collapsed_left(g, x, y, WIDTH as int);
}

} // verus!
