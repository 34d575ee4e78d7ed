//! The board: placing stones, finding lines, and letting the stones come
//! to rest after a move.

use vstd::prelude::*;
use crate::action::{BoardAction, Coordinate};
use crate::cascade::{
    marked, pass_events, placed, playable, resolve, settled, sweep_row, sweep_rows, threes,
};
use crate::grid::{
    cell_at, collapsed, dropped, empty_grid, empty_row_from, grid_of, landing_row, on_board,
    stone_count, well_formed, with_cell, Grid,
};
pub use crate::cascade::MoveResult;
pub use crate::grid::{Cell, HEIGHT, WIDTH};
pub use crate::lines::TerminalResult;
use crate::lines::{
    four_at, four_owner, has_four, is_step, reach, run_cells, terminal_status,
};
use crate::cell_set::CellSet;
use crate::player::Player;
use crate::scoring::{
    lemma_marks_complete, lemma_marks_next_row, lemma_run_filled, lemma_scan_step,
    line_marks_before, marked_by, newly_scored, one_if, row_score, rows_score, total_score,
    with_line,
};

verus! {

/// The grid of a game in play.
#[derive(Debug, Clone, Copy, Hash)]
pub struct Board {
    board: [[Cell; HEIGHT]; WIDTH],
}

impl View for Board {
    type V = Grid;

    closed spec fn view(&self) -> Grid {
        grid_of(|x: int, y: int| self.board[x][y])
    }
}

/// A grid of empty cells.
fn blank_cells() -> (cells: [[Cell; HEIGHT]; WIDTH])
    ensures
        forall|x: int, y: int| on_board(x, y) ==> #[trigger] cells[x][y] == Cell::Empty,
{
    let e = Cell::Empty;
    let column = [e, e, e, e, e, e, e, e];
    [column, column, column, column, column, column, column, column]
}

impl Default for Board {
    /// The board without a stone.
    fn default() -> (board: Board)
        ensures
            board@ == empty_grid(),
    {
        let board = Board { board: blank_cells() };
        assert(board@ =~~= empty_grid());
        board
    }
}

impl Board {
    /// Carries out `mov` and lets the board come to rest: reports the lines
    /// that score and takes them away, again and again, until nothing
    /// scores any more or a line of exactly four ends the game.
    pub fn make_move(&mut self, mov: &BoardAction) -> (results: Vec<MoveResult>)
        requires
            playable(old(self)@, *mov),
        ensures
            results@ == resolve(placed(old(self)@, *mov)).0,
            final(self)@ == resolve(placed(old(self)@, *mov)).1,
    {
        let mut results: Vec<MoveResult> = Vec::new();
        match mov {
            BoardAction::DropStone(player, col) => {
                let ghost g = self@;
                let mut y: usize = 0;
                while y < HEIGHT
                    invariant_except_break
                        self@ == g,
                        y < HEIGHT,
                        *col < WIDTH,
                        cell_at(g, *col as int, HEIGHT - 1) == Cell::Empty,
                        empty_row_from(g, *col as int, y as int) == landing_row(g, *col as int),
                    ensures
                        self@ == dropped(g, *player, *col as int),
                    decreases HEIGHT - y,
                {
                    if self.board[*col][y] == Cell::Empty {
                        self.board[*col][y] = Cell::Filled(*player);
                        assert(self@ =~~= dropped(g, *player, *col as int));
                        break;
                    }
                    y += 1;
                }
            },
            BoardAction::SwitchStone(a, b) => {
                let stone_a = self.get(*a);
                let stone_b = self.get(*b);

                self.set(stone_a, *b);
                self.set(stone_b, *a);
                assert(self@ =~~= placed(old(self)@, *mov));
            },
        }
        let ghost start = self@;
        assert(start == placed(old(self)@, *mov));

        loop
            invariant_except_break
                start == placed(old(self)@, *mov),
                resolve(start).0 == results@ + resolve(self@).0,
                resolve(start).1 == resolve(self@).1,
            ensures
                start == placed(old(self)@, *mov),
                resolve(start).0 == results@,
                resolve(start).1 == self@,
            decreases stone_count(self@),
        {
            let ghost g = self@;
            let ghost reported = results@;
            match self.get_board_terminal_status() {
                TerminalResult::Ongoing => {},
                TerminalResult::Win(player) => {
                    results.push(MoveResult::Winner(player));
                    assert(results@ =~= reported + seq![MoveResult::Winner(player)]);
                    return results;
                },
                TerminalResult::Draw => {
                    results.push(MoveResult::Draw);
                    assert(results@ =~= reported + seq![MoveResult::Draw]);
                    return results;
                },
            }

            let (points_1, marks_1) = find_points(self, Player::Player1);
            let (points_2, marks_2) = find_points(self, Player::Player2);

            for i in 0..points_1
                invariant
                    results@ == reported + threes(Player::Player1, i as nat),
            {
                results.push(MoveResult::Three(Player::Player1));
                assert(results@ =~= reported + threes(Player::Player1, (i + 1) as nat));
            }
            for i in 0..points_2
                invariant
                    results@ == reported + threes(Player::Player1, points_1 as nat) + threes(
                        Player::Player2,
                        i as nat,
                    ),
            {
                results.push(MoveResult::Three(Player::Player2));
                assert(results@ =~= reported + threes(Player::Player1, points_1 as nat) + threes(
                    Player::Player2,
                    (i + 1) as nat,
                ));
            }
            assert(results@ =~= reported + pass_events(g));

            let mut y: usize = HEIGHT;
            while y > 0
                invariant
                    y <= HEIGHT,
                    marks_1@ + marks_2@ == marked(g),
                    self@ == sweep_rows(g, marked(g), y as int),
                decreases y,
            {
                y -= 1;
                let ghost row_start = self@;
                for x in 0..WIDTH
                    invariant
                        y < HEIGHT,
                        marks_1@ + marks_2@ == marked(g),
                        self@ == sweep_row(row_start, marked(g), y as int, x as int),
                {
                    let coord = Coordinate::new(x as isize, y as isize);
                    if marks_1.contains(coord) || marks_2.contains(coord) {
                        self.remove_stone(coord);
                    }
                }
            }
            assert(self@ == settled(g));

            if points_1 == 0 && points_2 == 0 {
                assert(resolve(g).0 =~= pass_events(g));
                assert(reported + pass_events(g) =~= reported + resolve(g).0);
                break;
            }
            proof {
                crate::cascade::lemma_settled_count(g);
                assert(resolve(g).0 =~= pass_events(g) + resolve(settled(g)).0);
                assert(reported + resolve(g).0 =~= reported + pass_events(g) + resolve(
                    settled(g),
                ).0);
            }
        }

        return results;
    }

    /// Takes the stone at `coord` away: every cell above it in its column
    /// comes down by one row, and the top of the column becomes empty.
    pub fn remove_stone(&mut self, mut coord: Coordinate)
        requires
            on_board(coord.0 as int, coord.1 as int),
        ensures
            final(self)@ == collapsed(old(self)@, coord.0 as int, coord.1 as int),
    {
        let ghost g = old(self)@;
        let ghost x = coord.0 as int;
        let ghost y = coord.1 as int;
        self.board[coord.x() as usize][coord.y() as usize] = Cell::Empty;

        while coord.is_contained((0, 0), (WIDTH as isize, HEIGHT as isize))
            invariant
                on_board(x, y),
                coord.0 == x,
                y <= coord.1 <= HEIGHT,
                forall|i: int, j: int|
                    on_board(i, j) ==> #[trigger] cell_at(self@, i, j) == if i == x && y <= j
                        < coord.1 {
                        cell_at(g, i, j + 1)
                    } else if i == x && j == y {
                        Cell::Empty
                    } else {
                        cell_at(g, i, j)
                    },
            decreases HEIGHT - coord.1,
        {
            let above = self.get(coord + (0, 1));
            self.set(above, coord);
            coord = coord + (0, 1);
        }
        assert forall|i: int, j: int| on_board(i, j) implies self@[i][j] == collapsed(g, x, y)[i][j] by {
            assert(cell_at(self@, i, j) == cell_at(collapsed(g, x, y), i, j));
        }
        assert(self@ =~~= collapsed(g, x, y));
    }

    /// The view of a board has the shape of the grid.
    pub proof fn lemma_view_shape(self)
        ensures
            well_formed(self@),
    {
    }

    /// Whether a stone can still be dropped into column `col`.
    pub fn is_col_free(&self, col: usize) -> (free: bool)
        requires
            col < WIDTH,
        ensures
            free == (cell_at(self@, col as int, HEIGHT - 1) == Cell::Empty),
    {
        self.board[col][HEIGHT - 1] == Cell::Empty
    }

    /// Puts `cell` at `coord`.
    pub fn set(&mut self, cell: Cell, coord: Coordinate)
        requires
            on_board(coord.0 as int, coord.1 as int),
        ensures
            final(self)@ == with_cell(old(self)@, coord.0 as int, coord.1 as int, cell),
    {
        self.board[coord.x() as usize][coord.y() as usize] = cell;
        assert(self@ =~~= with_cell(old(self)@, coord.0 as int, coord.1 as int, cell));
    }

    /// How the position stands: see [`terminal_status`].
    pub fn get_board_terminal_status(&self) -> (status: TerminalResult)
        ensures
            status == terminal_status(self@),
    {
        let mut player_1_four: usize = 0;
        let mut player_2_four: usize = 0;
        let ghost g = self@;
        for y in 0..HEIGHT
            invariant
                g == self@,
                player_1_four <= 32 * y,
                player_2_four <= 32 * y,
                player_1_four > 0 <==> has_four_before(g, Player::Player1, 0, y as int),
                player_2_four > 0 <==> has_four_before(g, Player::Player2, 0, y as int),
        {
            for x in 0..WIDTH
                invariant
                    g == self@,
                    y < HEIGHT,
                    player_1_four <= 32 * y + 4 * x,
                    player_2_four <= 32 * y + 4 * x,
                    player_1_four > 0 <==> has_four_before(g, Player::Player1, x as int, y as int),
                    player_2_four > 0 <==> has_four_before(g, Player::Player2, x as int, y as int),
            {
                let here = Coordinate::new(x as isize, y as isize);
                match is_four_directional(self, here, (1, 0)) {
                    Some(Player::Player1) => player_1_four += 1,
                    Some(Player::Player2) => player_2_four += 1,
                    None => {},
                }
                match is_four_directional(self, here, (0, 1)) {
                    Some(Player::Player1) => player_1_four += 1,
                    Some(Player::Player2) => player_2_four += 1,
                    None => {},
                }
                match is_four_directional(self, here, (1, 1)) {
                    Some(Player::Player1) => player_1_four += 1,
                    Some(Player::Player2) => player_2_four += 1,
                    None => {},
                }
                match is_four_directional(self, here, (-1, 1)) {
                    Some(Player::Player1) => player_1_four += 1,
                    Some(Player::Player2) => player_2_four += 1,
                    None => {},
                }
                proof {
                    let xi = x as int;
                    let yi = y as int;
                    assert forall|p: Player|
                        has_four_before(g, p, xi + 1, yi) == (has_four_before(g, p, xi, yi)
                            || four_at(g, p, xi, yi)) by {
                        if has_four_before(g, p, xi + 1, yi) {
                            let (i, j) = choose|i: int, j: int|
                                on_board(i, j) && (j < yi || (j == yi && i < xi + 1))
                                    && #[trigger] four_at(g, p, i, j);
                            assert(four_at(g, p, i, j));
                        }
                        if has_four_before(g, p, xi, yi) {
                            let (i, j) = choose|i: int, j: int|
                                on_board(i, j) && (j < yi || (j == yi && i < xi))
                                    && #[trigger] four_at(g, p, i, j);
                            assert(four_at(g, p, i, j));
                        }
                    }
                }
            }
            proof {
                let yi = y as int;
                assert forall|p: Player|
                    has_four_before(g, p, 0, yi + 1) == has_four_before(g, p, WIDTH as int, yi) by {
                    if has_four_before(g, p, 0, yi + 1) {
                        let (i, j) = choose|i: int, j: int|
                            on_board(i, j) && (j < yi + 1 || (j == yi + 1 && i < 0))
                                && #[trigger] four_at(g, p, i, j);
                        assert(four_at(g, p, i, j));
                    }
                    if has_four_before(g, p, WIDTH as int, yi) {
                        let (i, j) = choose|i: int, j: int|
                            on_board(i, j) && (j < yi || (j == yi && i < WIDTH))
                                && #[trigger] four_at(g, p, i, j);
                        assert(four_at(g, p, i, j));
                    }
                }
            }
        }
        proof {
            assert forall|p: Player| has_four_before(g, p, 0, HEIGHT as int) == has_four(g, p) by {
                if has_four_before(g, p, 0, HEIGHT as int) {
                    let (i, j) = choose|i: int, j: int|
                        on_board(i, j) && (j < HEIGHT || (j == HEIGHT && i < 0))
                            && #[trigger] four_at(g, p, i, j);
                    assert(four_at(g, p, i, j));
                }
                if has_four(g, p) {
                    let (i, j) = choose|i: int, j: int|
                        on_board(i, j) && #[trigger] four_at(g, p, i, j);
                    assert(four_at(g, p, i, j));
                }
            }
        }

        if player_1_four > 0 && player_2_four > 0 {
            TerminalResult::Draw
        } else if player_1_four == 0 && player_2_four == 0 {
            TerminalResult::Ongoing
        } else if player_1_four > 0 && player_2_four == 0 {
            TerminalResult::Win(Player::Player1)
        } else {
            TerminalResult::Win(Player::Player2)
        }
    }

    /// The cell at `coord`; beyond the grid every place is empty.
    pub fn get(&self, coord: Coordinate) -> (cell: Cell)
        ensures
            cell == cell_at(self@, coord.0 as int, coord.1 as int),
    {
        if coord.is_contained((0, 0), (WIDTH as isize, HEIGHT as isize)) {
            self.board[coord.x() as usize][coord.y() as usize]
        } else {
            Cell::Empty
        }
    }
}

/// Whether `p` has a line of exactly four that begins in one of the rows
/// below `y`, or in row `y` left of column `x`.
pub open spec fn has_four_before(g: Grid, p: Player, x: int, y: int) -> bool {
    exists|i: int, j: int|
        on_board(i, j) && (j < y || (j == y && i < x)) && #[trigger] four_at(g, p, i, j)
}

/// The places of a list of coordinates.
pub open spec fn places(coords: Seq<Coordinate>) -> Seq<(int, int)> {
    coords.map_values(|c: Coordinate| (c.0 as int, c.1 as int))
}

/// Whether `step` leads from a place to another one, and no place of the
/// grid moved by it, forwards or backwards, leaves the machine's integers.
pub open spec fn valid_step(step: (isize, isize)) -> bool {
    &&& is_step(step.0 as int, step.1 as int)
    &&& 8 - isize::MAX <= step.0 <= isize::MAX - 8
    &&& 8 - isize::MAX <= step.1 <= isize::MAX - 8
}

/// The coordinates of the unbroken line of `player`'s stones that begins at
/// `coord` and goes on by `direction`.
pub fn directional_stone_len(
    board: &Board,
    player: Player,
    coord: Coordinate,
    direction: (isize, isize),
) -> (cells: Vec<Coordinate>)
    requires
        valid_step(direction),
    ensures
        places(cells@) == run_cells(
            board@,
            player,
            coord.0 as int,
            coord.1 as int,
            direction.0 as int,
            direction.1 as int,
        ),
{
    let mut m: Vec<Coordinate> = Vec::new();
    let mut current_coord = coord;
    let ghost g = board@;
    let ghost dx = direction.0 as int;
    let ghost dy = direction.1 as int;
    let ghost whole = run_cells(g, player, coord.0 as int, coord.1 as int, dx, dy);
    assert(places(m@) + whole =~= whole);

    while Cell::Filled(player) == board.get(current_coord)
        invariant
            valid_step(direction),
            g == board@,
            dx == direction.0,
            dy == direction.1,
            whole == places(m@) + run_cells(
                g,
                player,
                current_coord.0 as int,
                current_coord.1 as int,
                dx,
                dy,
            ),
        decreases reach(current_coord.0 as int, current_coord.1 as int, dx, dy),
    {
        let ghost before = m@;
        let ghost rest = run_cells(
            g,
            player,
            current_coord.0 + dx,
            current_coord.1 + dy,
            dx,
            dy,
        );
        m.push(current_coord);
        assert(places(m@) =~= places(before) + seq![
            (current_coord.0 as int, current_coord.1 as int),
        ]);
        assert(whole =~= places(m@) + rest);
        current_coord = current_coord + direction;
    }
    assert(whole =~= places(m@));
    m
}

/// The player whose line of exactly four begins at `start` and goes on by
/// `offset`.
pub fn is_four_directional(board: &Board, start: Coordinate, offset: (isize, isize)) -> (owner:
    Option<Player>)
    requires
        valid_step(offset),
    ensures
        owner == four_owner(
            board@,
            start.0 as int,
            start.1 as int,
            offset.0 as int,
            offset.1 as int,
        ),
{
    if let Cell::Filled(player) = board.get(start) {
        let forward = directional_stone_len(board, player, start, offset).len();
        let backward = directional_stone_len(
            board,
            player,
            start - offset,
            (-offset.0, -offset.1),
        ).len();
        if forward == 4 && backward == 0 {
            proof {
                let behind = run_cells(
                    board@,
                    player,
                    start.0 - offset.0,
                    start.1 - offset.1,
                    -offset.0,
                    -offset.1,
                );
                assert(behind.len() == 0);
                if cell_at(board@, start.0 - offset.0, start.1 - offset.1) == Cell::Filled(
                    player,
                ) {
                    assert(behind.len() >= 1);
                }
            }
            return Some(player);
        }
    }
    None
}

/// Counts the line of `player`'s stones that begins at `coord` and goes on
/// by `direction`, unless `seen` holds `coord` already or the line's length
/// does not score. A line that counts is worth a point, and its places go
/// into `seen` and into `coords`.
pub fn check_direction(
    board: &Board,
    player: Player,
    coord: Coordinate,
    direction: (isize, isize),
    seen: &mut CellSet,
    coords: &mut CellSet,
    points: &mut usize,
)
    requires
        valid_step(direction),
        *old(points) < usize::MAX,
    ensures
        *final(points) == *old(points) + one_if(
            newly_scored(
                old(seen)@,
                board@,
                player,
                coord.0 as int,
                coord.1 as int,
                direction.0 as int,
                direction.1 as int,
            ),
        ),
        final(seen)@ == with_line(
            old(seen)@,
            old(seen)@,
            board@,
            player,
            coord.0 as int,
            coord.1 as int,
            direction.0 as int,
            direction.1 as int,
        ),
        final(coords)@ == with_line(
            old(coords)@,
            old(seen)@,
            board@,
            player,
            coord.0 as int,
            coord.1 as int,
            direction.0 as int,
            direction.1 as int,
        ),
{
    if !seen.contains(coord) {
        let cells = directional_stone_len(board, player, coord, direction);
        let ghost run = run_cells(
            board@,
            player,
            coord.0 as int,
            coord.1 as int,
            direction.0 as int,
            direction.1 as int,
        );
        if cells.len() >= 3 && cells.len() != 4 {
            *points += 1;
            for i in 0..cells.len()
                invariant
                    valid_step(direction),
                    places(cells@) == run,
                    run == run_cells(
                        board@,
                        player,
                        coord.0 as int,
                        coord.1 as int,
                        direction.0 as int,
                        direction.1 as int,
                    ),
                    seen@ == old(seen)@ + run.take(i as int).to_set(),
                    coords@ == old(coords)@ + run.take(i as int).to_set(),
            {
                let coordinate = cells[i];
                proof {
                    assert(run[i as int] == (coordinate.0 as int, coordinate.1 as int));
                    lemma_run_filled(
                        board@,
                        player,
                        coord.0 as int,
                        coord.1 as int,
                        direction.0 as int,
                        direction.1 as int,
                        run[i as int],
                    );
                    assert(run.take(i + 1) =~= run.take(i as int).push(run[i as int]));
                    assert(run.take(i + 1).to_set() =~= run.take(i as int).to_set().insert(
                        run[i as int],
                    )) by {
                        let shorter = run.take(i as int);
                        let longer = shorter.push(run[i as int]);
                        assert forall|c: (int, int)|
                            longer.to_set().contains(c) == shorter.to_set().insert(
                                run[i as int],
                            ).contains(c) by {
                            if longer.contains(c) {
                                let k = choose|k: int| 0 <= k < longer.len() && longer[k] == c;
                                if k < shorter.len() {
                                    assert(shorter[k] == c);
                                }
                            }
                            if shorter.contains(c) {
                                let k = choose|k: int| 0 <= k < shorter.len() && shorter[k] == c;
                                assert(longer[k] == c);
                            }
                            assert(longer[shorter.len() as int] == run[i as int]);
                        }
                    }
                }
                seen.insert(coordinate);
                coords.insert(coordinate);
                assert(seen@ =~= old(seen)@ + run.take(i + 1).to_set());
                assert(coords@ =~= old(coords)@ + run.take(i + 1).to_set());
            }
            assert(run.take(cells.len() as int) =~= run);
        }
    }
}

/// The points that `player` gains on the board as it stands, and the places
/// of the lines that score them.
pub fn find_points(board: &Board, player: Player) -> (found: (usize, CellSet))
    ensures
        found.0 == total_score(board@, player),
        found.1@ == marked_by(board@, player),
{
    let mut points: usize = 0;
    let mut coords = CellSet::new();
    let mut up_set = CellSet::new();
    let mut up_right_set = CellSet::new();
    let mut right_set = CellSet::new();
    let mut down_right_set = CellSet::new();
    let ghost g = board@;
    proof {
        lemma_marks_complete(g, player, 0, 1);
        lemma_marks_complete(g, player, 1, 1);
        lemma_marks_complete(g, player, 1, 0);
        lemma_marks_complete(g, player, 1, -1);
        assert(coords@ =~= up_set@ + up_right_set@ + right_set@ + down_right_set@);
    }

    for y in 0..HEIGHT
        invariant
            g == board@,
            points == rows_score(g, player, y as int),
            points <= 32 * y,
            up_set@ == line_marks_before(g, player, 0, 1, 0, y as int),
            up_right_set@ == line_marks_before(g, player, 1, 1, 0, y as int),
            right_set@ == line_marks_before(g, player, 1, 0, 0, y as int),
            down_right_set@ == line_marks_before(g, player, 1, -1, 0, y as int),
            coords@ == up_set@ + up_right_set@ + right_set@ + down_right_set@,
    {
        for x in 0..WIDTH
            invariant
                g == board@,
                y < HEIGHT,
                points == rows_score(g, player, y as int) + row_score(g, player, y as int, x as int),
                points <= 32 * y + 4 * x,
                up_set@ == line_marks_before(g, player, 0, 1, x as int, y as int),
                up_right_set@ == line_marks_before(g, player, 1, 1, x as int, y as int),
                right_set@ == line_marks_before(g, player, 1, 0, x as int, y as int),
                down_right_set@ == line_marks_before(g, player, 1, -1, x as int, y as int),
                coords@ == up_set@ + up_right_set@ + right_set@ + down_right_set@,
        {
            let coord = Coordinate::new(x as isize, y as isize);
            let ghost before = coords@;
            let ghost up = up_set@;
            let ghost up_right = up_right_set@;
            let ghost right = right_set@;
            let ghost down_right = down_right_set@;
            proof {
                lemma_scan_step(g, player, 0, 1, x as int, y as int);
                lemma_scan_step(g, player, 1, 1, x as int, y as int);
                lemma_scan_step(g, player, 1, 0, x as int, y as int);
                lemma_scan_step(g, player, 1, -1, x as int, y as int);
            }
            check_direction(board, player, coord, (0, 1), &mut up_set, &mut coords, &mut points);
            check_direction(
                board,
                player,
                coord,
                (1, 1),
                &mut up_right_set,
                &mut coords,
                &mut points,
            );
            check_direction(board, player, coord, (1, 0), &mut right_set, &mut coords, &mut points);
            check_direction(
                board,
                player,
                coord,
                (1, -1),
                &mut down_right_set,
                &mut coords,
                &mut points,
            );
            assert(coords@ =~= up_set@ + up_right_set@ + right_set@ + down_right_set@);
        }
        proof {
            lemma_marks_next_row(g, player, 0, 1, y as int);
            lemma_marks_next_row(g, player, 1, 1, y as int);
            lemma_marks_next_row(g, player, 1, 0, y as int);
            lemma_marks_next_row(g, player, 1, -1, y as int);
        }
    }
    (points, coords)
}

} // verus!
