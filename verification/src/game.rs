//! The state of a game: board, points and turn, the moves on offer, and
//! what a move makes of the state.

use vstd::prelude::*;
use crate::action::{BoardAction, Coordinate};
use crate::board::Board;
use crate::cascade::{
    any_scores, lemma_quiet_pass, lemma_resolve_shape, lemma_settled_count, pass_events, placed,
    playable, resolve, settled, threes, MoveResult,
};
use crate::grid::{
    cell_at, column_stones, empty_grid, on_board, stone_count, stones_left_of, Cell, Grid, HEIGHT,
    WIDTH,
};
use crate::lines::{terminal_status, TerminalResult};
use crate::player::Player;
use crate::scoring::{one_if, row_score, rows_score, total_score};

verus! {

/// A game in play: the board, what each player has scored, and whose turn
/// it is.
#[derive(Debug, Clone, Copy, Hash)]
pub struct BoardState {
    board: Board,
    player_1_points: usize,
    player_2_points: usize,
    current_player: Player,
    winner: TerminalResult,
}

/// The mathematical state of a game.
pub struct GameView {
    /// The grid.
    pub grid: Grid,
    /// The points of the first player.
    pub points_1: nat,
    /// The points of the second player.
    pub points_2: nat,
    /// The player to move.
    pub mover: Player,
    /// How the last move ended the game, if it did.
    pub winner: TerminalResult,
}

impl GameView {
    /// The points of `p`.
    pub open spec fn points_of(self, p: Player) -> nat {
        match p {
            Player::Player1 => self.points_1,
            Player::Player2 => self.points_2,
        }
    }

    /// `self` with one point less for `p`.
    pub open spec fn charged(self, p: Player) -> GameView {
        match p {
            Player::Player1 => GameView { points_1: (self.points_1 - 1) as nat, ..self },
            Player::Player2 => GameView { points_2: (self.points_2 - 1) as nat, ..self },
        }
    }
}

impl View for BoardState {
    type V = GameView;

    closed spec fn view(&self) -> GameView {
        GameView {
            grid: self.board@,
            points_1: self.player_1_points as nat,
            points_2: self.player_2_points as nat,
            mover: self.current_player,
            winner: self.winner,
        }
    }
}

/// The state in which a game begins: no stone, no point, the first player
/// to move.
pub open spec fn opening() -> GameView {
    GameView {
        grid: empty_grid(),
        points_1: 0,
        points_2: 0,
        mover: Player::Player1,
        winner: TerminalResult::Ongoing,
    }
}

/// The coordinate of column `x`, row `y`.
pub open spec fn coordinate(x: int, y: int) -> Coordinate {
    Coordinate(x as isize, y as isize)
}

/// The drops of `p` into the free columns left of column `n`, from left to
/// right.
pub open spec fn drops(g: Grid, p: Player, n: int) -> Seq<BoardAction>
    decreases n,
{
    if n <= 0 {
        Seq::empty()
    } else if cell_at(g, n - 1, HEIGHT - 1) == Cell::Empty {
        drops(g, p, n - 1).push(BoardAction::DropStone(p, (n - 1) as usize))
    } else {
        drops(g, p, n - 1)
    }
}

/// Whether the places `a` and `b` hold stones of different players.
pub open spec fn opposed(g: Grid, a: (int, int), b: (int, int)) -> bool {
    match (cell_at(g, a.0, a.1), cell_at(g, b.0, b.1)) {
        (Cell::Filled(p), Cell::Filled(q)) => p != q,
        _ => false,
    }
}

/// The switches between a place of column `x` below row `n` and its
/// neighbour by `(dx, dy)`, where the two hold stones of different players,
/// from the bottom up.
pub open spec fn column_switches(g: Grid, x: int, n: int, dx: int, dy: int) -> Seq<BoardAction>
    decreases n,
{
    if n <= 0 {
        Seq::empty()
    } else if opposed(g, (x, n - 1), (x + dx, n - 1 + dy)) {
        column_switches(g, x, n - 1, dx, dy).push(
            BoardAction::SwitchStone(coordinate(x, n - 1), coordinate(x + dx, n - 1 + dy)),
        )
    } else {
        column_switches(g, x, n - 1, dx, dy)
    }
}

/// The switches by `(dx, dy)` from the columns left of column `m`, column
/// by column.
pub open spec fn switches(g: Grid, m: int, dx: int, dy: int) -> Seq<BoardAction>
    decreases m,
{
    if m <= 0 {
        Seq::empty()
    } else {
        switches(g, m - 1, dx, dy) + column_switches(g, m - 1, HEIGHT as int, dx, dy)
    }
}

/// The moves that the player to move may make, in the order in which they
/// are offered: none once a line of exactly four stands on the grid; else a
/// drop into each column that is not full and, where the player has a
/// point to pay, a switch between each pair of neighbouring stones of
/// different players, first the pairs side by side, then the pairs one
/// above the other.
pub open spec fn legal_moves(v: GameView) -> Seq<BoardAction> {
    if terminal_status(v.grid) != TerminalResult::Ongoing {
        Seq::empty()
    } else if v.points_of(v.mover) > 0 {
        drops(v.grid, v.mover, WIDTH as int) + switches(v.grid, WIDTH - 1, 1, 0) + switches(
            v.grid,
            WIDTH as int,
            0,
            1,
        )
    } else {
        drops(v.grid, v.mover, WIDTH as int)
    }
}

/// How often `p` scores a line of three in `events`.
pub open spec fn three_count(events: Seq<MoveResult>, p: Player) -> nat
    decreases events.len(),
{
    if events.len() == 0 {
        0
    } else {
        three_count(events.drop_last(), p) + one_if(events.last() == MoveResult::Three(p))
    }
}

/// How `events` end the game: by their last event, if that is a win or a
/// draw.
pub open spec fn outcome(events: Seq<MoveResult>) -> TerminalResult {
    if events.len() == 0 {
        TerminalResult::Ongoing
    } else {
        match events.last() {
            MoveResult::Draw => TerminalResult::Draw,
            MoveResult::Winner(p) => TerminalResult::Win(p),
            MoveResult::Three(_) => TerminalResult::Ongoing,
        }
    }
}

/// The state after `action`: a switch costs the player to move a point, the
/// board comes to rest, each player gains a point for each of their lines
/// of three, the turn passes on, and the outcome is kept.
pub open spec fn after_move(v: GameView, action: BoardAction) -> GameView {
    let paid = if action is SwitchStone {
        v.charged(v.mover)
    } else {
        v
    };
    let (events, grid) = resolve(placed(v.grid, action));
    GameView {
        grid,
        points_1: paid.points_1 + three_count(events, Player::Player1),
        points_2: paid.points_2 + three_count(events, Player::Player2),
        mover: v.mover.other(),
        winner: outcome(events),
    }
}

/// Whether `action` can be made in `v`: it can be carried out on the grid,
/// a switch is paid for with a point, and the points after it are machine
/// integers.
pub open spec fn can_move(v: GameView, action: BoardAction) -> bool {
    &&& playable(v.grid, action)
    &&& action is SwitchStone ==> v.points_of(v.mover) > 0
    &&& after_move(v, action).points_1 <= usize::MAX
    &&& after_move(v, action).points_2 <= usize::MAX
}

/// The winner of a game in `v`: the one that the last move made, or else
/// the one that the grid shows.
pub open spec fn winner_of(v: GameView) -> Option<Player> {
    match v.winner {
        TerminalResult::Win(p) => Some(p),
        TerminalResult::Draw => None,
        TerminalResult::Ongoing => match terminal_status(v.grid) {
            TerminalResult::Win(p) => Some(p),
            _ => None,
        },
    }
}

impl Default for BoardState {
    /// The state in which a game begins.
    fn default() -> (state: BoardState)
        ensures
            state@ == opening(),
    {
        BoardState {
            board: Board::default(),
            player_1_points: 0,
            player_2_points: 0,
            current_player: Player::Player1,
            winner: TerminalResult::Ongoing,
        }
    }
}

impl BoardState {
    /// The board.
    pub fn board(&self) -> (board: &Board)
        ensures
            board@ == self@.grid,
    {
        &self.board
    }

    /// The points of `player`.
    pub fn points(&self, player: Player) -> (points: usize)
        ensures
            points == self@.points_of(player),
    {
        match player {
            Player::Player1 => self.player_1_points,
            Player::Player2 => self.player_2_points,
        }
    }

    /// How the last move ended the game, if it did.
    pub fn outcome(&self) -> (outcome: TerminalResult)
        ensures
            outcome == self@.winner,
    {
        self.winner
    }

    /// The player to move.
    pub fn current_player(&self) -> (player: Player)
        ensures
            player == self@.mover,
    {
        self.current_player
    }

    /// The moves that the player to move may make: see [`legal_moves`].
    pub fn available_moves(&self) -> (actions: Vec<BoardAction>)
        ensures
            actions@ == legal_moves(self@),
    {
        match self.board.get_board_terminal_status() {
            TerminalResult::Ongoing => {},
            TerminalResult::Win(_) => return Vec::new(),
            TerminalResult::Draw => return Vec::new(),
        }

        let ghost g = self.board@;
        let mover = self.current_player();
        let mut actions: Vec<BoardAction> = Vec::new();
        for col in 0..WIDTH
            invariant
                g == self.board@,
                actions@ == drops(g, mover, col as int),
        {
            if self.board.is_col_free(col) {
                actions.push(BoardAction::DropStone(mover, col));
            }
        }

        let find_switch_actions = match self.current_player() {
            Player::Player1 => self.player_1_points > 0,
            Player::Player2 => self.player_2_points > 0,
        };

        if find_switch_actions {
            let ghost dropping = actions@;
            // Switches between a stone and its neighbour to the right.
            for x in 0..(WIDTH - 1)
                invariant
                    g == self.board@,
                    actions@ == dropping + switches(g, x as int, 1, 0),
            {
                let ghost earlier = actions@;
                for y in 0..HEIGHT
                    invariant
                        g == self.board@,
                        x < WIDTH - 1,
                        actions@ == earlier + column_switches(g, x as int, y as int, 1, 0),
                {
                    let base_coord = Coordinate::new(x as isize, y as isize);
                    let next_coord = base_coord + (1, 0);
                    let next_cell = self.board.get(next_coord);
                    let add_action = match (next_cell, self.board.get(base_coord)) {
                        (Cell::Empty, Cell::Empty) => false,
                        (Cell::Empty, Cell::Filled(_)) => false,
                        (Cell::Filled(_), Cell::Empty) => false,
                        (Cell::Filled(Player::Player1), Cell::Filled(Player::Player1)) => false,
                        (Cell::Filled(Player::Player2), Cell::Filled(Player::Player2)) => false,
                        (Cell::Filled(Player::Player1), Cell::Filled(Player::Player2)) => true,
                        (Cell::Filled(Player::Player2), Cell::Filled(Player::Player1)) => true,
                    };
                    if add_action {
                        actions.push(BoardAction::SwitchStone(base_coord, next_coord));
                    }
                    assert(actions@ =~= earlier + column_switches(g, x as int, y + 1, 1, 0));
                }
                assert(actions@ =~= dropping + switches(g, x + 1, 1, 0));
            }
            let ghost sideways = actions@;
            // Switches between a stone and its neighbour above.
            for x in 0..WIDTH
                invariant
                    g == self.board@,
                    actions@ == sideways + switches(g, x as int, 0, 1),
            {
                let ghost earlier = actions@;
                for y in 0..HEIGHT
                    invariant
                        g == self.board@,
                        x < WIDTH,
                        actions@ == earlier + column_switches(g, x as int, y as int, 0, 1),
                {
                    let base_coord = Coordinate::new(x as isize, y as isize);
                    let next_coord = base_coord + (0, 1);
                    let next_cell = self.board.get(next_coord);
                    let add_action = match (next_cell, self.board.get(base_coord)) {
                        (Cell::Empty, Cell::Empty) => false,
                        (Cell::Empty, Cell::Filled(_)) => false,
                        (Cell::Filled(_), Cell::Empty) => false,
                        (Cell::Filled(Player::Player1), Cell::Filled(Player::Player1)) => false,
                        (Cell::Filled(Player::Player2), Cell::Filled(Player::Player2)) => false,
                        (Cell::Filled(Player::Player1), Cell::Filled(Player::Player2)) => true,
                        (Cell::Filled(Player::Player2), Cell::Filled(Player::Player1)) => true,
                    };
                    if add_action {
                        actions.push(BoardAction::SwitchStone(base_coord, next_coord));
                    }
                    assert(actions@ =~= earlier + column_switches(g, x as int, y + 1, 0, 1));
                }
                assert(actions@ =~= sideways + switches(g, x + 1, 0, 1));
            }
        }

        actions
    }

    /// Makes the move `mov`: see [`after_move`].
    pub fn make_move(&mut self, mov: &BoardAction)
        requires
            can_move(old(self)@, *mov),
        ensures
            final(self)@ == after_move(old(self)@, *mov),
    {
        if let BoardAction::SwitchStone(_, _) = mov {
            match self.current_player {
                Player::Player1 => self.player_1_points -= 1,
                Player::Player2 => self.player_2_points -= 1,
            }
        }

        let result = self.board.make_move(mov);
        let ghost events = result@;
        let mut three_p1: usize = 0;
        let mut three_p2: usize = 0;
        for i in 0..result.len()
            invariant
                events == result@,
                self.player_1_points + three_count(events, Player::Player1) <= usize::MAX,
                self.player_2_points + three_count(events, Player::Player2) <= usize::MAX,
                three_p1 == three_count(events.take(i as int), Player::Player1),
                three_p2 == three_count(events.take(i as int), Player::Player2),
        {
            proof {
                assert(events.take(i + 1).drop_last() =~= events.take(i as int));
                lemma_three_count_prefix(events, i + 1, Player::Player1);
                lemma_three_count_prefix(events, i + 1, Player::Player2);
            }
            if result[i] == MoveResult::Three(Player::Player1) {
                three_p1 += 1;
            }
            if result[i] == MoveResult::Three(Player::Player2) {
                three_p2 += 1;
            }
        }
        assert(events.take(result.len() as int) =~= events);

        self.player_1_points += three_p1;
        self.player_2_points += three_p2;

        self.current_player = self.current_player.next_player();

        self.winner = if result.len() == 0 {
            TerminalResult::Ongoing
        } else {
            match result[result.len() - 1] {
                MoveResult::Draw => TerminalResult::Draw,
                MoveResult::Winner(player) => TerminalResult::Win(player),
                MoveResult::Three(_) => TerminalResult::Ongoing,
            }
        };
    }

    /// The winner, if the game has one.
    pub fn get_winner(&self) -> (winner: Option<Player>)
        ensures
            winner == winner_of(self@),
    {
        match self.winner {
            TerminalResult::Ongoing => match self.board.get_board_terminal_status() {
                TerminalResult::Ongoing => None,
                TerminalResult::Win(player) => Some(player),
                TerminalResult::Draw => None,
            },
            TerminalResult::Win(player) => Some(player),
            TerminalResult::Draw => None,
        }
    }

    /// Whether the game is over: the player to move has no move.
    pub fn is_terminal(&self) -> (over: bool)
        ensures
            over == (legal_moves(self@).len() == 0),
    {
        self.available_moves().len() == 0
    }
}

/// A part of a list of events holds no more lines of three than the whole.
pub proof fn lemma_three_count_prefix(events: Seq<MoveResult>, n: int, p: Player)
    requires
        0 <= n <= events.len(),
    ensures
        three_count(events.take(n), p) <= three_count(events, p),
    decreases events.len() - n,
{
    if n < events.len() {
        lemma_three_count_prefix(events, n + 1, p);
        assert(events.take(n + 1).drop_last() =~= events.take(n));
    } else {
        assert(events.take(n) =~= events);
    }
}

/// Whether `action` is the switch between column `x`, row `y` and its
/// neighbour by `(dx, dy)`, and the two places hold stones of different
/// players.
pub open spec fn switch_at(g: Grid, action: BoardAction, x: int, y: int, dx: int, dy: int) -> bool {
    &&& opposed(g, (x, y), (x + dx, y + dy))
    &&& action == BoardAction::SwitchStone(coordinate(x, y), coordinate(x + dx, y + dy))
}

/// Whether `action` is a move of the game in `v`: a drop of the player to
/// move into a column of the grid that is not full, or a switch, paid for
/// with a point, between a place and its neighbour to the right or above,
/// which hold stones of different players.
pub open spec fn is_offer(v: GameView, action: BoardAction) -> bool {
    match action {
        BoardAction::DropStone(p, col) => p == v.mover && col < WIDTH && cell_at(
            v.grid,
            col as int,
            HEIGHT - 1,
        ) == Cell::Empty,
        BoardAction::SwitchStone(a, b) => {
            &&& v.points_of(v.mover) > 0
            &&& on_board(a.0 as int, a.1 as int)
            &&& on_board(b.0 as int, b.1 as int)
            &&& (b.0 == a.0 + 1 && b.1 == a.1) || (b.0 == a.0 && b.1 == a.1 + 1)
            &&& opposed(v.grid, (a.0 as int, a.1 as int), (b.0 as int, b.1 as int))
        },
    }
}

/// The drops that are offered are those into the free columns.
pub proof fn lemma_drops(g: Grid, p: Player, n: int, action: BoardAction)
    requires
        0 <= n <= WIDTH,
    ensures
        drops(g, p, n).contains(action) <==> (action matches BoardAction::DropStone(q, col) && q
            == p && col < n && cell_at(g, col as int, HEIGHT - 1) == Cell::Empty),
    decreases n,
{
    if n > 0 {
        lemma_drops(g, p, n - 1, action);
        let before = drops(g, p, n - 1);
        if cell_at(g, n - 1, HEIGHT - 1) == Cell::Empty {
            let last = BoardAction::DropStone(p, (n - 1) as usize);
            let all = before.push(last);
            assert(all[before.len() as int] == last);
            if before.contains(action) {
                let k = choose|k: int| 0 <= k < before.len() && before[k] == action;
                assert(all[k] == action);
            }
            if all.contains(action) {
                let k = choose|k: int| 0 <= k < all.len() && all[k] == action;
                if k < before.len() {
                    assert(before[k] == action);
                }
            }
        }
    }
}

/// The switches that are offered from a column are those between its
/// places and their neighbours, where the two hold stones of different
/// players.
pub proof fn lemma_column_switches(
    g: Grid,
    x: int,
    n: int,
    dx: int,
    dy: int,
    action: BoardAction,
)
    ensures
        column_switches(g, x, n, dx, dy).contains(action) <==> exists|j: int|
            0 <= j < n && #[trigger] switch_at(g, action, x, j, dx, dy),
    decreases n,
{
    if n > 0 {
        lemma_column_switches(g, x, n - 1, dx, dy, action);
        let before = column_switches(g, x, n - 1, dx, dy);
        let all = column_switches(g, x, n, dx, dy);
        if opposed(g, (x, n - 1), (x + dx, n - 1 + dy)) {
            let last = BoardAction::SwitchStone(coordinate(x, n - 1), coordinate(x + dx, n - 1 + dy));
            assert(all[before.len() as int] == last);
            assert(switch_at(g, last, x, n - 1, dx, dy));
            if before.contains(action) {
                let k = choose|k: int| 0 <= k < before.len() && before[k] == action;
                assert(all[k] == action);
            }
            if all.contains(action) {
                let k = choose|k: int| 0 <= k < all.len() && all[k] == action;
                if k < before.len() {
                    assert(before[k] == action);
                }
            }
        }
        if exists|j: int| 0 <= j < n && #[trigger] switch_at(g, action, x, j, dx, dy) {
            let j = choose|j: int| 0 <= j < n && #[trigger] switch_at(g, action, x, j, dx, dy);
            if j < n - 1 {
                assert(switch_at(g, action, x, j, dx, dy));
            }
        }
    }
}

/// The switches that are offered by `(dx, dy)` are those between a place
/// of the columns left of column `m` and its neighbour, where the two hold
/// stones of different players.
pub proof fn lemma_switches(g: Grid, m: int, dx: int, dy: int, action: BoardAction)
    ensures
        switches(g, m, dx, dy).contains(action) <==> exists|i: int, j: int|
            0 <= i < m && 0 <= j < HEIGHT && #[trigger] switch_at(g, action, i, j, dx, dy),
    decreases m,
{
    if m > 0 {
        lemma_switches(g, m - 1, dx, dy, action);
        lemma_column_switches(g, m - 1, HEIGHT as int, dx, dy, action);
        let before = switches(g, m - 1, dx, dy);
        let column = column_switches(g, m - 1, HEIGHT as int, dx, dy);
        let all = before + column;
        if before.contains(action) {
            let k = choose|k: int| 0 <= k < before.len() && before[k] == action;
            assert(all[k] == action);
        }
        if column.contains(action) {
            let k = choose|k: int| 0 <= k < column.len() && column[k] == action;
            assert(all[before.len() + k] == action);
        }
        if all.contains(action) {
            let k = choose|k: int| 0 <= k < all.len() && all[k] == action;
            if k < before.len() {
                assert(before[k] == action);
            } else {
                assert(column[k - before.len()] == action);
            }
        }
        if exists|i: int, j: int|
            0 <= i < m && 0 <= j < HEIGHT && #[trigger] switch_at(g, action, i, j, dx, dy) {
            let (i, j) = choose|i: int, j: int|
                0 <= i < m && 0 <= j < HEIGHT && #[trigger] switch_at(g, action, i, j, dx, dy);
            if i < m - 1 {
                assert(switch_at(g, action, i, j, dx, dy));
            }
        }
    }
}

/// While the game is open, the moves that are offered are exactly the
/// drops of the player to move into the columns that are not full and,
/// where that player has a point, the switches between neighbouring
/// stones of different players; once a line of exactly four stands, no
/// move is offered.
pub proof fn lemma_legal_moves(v: GameView, action: BoardAction)
    ensures
        legal_moves(v).contains(action) <==> terminal_status(v.grid) == TerminalResult::Ongoing
            && is_offer(v, action),
{
    let g = v.grid;
    let dropping = drops(g, v.mover, WIDTH as int);
    let sideways = switches(g, WIDTH - 1, 1, 0);
    let upwards = switches(g, WIDTH as int, 0, 1);
    lemma_drops(g, v.mover, WIDTH as int, action);
    lemma_switches(g, WIDTH - 1, 1, 0, action);
    lemma_switches(g, WIDTH as int, 0, 1, action);
    assert((exists|i: int, j: int|
        0 <= i < WIDTH - 1 && 0 <= j < HEIGHT && #[trigger] switch_at(g, action, i, j, 1, 0)) <==> (
    action matches BoardAction::SwitchStone(a, b) && on_board(a.0 as int, a.1 as int) && on_board(
        b.0 as int,
        b.1 as int,
    ) && b.0 == a.0 + 1 && b.1 == a.1 && opposed(g, (a.0 as int, a.1 as int), (b.0 as int, b.1 as int)))) by {
        if let BoardAction::SwitchStone(a, b) = action {
            if on_board(a.0 as int, a.1 as int) && on_board(b.0 as int, b.1 as int) && b.0 == a.0 + 1
                && b.1 == a.1 && opposed(g, (a.0 as int, a.1 as int), (b.0 as int, b.1 as int)) {
                assert(switch_at(g, action, a.0 as int, a.1 as int, 1, 0));
            }
        }
    }
    assert((exists|i: int, j: int|
        0 <= i < WIDTH && 0 <= j < HEIGHT && #[trigger] switch_at(g, action, i, j, 0, 1)) <==> (
    action matches BoardAction::SwitchStone(a, b) && on_board(a.0 as int, a.1 as int) && on_board(
        b.0 as int,
        b.1 as int,
    ) && b.0 == a.0 && b.1 == a.1 + 1 && opposed(g, (a.0 as int, a.1 as int), (b.0 as int, b.1 as int)))) by {
        if let BoardAction::SwitchStone(a, b) = action {
            if on_board(a.0 as int, a.1 as int) && on_board(b.0 as int, b.1 as int) && b.0 == a.0
                && b.1 == a.1 + 1 && opposed(g, (a.0 as int, a.1 as int), (b.0 as int, b.1 as int)) {
                assert(switch_at(g, action, a.0 as int, a.1 as int, 0, 1));
            }
        }
    }
    let all = dropping + sideways + upwards;
    if dropping.contains(action) {
        let k = choose|k: int| 0 <= k < dropping.len() && dropping[k] == action;
        assert(all[k] == action);
    }
    if sideways.contains(action) {
        let k = choose|k: int| 0 <= k < sideways.len() && sideways[k] == action;
        assert(all[dropping.len() + k] == action);
    }
    if upwards.contains(action) {
        let k = choose|k: int| 0 <= k < upwards.len() && upwards[k] == action;
        assert(all[dropping.len() + sideways.len() + k] == action);
    }
    if all.contains(action) {
        let k = choose|k: int| 0 <= k < all.len() && all[k] == action;
        if k < dropping.len() {
            assert(dropping[k] == action);
        } else if k < dropping.len() + sideways.len() {
            assert(sideways[k - dropping.len()] == action);
        } else {
            assert(upwards[k - dropping.len() - sideways.len()] == action);
        }
    }
}

/// A move that is offered can be carried out on the grid, and a switch
/// that is offered can be paid for.
pub proof fn lemma_offered_is_playable(v: GameView, action: BoardAction)
    requires
        legal_moves(v).contains(action),
    ensures
        playable(v.grid, action),
        action is SwitchStone ==> v.points_of(v.mover) > 0,
{
    lemma_legal_moves(v, action);
}

/// A bound on the points that a player can gain by one move: a pass
/// scores four lines at most from each place, and each pass but the last
/// takes a stone off the grid.
pub const MOVE_GAIN_LIMIT: usize = 16384;

/// The lines of three in two lists of events, one after the other, are
/// those of the one and those of the other.
pub proof fn lemma_three_count_concat(a: Seq<MoveResult>, b: Seq<MoveResult>, p: Player)
    ensures
        three_count(a + b, p) == three_count(a, p) + three_count(b, p),
    decreases b.len(),
{
    if b.len() == 0 {
        assert(a + b =~= a);
    } else {
        lemma_three_count_concat(a, b.drop_last(), p);
        assert((a + b).drop_last() =~= a + b.drop_last());
        assert((a + b).last() == b.last());
    }
}

/// A player's lines of three, `n` times over, count `n` times for that
/// player and not at all for the opponent.
pub proof fn lemma_three_count_threes(q: Player, n: nat, p: Player)
    ensures
        three_count(threes(q, n), p) == if p == q {
            n
        } else {
            0
        },
    decreases n,
{
    if n > 0 {
        lemma_three_count_threes(q, (n - 1) as nat, p);
        assert(threes(q, n).drop_last() =~= threes(q, (n - 1) as nat));
    }
}

/// A pass reports each player's points as that player's lines of three.
pub proof fn lemma_pass_counts(g: Grid, p: Player)
    ensures
        three_count(pass_events(g), p) == total_score(g, p),
{
    let first = threes(Player::Player1, total_score(g, Player::Player1));
    let second = threes(Player::Player2, total_score(g, Player::Player2));
    lemma_three_count_concat(first, second, p);
    lemma_three_count_threes(Player::Player1, total_score(g, Player::Player1), p);
    lemma_three_count_threes(Player::Player2, total_score(g, Player::Player2), p);
}

/// A row scores four lines at most from each of its places.
proof fn lemma_row_score_bound(g: Grid, p: Player, y: int, x: int)
    requires
        0 <= x,
    ensures
        row_score(g, p, y, x) <= 4 * x,
    decreases x,
{
    if x > 0 {
        lemma_row_score_bound(g, p, y, x - 1);
    }
}

/// The rows score four lines at most from each of their places.
proof fn lemma_rows_score_bound(g: Grid, p: Player, y: int)
    requires
        0 <= y,
    ensures
        rows_score(g, p, y) <= 32 * y,
    decreases y,
{
    if y > 0 {
        lemma_rows_score_bound(g, p, y - 1);
        lemma_row_score_bound(g, p, y - 1, WIDTH as int);
    }
}

/// A column holds a stone at most in each of its places.
proof fn lemma_column_stones_bound(g: Grid, x: int, y: int)
    requires
        0 <= y,
    ensures
        column_stones(g, x, y) <= y,
    decreases y,
{
    if y > 0 {
        lemma_column_stones_bound(g, x, y - 1);
    }
}

/// The columns hold a stone at most in each of their places.
proof fn lemma_stones_bound(g: Grid, x: int)
    requires
        0 <= x,
    ensures
        stones_left_of(g, x) <= 8 * x,
    decreases x,
{
    if x > 0 {
        lemma_stones_bound(g, x - 1);
        lemma_column_stones_bound(g, x - 1, HEIGHT as int);
    }
}

/// While the board comes to rest, a player scores 256 lines at most for
/// each stone on the grid.
proof fn lemma_resolve_gain(g: Grid, p: Player)
    ensures
        three_count(resolve(g).0, p) <= 256 * stone_count(g),
    decreases stone_count(g),
{
    match terminal_status(g) {
        TerminalResult::Win(w) => {
            assert(resolve(g).0.drop_last() =~= Seq::<MoveResult>::empty());
            assert(three_count(Seq::<MoveResult>::empty(), p) == 0);
        },
        TerminalResult::Draw => {
            assert(resolve(g).0.drop_last() =~= Seq::<MoveResult>::empty());
            assert(three_count(Seq::<MoveResult>::empty(), p) == 0);
        },
        TerminalResult::Ongoing => {
            lemma_pass_counts(g, p);
            lemma_rows_score_bound(g, p, HEIGHT as int);
            if any_scores(g) {
                lemma_settled_count(g);
                lemma_resolve_gain(settled(g), p);
                lemma_three_count_concat(pass_events(g), resolve(settled(g)).0, p);
                assert(three_count(resolve(g).0, p) == total_score(g, p) + three_count(
                    resolve(settled(g)).0,
                    p,
                ));
                assert(total_score(g, p) <= 256);
                assert(stone_count(settled(g)) + 1 <= stone_count(g));
                assert(256 * stone_count(settled(g)) + 256 <= 256 * stone_count(g));
            } else {
                lemma_quiet_pass(g);
                assert(three_count(pass_events(g), p) == 0);
            }
        },
    }
}

/// One move gains a player `MOVE_GAIN_LIMIT` points at most.
pub proof fn lemma_move_gain(g: Grid, p: Player)
    ensures
        three_count(resolve(g).0, p) <= MOVE_GAIN_LIMIT,
{
    lemma_resolve_gain(g, p);
    lemma_stones_bound(g, WIDTH as int);
}

/// Whether `action` can be made in `v` with room to spare: it can be
/// carried out on the grid, a switch is paid for with a point, and neither
/// player is within `MOVE_GAIN_LIMIT` points of the largest machine
/// integer.
pub open spec fn has_room(v: GameView, action: BoardAction) -> bool {
    &&& playable(v.grid, action)
    &&& action is SwitchStone ==> v.points_of(v.mover) > 0
    &&& v.points_1 <= usize::MAX - MOVE_GAIN_LIMIT
    &&& v.points_2 <= usize::MAX - MOVE_GAIN_LIMIT
}

/// A move that can be made with room to spare can be made.
pub proof fn lemma_room_suffices(v: GameView, action: BoardAction)
    requires
        has_room(v, action),
    ensures
        can_move(v, action),
{
    let placed_grid = placed(v.grid, action);
    lemma_move_gain(placed_grid, Player::Player1);
    lemma_move_gain(placed_grid, Player::Player2);
}

impl BoardState {
    /// Whether `mov` can be made with room to spare: see [`has_room`].
    /// Such a move meets what [`BoardState::make_move`] asks for.
    pub fn allows(&self, mov: &BoardAction) -> (ok: bool)
        ensures
            ok == has_room(self@, *mov),
            ok ==> can_move(self@, *mov),
    {
        let on_grid = match mov {
            BoardAction::DropStone(_, col) => *col < WIDTH && self.board.is_col_free(*col),
            BoardAction::SwitchStone(a, b) => a.is_contained(
                (0, 0),
                (WIDTH as isize, HEIGHT as isize),
            ) && b.is_contained((0, 0), (WIDTH as isize, HEIGHT as isize)),
        };
        let paid = match mov {
            BoardAction::DropStone(_, _) => true,
            BoardAction::SwitchStone(_, _) => self.points(self.current_player) > 0,
        };
        let ok = on_grid && paid && self.player_1_points <= usize::MAX - MOVE_GAIN_LIMIT
            && self.player_2_points <= usize::MAX - MOVE_GAIN_LIMIT;
        proof {
            if ok {
                lemma_room_suffices(self@, *mov);
            }
        }
        ok
    }
}

/// A list without a double stays so with one more item that it did not
/// hold.
proof fn lemma_push_distinct(list: Seq<BoardAction>, action: BoardAction)
    requires
        list.no_duplicates(),
        !list.contains(action),
    ensures
        list.push(action).no_duplicates(),
{
    let longer = list.push(action);
    assert forall|i: int, j: int| 0 <= i < longer.len() && 0 <= j < longer.len() && i != j implies longer[i]
        != longer[j] by {
        if i < list.len() && j < list.len() {
            assert(list[i] != list[j]);
        } else if i < list.len() {
            assert(list.contains(list[i]));
        } else {
            assert(list.contains(list[j]));
        }
    }
}

/// No drop is offered twice.
proof fn lemma_drops_distinct(g: Grid, p: Player, n: int)
    requires
        0 <= n <= WIDTH,
    ensures
        drops(g, p, n).no_duplicates(),
    decreases n,
{
    if n > 0 {
        lemma_drops_distinct(g, p, n - 1);
        if cell_at(g, n - 1, HEIGHT - 1) == Cell::Empty {
            let last = BoardAction::DropStone(p, (n - 1) as usize);
            lemma_drops(g, p, n - 1, last);
            lemma_push_distinct(drops(g, p, n - 1), last);
        }
    }
}

/// No switch is offered twice from one column.
proof fn lemma_column_switches_distinct(g: Grid, x: int, n: int, dx: int, dy: int)
    requires
        0 <= x < WIDTH,
        0 <= n <= HEIGHT,
    ensures
        column_switches(g, x, n, dx, dy).no_duplicates(),
    decreases n,
{
    if n > 0 {
        lemma_column_switches_distinct(g, x, n - 1, dx, dy);
        if opposed(g, (x, n - 1), (x + dx, n - 1 + dy)) {
            let last = BoardAction::SwitchStone(coordinate(x, n - 1), coordinate(x + dx, n - 1 + dy));
            lemma_column_switches(g, x, n - 1, dx, dy, last);
            if column_switches(g, x, n - 1, dx, dy).contains(last) {
                let j = choose|j: int| 0 <= j < n - 1 && #[trigger] switch_at(g, last, x, j, dx, dy);
                assert(coordinate(x, j) != coordinate(x, n - 1));
            }
            lemma_push_distinct(column_switches(g, x, n - 1, dx, dy), last);
        }
    }
}

/// No switch is offered twice by `(dx, dy)`.
proof fn lemma_switches_distinct(g: Grid, m: int, dx: int, dy: int)
    requires
        0 <= m <= WIDTH,
    ensures
        switches(g, m, dx, dy).no_duplicates(),
    decreases m,
{
    if m > 0 {
        lemma_switches_distinct(g, m - 1, dx, dy);
        lemma_column_switches_distinct(g, m - 1, HEIGHT as int, dx, dy);
        let before = switches(g, m - 1, dx, dy);
        let column = column_switches(g, m - 1, HEIGHT as int, dx, dy);
        assert forall|i: int, j: int| 0 <= i < before.len() && 0 <= j < column.len() implies before[i]
            != column[j] by {
            let a = before[i];
            assert(before.contains(a));
            if a == column[j] {
                assert(column.contains(a));
                lemma_switches(g, m - 1, dx, dy, a);
                lemma_column_switches(g, m - 1, HEIGHT as int, dx, dy, a);
                let (c, r) = choose|c: int, r: int|
                    0 <= c < m - 1 && 0 <= r < HEIGHT && #[trigger] switch_at(g, a, c, r, dx, dy);
                let k = choose|k: int| 0 <= k < HEIGHT && #[trigger] switch_at(g, a, m - 1, k, dx, dy);
                assert(coordinate(c, r) != coordinate(m - 1, k));
            }
        }
        vstd::seq_lib::lemma_no_dup_in_concat(before, column);
    }
}

/// No move is offered twice.
pub proof fn lemma_legal_moves_distinct(v: GameView)
    ensures
        legal_moves(v).no_duplicates(),
{
    let g = v.grid;
    let dropping = drops(g, v.mover, WIDTH as int);
    let sideways = switches(g, WIDTH - 1, 1, 0);
    let upwards = switches(g, WIDTH as int, 0, 1);
    lemma_drops_distinct(g, v.mover, WIDTH as int);
    lemma_switches_distinct(g, WIDTH - 1, 1, 0);
    lemma_switches_distinct(g, WIDTH as int, 0, 1);
    assert forall|i: int, j: int| 0 <= i < dropping.len() && 0 <= j < sideways.len() implies dropping[i]
        != sideways[j] by {
        assert(dropping.contains(dropping[i]));
        assert(sideways.contains(sideways[j]));
        lemma_drops(g, v.mover, WIDTH as int, dropping[i]);
        lemma_switches(g, WIDTH - 1, 1, 0, sideways[j]);
    }
    vstd::seq_lib::lemma_no_dup_in_concat(dropping, sideways);
    let first = dropping + sideways;
    assert forall|i: int, j: int| 0 <= i < first.len() && 0 <= j < upwards.len() implies first[i]
        != upwards[j] by {
        let b = upwards[j];
        assert(upwards.contains(b));
        lemma_switches(g, WIDTH as int, 0, 1, b);
        let (c, r) = choose|c: int, r: int|
            0 <= c < WIDTH && 0 <= r < HEIGHT && #[trigger] switch_at(g, b, c, r, 0, 1);
        if i < dropping.len() {
            assert(dropping.contains(dropping[i]));
            lemma_drops(g, v.mover, WIDTH as int, dropping[i]);
        } else {
            let a = sideways[i - dropping.len()];
            assert(sideways.contains(a));
            lemma_switches(g, WIDTH - 1, 1, 0, a);
            let (c2, r2) = choose|c2: int, r2: int|
                0 <= c2 < WIDTH - 1 && 0 <= r2 < HEIGHT && #[trigger] switch_at(g, a, c2, r2, 1, 0);
            if a == b {
                assert(coordinate(c, r) == coordinate(c2, r2));
                assert(coordinate(c, r + 1) == coordinate(c2 + 1, r2));
            }
        }
    }
    vstd::seq_lib::lemma_no_dup_in_concat(first, upwards);
}

/// The outcome that the events of a move tell is the one that the board
/// shows once it has come to rest.
pub proof fn lemma_outcome_is_status(g: Grid)
    ensures
        outcome(resolve(g).0) == terminal_status(resolve(g).1),
    decreases stone_count(g),
{
    lemma_resolve_shape(g);
    if terminal_status(g) == TerminalResult::Ongoing {
        if any_scores(g) {
            lemma_settled_count(g);
            lemma_outcome_is_status(settled(g));
            let first = pass_events(g);
            let then = resolve(settled(g)).0;
            if then.len() > 0 {
                assert((first + then).last() == then.last());
            } else {
                assert(first + then =~= first);
                if first.len() > 0 {
                    assert(first.last() is Three);
                }
            }
        } else {
            lemma_quiet_pass(g);
        }
    }
}

/// After a move the outcome that the state keeps is the one that its board
/// shows; and once a move has ended the game, no move is offered any more.
pub proof fn lemma_kept_outcome(v: GameView, action: BoardAction)
    ensures
        after_move(v, action).winner == terminal_status(after_move(v, action).grid),
        after_move(v, action).winner != TerminalResult::Ongoing ==> legal_moves(
            after_move(v, action),
        ).len() == 0,
        winner_of(after_move(v, action)) == match after_move(v, action).winner {
            TerminalResult::Win(p) => Some(p),
            _ => None,
        },
{
    lemma_outcome_is_status(placed(v.grid, action));
}

/// A player's points change by a move in two ways only: a switch costs
/// the player who makes it one point, and each line of three that the
/// move brings about gains its player one.
pub proof fn lemma_points_change(v: GameView, action: BoardAction, p: Player)
    requires
        action is SwitchStone ==> v.points_of(v.mover) > 0,
    ensures
        after_move(v, action).points_of(p) == v.points_of(p) - (if action is SwitchStone && p
            == v.mover {
            1int
        } else {
            0int
        }) + three_count(resolve(placed(v.grid, action)).0, p),
        after_move(v, action).mover == v.mover.other(),
{
}

} // verus!
