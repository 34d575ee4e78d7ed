//! Boards and states as text.

use vstd::prelude::*;
use vstd::string::StringExecFns;
use crate::action::Coordinate;
use crate::board::Board;
use crate::game::{BoardState, GameView};
use crate::lines::TerminalResult;
use crate::grid::{cell_at, grid_of, lemma_same_cells, on_board, Cell, Grid, HEIGHT, WIDTH};
use crate::player::Player;

verus! {

/// The cell that a character pictures: `X` a stone of the first player, `O`
/// one of the second, anything else no stone.
pub open spec fn pictured(c: char) -> Cell {
    if c == 'X' {
        Cell::Filled(Player::Player1)
    } else if c == 'O' {
        Cell::Filled(Player::Player2)
    } else {
        Cell::Empty
    }
}

/// Whether `rows` picture a grid: eight rows of at least eight characters,
/// of which the first eight are `X`, `O` or a blank.
pub open spec fn is_picture(rows: Seq<Seq<char>>) -> bool {
    &&& rows.len() == HEIGHT
    &&& forall|r: int, x: int|
        0 <= r < HEIGHT && 0 <= x < WIDTH ==> x < rows[r].len() && (#[trigger] rows[r][x] == 'X'
            || rows[r][x] == 'O' || rows[r][x] == ' ')
}

/// The grid that `rows` picture, the top row first.
pub open spec fn picture(rows: Seq<Seq<char>>) -> Grid {
    grid_of(|x: int, y: int| pictured(rows[HEIGHT - 1 - y][x]))
}

/// The texts of `rows`.
pub open spec fn texts(rows: Seq<&str>) -> Seq<Seq<char>> {
    rows.map_values(|row: &str| row@)
}

/// The character that stands for a cell.
pub open spec fn cell_char(cell: Cell) -> char {
    match cell {
        Cell::Empty => ' ',
        Cell::Filled(Player::Player1) => 'X',
        Cell::Filled(Player::Player2) => 'O',
    }
}

/// The beginning of the line of text for row `y`: the left border and the
/// cells left of column `n`.
pub open spec fn row_text(g: Grid, y: int, n: int) -> Seq<char>
    decreases n,
{
    if n <= 0 {
        seq!['|']
    } else {
        row_text(g, y, n - 1).push(cell_char(cell_at(g, n - 1, y)))
    }
}

/// The lines of text for the `n` top rows, each between two borders.
pub open spec fn rows_text(g: Grid, n: int) -> Seq<char>
    decreases n,
{
    if n <= 0 {
        Seq::empty()
    } else {
        rows_text(g, n - 1) + row_text(g, HEIGHT - n, WIDTH as int) + seq!['|', '\n']
    }
}

/// The text that shows a grid: its rows from the top down, and a rule
/// below them.
pub open spec fn board_text(g: Grid) -> Seq<char> {
    rows_text(g, HEIGHT as int) + seq!['-', '-', '-', '\n']
}

impl Board {
    /// The board that eight rows of text picture, the top row first: `X`
    /// is a stone of the first player, `O` one of the second, a blank no
    /// stone.
    pub fn from(a: [&str; 8]) -> (board: Board)
        requires
            is_picture(texts(a@)),
        ensures
            board@ == picture(texts(a@)),
    {
        let mut board = Board::default();
        let ghost rows = texts(a@);

        for x in 0..WIDTH
            invariant
                rows == texts(a@),
                is_picture(rows),
                forall|i: int, j: int|
                    on_board(i, j) ==> #[trigger] cell_at(board@, i, j) == if i < x {
                        pictured(rows[HEIGHT - 1 - j][i])
                    } else {
                        Cell::Empty
                    },
        {
            for y in 0..HEIGHT
                invariant
                    x < WIDTH,
                    rows == texts(a@),
                    is_picture(rows),
                    forall|i: int, j: int|
                        on_board(i, j) ==> #[trigger] cell_at(board@, i, j) == if i < x || (i == x
                            && HEIGHT - 1 - j < y) {
                            pictured(rows[HEIGHT - 1 - j][i])
                        } else {
                            Cell::Empty
                        },
            {
                assert(rows[y as int] == a[y as int]@);
                assert(rows[y as int][x as int] == 'X' || rows[y as int][x as int] == 'O'
                    || rows[y as int][x as int] == ' ');
                let c = a[y].get_char(x);
                let cell = if c == 'X' {
                    Cell::Filled(Player::Player1)
                } else if c == 'O' {
                    Cell::Filled(Player::Player2)
                } else {
                    Cell::Empty
                };

                board.set(cell, Coordinate::new(x as isize, (HEIGHT - 1 - y) as isize));
            }
        }
        proof {
            board.lemma_view_shape();
            lemma_same_cells(board@, picture(rows));
        }
        board
    }

    /// The text that shows the board: see [`board_text`].
    pub fn to_string(&self) -> (text: String)
        ensures
            text@ == board_text(self@),
    {
        let mut text = String::new();
        let ghost g = self@;
        for y in 0..HEIGHT
            invariant
                g == self@,
                text@ == rows_text(g, y as int),
        {
            let ghost above = text@;
            proof {
                reveal_strlit("|");
                reveal_strlit("|\n");
            }
            text.append("|");
            assert(text@ =~= above + row_text(g, HEIGHT - 1 - y, 0));
            for x in 0..WIDTH
                invariant
                    g == self@,
                    y < HEIGHT,
                    text@ == above + row_text(g, HEIGHT - 1 - y, x as int),
            {
                proof {
                    reveal_strlit(" ");
                    reveal_strlit("X");
                    reveal_strlit("O");
                }
                match self.get(Coordinate::new(x as isize, (HEIGHT - 1 - y) as isize)) {
                    Cell::Empty => text.append(" "),
                    Cell::Filled(Player::Player1) => text.append("X"),
                    Cell::Filled(Player::Player2) => text.append("O"),
                };
                assert(text@ =~= above + row_text(g, HEIGHT - 1 - y, x + 1));
            }
            text.append("|\n");
            assert(text@ =~= rows_text(g, y + 1));
        }
        proof {
            reveal_strlit("---\n");
        }
        text.append("---\n");
        assert(text@ =~= board_text(g));

        text
    }
}

/// The character of the digit `d`.
pub open spec fn digit_char(d: int) -> char {
    if d == 0 {
        '0'
    } else if d == 1 {
        '1'
    } else if d == 2 {
        '2'
    } else if d == 3 {
        '3'
    } else if d == 4 {
        '4'
    } else if d == 5 {
        '5'
    } else if d == 6 {
        '6'
    } else if d == 7 {
        '7'
    } else if d == 8 {
        '8'
    } else {
        '9'
    }
}

/// The number `n` in decimal digits.
pub open spec fn decimal(n: nat) -> Seq<char>
    decreases n,
{
    if n < 10 {
        seq![digit_char(n as int)]
    } else {
        decimal(n / 10).push(digit_char(n as int % 10))
    }
}

/// The name of a player.
pub open spec fn player_text(p: Player) -> Seq<char> {
    match p {
        Player::Player1 => "Player1"@,
        Player::Player2 => "Player2"@,
    }
}

/// The text that tells how a game has ended, if it has.
pub open spec fn outcome_text(outcome: TerminalResult) -> Seq<char> {
    match outcome {
        TerminalResult::Ongoing => "Ongoing"@,
        TerminalResult::Win(p) => "Win("@ + player_text(p) + ")"@,
        TerminalResult::Draw => "Draw"@,
    }
}

/// The text that shows a state: the board, a blank line, and a line each
/// for the points, the player to move and the outcome.
pub open spec fn state_text(v: GameView) -> Seq<char> {
    board_text(v.grid) + "\n"@ + "p1: "@ + decimal(v.points_1) + ", p2: "@ + decimal(v.points_2)
        + "'\n"@ + "Turn: "@ + player_text(v.mover) + "\n"@ + "Winner: "@ + outcome_text(v.winner)
        + "\n"@
}

/// Writes the digit `d` to the end of `text`.
fn push_digit(text: &mut String, d: usize)
    requires
        d < 10,
    ensures
        final(text)@ == old(text)@.push(digit_char(d as int)),
{
    proof {
        reveal_strlit("0");
        reveal_strlit("1");
        reveal_strlit("2");
        reveal_strlit("3");
        reveal_strlit("4");
        reveal_strlit("5");
        reveal_strlit("6");
        reveal_strlit("7");
        reveal_strlit("8");
        reveal_strlit("9");
    }
    if d == 0 {
        text.append("0");
    } else if d == 1 {
        text.append("1");
    } else if d == 2 {
        text.append("2");
    } else if d == 3 {
        text.append("3");
    } else if d == 4 {
        text.append("4");
    } else if d == 5 {
        text.append("5");
    } else if d == 6 {
        text.append("6");
    } else if d == 7 {
        text.append("7");
    } else if d == 8 {
        text.append("8");
    } else {
        text.append("9");
    }
    assert(text@ =~= old(text)@.push(digit_char(d as int)));
}

/// Writes `n` in decimal digits to the end of `text`.
fn push_decimal(text: &mut String, n: usize)
    ensures
        final(text)@ == old(text)@ + decimal(n as nat),
    decreases n,
{
    if n >= 10 {
        push_decimal(text, n / 10);
    }
    push_digit(text, n % 10);
    assert(text@ =~= old(text)@ + decimal(n as nat));
}

/// Writes the name of `player` to the end of `text`.
fn push_player(text: &mut String, player: Player)
    ensures
        final(text)@ == old(text)@ + player_text(player),
{
    match player {
        Player::Player1 => text.append("Player1"),
        Player::Player2 => text.append("Player2"),
    }
}

impl BoardState {
    /// The text that shows the state: see [`state_text`].
    pub fn to_string(&self) -> (text: String)
        ensures
            text@ == state_text(self@),
    {
        let mut text = self.board().to_string();
        text.append("\n");
        text.append("p1: ");
        push_decimal(&mut text, self.points(Player::Player1));
        text.append(", p2: ");
        push_decimal(&mut text, self.points(Player::Player2));
        text.append("'\n");
        text.append("Turn: ");
        push_player(&mut text, self.current_player());
        text.append("\n");
        text.append("Winner: ");
        let ghost before = text@;
        match self.outcome() {
            TerminalResult::Ongoing => text.append("Ongoing"),
            TerminalResult::Win(player) => {
                text.append("Win(");
                push_player(&mut text, player);
                text.append(")");
            },
            TerminalResult::Draw => text.append("Draw"),
        }
        assert(text@ =~= before + outcome_text(self@.winner));
        text.append("\n");
        assert(text@ =~= state_text(self@));
        text
    }
}

} // verus!
