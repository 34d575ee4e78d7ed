use m3c4::action::{BoardAction, Coordinate};
use m3c4::board::{
    directional_stone_len, find_points, is_four_directional, Board, Cell, MoveResult,
    TerminalResult, HEIGHT, WIDTH,
};
use m3c4::cell_set::CellSet;
use m3c4::player::Player;

const X: Cell = Cell::Filled(Player::Player1);
const O: Cell = Cell::Filled(Player::Player2);

fn count_stones(board: &Board) -> usize {
    let mut count = 0;
    for x in 0..WIDTH {
        for y in 0..HEIGHT {
            if board.get(Coordinate::new(x as isize, y as isize)) != Cell::Empty {
                count += 1;
            }
        }
    }
    count
}

fn count_marks(set: &CellSet) -> usize {
    let mut count = 0;
    for x in 0..WIDTH {
        for y in 0..HEIGHT {
            if set.contains(Coordinate::new(x as isize, y as isize)) {
                count += 1;
            }
        }
    }
    count
}

fn at(board: &Board, x: isize, y: isize) -> Cell {
    board.get(Coordinate::new(x, y))
}

#[test]
fn empty_board_has_no_stone() {
    let board = Board::default();
    assert_eq!(count_stones(&board), 0);
    assert_eq!(board.get_board_terminal_status(), TerminalResult::Ongoing);
    for col in 0..WIDTH {
        assert!(board.is_col_free(col));
    }
}

#[test]
fn get_beyond_the_grid_is_empty() {
    let mut board = Board::default();
    board.set(X, Coordinate::new(7, 7));
    assert_eq!(at(&board, 7, 7), X);
    assert_eq!(at(&board, 8, 7), Cell::Empty);
    assert_eq!(at(&board, 7, 8), Cell::Empty);
    assert_eq!(at(&board, -1, 0), Cell::Empty);
    assert_eq!(at(&board, 0, -1), Cell::Empty);
    assert!(!board.is_col_free(7));
    assert!(board.is_col_free(6));
}

#[test]
fn drop_lands_on_the_lowest_empty_row() {
    let mut board = Board::default();
    assert!(board.make_move(&BoardAction::DropStone(Player::Player1, 3)).is_empty());
    assert!(board.make_move(&BoardAction::DropStone(Player::Player2, 3)).is_empty());
    assert!(board.make_move(&BoardAction::DropStone(Player::Player1, 3)).is_empty());
    assert_eq!(at(&board, 3, 0), X);
    assert_eq!(at(&board, 3, 1), O);
    assert_eq!(at(&board, 3, 2), X);
    assert_eq!(at(&board, 3, 3), Cell::Empty);
    assert_eq!(count_stones(&board), 3);
}

#[test]
fn drop_fills_a_gap_below_a_floating_stone() {
    let mut board = Board::default();
    board.set(O, Coordinate::new(2, 1));
    assert!(board.make_move(&BoardAction::DropStone(Player::Player1, 2)).is_empty());
    assert_eq!(at(&board, 2, 0), X);
    assert_eq!(at(&board, 2, 1), O);
}

#[test]
fn three_drops_in_a_column_score_once_and_vanish() {
    let mut board = Board::default();
    let first = board.make_move(&BoardAction::DropStone(Player::Player1, 0));
    let second = board.make_move(&BoardAction::DropStone(Player::Player1, 0));
    let third = board.make_move(&BoardAction::DropStone(Player::Player1, 0));
    assert_eq!(first, vec![]);
    assert_eq!(second, vec![]);
    assert_eq!(third, vec![MoveResult::Three(Player::Player1)]);
    for y in 0..HEIGHT {
        assert_eq!(at(&board, 0, y as isize), Cell::Empty);
    }
    assert_eq!(count_stones(&board), 0);
}

#[test]
fn switch_exchanges_two_cells() {
    let mut board = Board::default();
    board.set(X, Coordinate::new(1, 0));
    board.set(O, Coordinate::new(2, 0));
    let events = board.make_move(&BoardAction::SwitchStone(
        Coordinate::new(1, 0),
        Coordinate::new(2, 0),
    ));
    assert!(events.is_empty());
    assert_eq!(at(&board, 1, 0), O);
    assert_eq!(at(&board, 2, 0), X);
}

#[test]
fn switch_of_a_place_with_itself_changes_nothing() {
    let mut board = Board::default();
    board.set(X, Coordinate::new(1, 0));
    let events = board.make_move(&BoardAction::SwitchStone(
        Coordinate::new(1, 0),
        Coordinate::new(1, 0),
    ));
    assert!(events.is_empty());
    assert_eq!(at(&board, 1, 0), X);
    assert_eq!(count_stones(&board), 1);
}

#[test]
fn exactly_four_in_a_row_wins() {
    let board = Board::from([
        "        ", "        ", "        ", "        ", "        ", "        ", "        ",
        "XXXX    ",
    ]);
    assert_eq!(
        board.get_board_terminal_status(),
        TerminalResult::Win(Player::Player1)
    );
    assert_eq!(
        is_four_directional(&board, Coordinate::new(0, 0), (1, 0)),
        Some(Player::Player1)
    );
    assert_eq!(is_four_directional(&board, Coordinate::new(1, 0), (1, 0)), None);
    assert_eq!(is_four_directional(&board, Coordinate::new(0, 0), (0, 1)), None);
    assert_eq!(is_four_directional(&board, Coordinate::new(4, 0), (1, 0)), None);
}

#[test]
fn four_wins_along_every_axis() {
    let upwards = Board::from([
        "        ", "        ", "        ", "        ", "  O     ", "  O     ", "  O     ",
        "  O     ",
    ]);
    assert_eq!(
        upwards.get_board_terminal_status(),
        TerminalResult::Win(Player::Player2)
    );
    let rising = Board::from([
        "        ", "        ", "        ", "        ", "    X   ", "   X    ", "  X     ",
        " X      ",
    ]);
    assert_eq!(
        rising.get_board_terminal_status(),
        TerminalResult::Win(Player::Player1)
    );
    let falling = Board::from([
        "        ", "        ", "        ", "        ", " X      ", "  X     ", "   X    ",
        "    X   ",
    ]);
    assert_eq!(
        falling.get_board_terminal_status(),
        TerminalResult::Win(Player::Player1)
    );
    assert_eq!(
        is_four_directional(&falling, Coordinate::new(4, 0), (-1, 1)),
        Some(Player::Player1)
    );
}

#[test]
fn five_in_a_row_does_not_win() {
    let board = Board::from([
        "        ", "        ", "        ", "        ", "        ", "        ", "        ",
        "XXXXX   ",
    ]);
    assert_eq!(board.get_board_terminal_status(), TerminalResult::Ongoing);
    for x in 0..5 {
        assert_eq!(is_four_directional(&board, Coordinate::new(x, 0), (1, 0)), None);
    }
}

#[test]
fn a_drop_that_makes_five_scores_a_three() {
    let mut board = Board::from([
        "        ", "        ", "        ", "        ", "        ", "        ", "        ",
        "XX XX   ",
    ]);
    let events = board.make_move(&BoardAction::DropStone(Player::Player1, 2));
    assert_eq!(events, vec![MoveResult::Three(Player::Player1)]);
    assert_eq!(count_stones(&board), 0);
}

#[test]
fn a_drop_that_makes_four_wins_and_nothing_scores() {
    let mut board = Board::from([
        "        ", "        ", "        ", "        ", "        ", "        ", "OOO     ",
        "XXX     ",
    ]);
    let events = board.make_move(&BoardAction::DropStone(Player::Player1, 3));
    assert_eq!(events, vec![MoveResult::Winner(Player::Player1)]);
    assert_eq!(count_stones(&board), 7);
}

#[test]
fn fours_of_both_players_are_a_draw() {
    let board = Board::from([
        "        ", "        ", "        ", "        ", "        ", "    OOOO", "        ",
        "XXXX    ",
    ]);
    assert_eq!(board.get_board_terminal_status(), TerminalResult::Draw);

    let mut board = Board::from([
        "        ", "        ", "        ", "        ", "        ", "    OOOO", "        ",
        "XXX     ",
    ]);
    let events = board.make_move(&BoardAction::DropStone(Player::Player1, 3));
    assert_eq!(events, vec![MoveResult::Draw]);
    assert_eq!(count_stones(&board), 8);
}

#[test]
fn removing_a_stone_lets_the_column_come_down() {
    let mut board = Board::default();
    board.set(X, Coordinate::new(2, 0));
    board.set(O, Coordinate::new(2, 1));
    board.set(X, Coordinate::new(2, 2));
    board.set(O, Coordinate::new(3, 0));
    board.remove_stone(Coordinate::new(2, 0));
    assert_eq!(at(&board, 2, 0), O);
    assert_eq!(at(&board, 2, 1), X);
    assert_eq!(at(&board, 2, 2), Cell::Empty);
    assert_eq!(at(&board, 3, 0), O);
    assert_eq!(count_stones(&board), 3);
}

#[test]
fn removing_from_a_full_column_empties_its_top() {
    let mut board = Board::default();
    for y in 0..HEIGHT {
        let cell = if y % 2 == 0 { X } else { O };
        board.set(cell, Coordinate::new(5, y as isize));
    }
    board.remove_stone(Coordinate::new(5, 3));
    assert_eq!(at(&board, 5, 2), X);
    assert_eq!(at(&board, 5, 3), X);
    assert_eq!(at(&board, 5, 4), O);
    assert_eq!(at(&board, 5, 6), O);
    assert_eq!(at(&board, 5, 7), Cell::Empty);
    assert_eq!(count_stones(&board), 7);
}

#[test]
fn removing_an_empty_place_still_lets_the_column_come_down() {
    let mut board = Board::default();
    board.set(X, Coordinate::new(1, 3));
    board.remove_stone(Coordinate::new(1, 0));
    assert_eq!(at(&board, 1, 2), X);
    assert_eq!(at(&board, 1, 3), Cell::Empty);
}

#[test]
fn run_of_stones_is_listed_in_order() {
    let board = Board::from([
        "        ", "        ", "        ", "        ", "        ", "        ", "        ",
        " XXXO   ",
    ]);
    let run = directional_stone_len(&board, Player::Player1, Coordinate::new(1, 0), (1, 0));
    assert_eq!(
        run,
        vec![
            Coordinate::new(1, 0),
            Coordinate::new(2, 0),
            Coordinate::new(3, 0)
        ]
    );
    let back = directional_stone_len(&board, Player::Player1, Coordinate::new(3, 0), (-1, 0));
    assert_eq!(back.len(), 3);
    assert_eq!(back[2], Coordinate::new(1, 0));
    let none = directional_stone_len(&board, Player::Player2, Coordinate::new(1, 0), (1, 0));
    assert!(none.is_empty());
    let off = directional_stone_len(&board, Player::Player1, Coordinate::new(-3, 9), (1, 0));
    assert!(off.is_empty());
}

#[test]
fn run_ends_at_the_edge_of_the_grid() {
    let board = Board::from([
        "        ", "        ", "        ", "        ", "        ", "        ", "        ",
        "     OOO",
    ]);
    let run = directional_stone_len(&board, Player::Player2, Coordinate::new(5, 0), (1, 0));
    assert_eq!(run.len(), 3);
}

#[test]
fn line_of_three_scores_once_from_its_beginning() {
    let board = Board::from([
        "        ", "        ", "        ", "        ", "        ", "        ", "        ",
        "  XXX   ",
    ]);
    let (points, marks) = find_points(&board, Player::Player1);
    assert_eq!(points, 1);
    assert_eq!(count_marks(&marks), 3);
    assert!(marks.contains(Coordinate::new(2, 0)));
    assert!(marks.contains(Coordinate::new(3, 0)));
    assert!(marks.contains(Coordinate::new(4, 0)));
    let (points, marks) = find_points(&board, Player::Player2);
    assert_eq!(points, 0);
    assert_eq!(count_marks(&marks), 0);
}

#[test]
fn line_of_two_does_not_score() {
    let board = Board::from([
        "        ", "        ", "        ", "        ", "        ", "        ", "        ",
        "  XX O  ",
    ]);
    assert_eq!(find_points(&board, Player::Player1).0, 0);
    assert_eq!(find_points(&board, Player::Player2).0, 0);
}

#[test]
fn line_of_four_scores_from_its_second_stone() {
    let board = Board::from([
        "        ", "        ", "        ", "        ", "        ", "        ", "        ",
        "XXXX    ",
    ]);
    let (points, marks) = find_points(&board, Player::Player1);
    assert_eq!(points, 1);
    assert_eq!(count_marks(&marks), 3);
    assert!(!marks.contains(Coordinate::new(0, 0)));
    assert!(marks.contains(Coordinate::new(1, 0)));
    assert!(marks.contains(Coordinate::new(3, 0)));
}

#[test]
fn long_line_scores_once_where_the_scan_follows_it() {
    let row = Board::from([
        "        ", "        ", "        ", "        ", "        ", "        ", "        ",
        "XXXXXX  ",
    ]);
    let (points, marks) = find_points(&row, Player::Player1);
    assert_eq!(points, 1);
    assert_eq!(count_marks(&marks), 6);

    let rising = Board::from([
        "        ", "        ", "        ", "    O   ", "   O    ", "  O     ", " O      ",
        "O       ",
    ]);
    let (points, marks) = find_points(&rising, Player::Player2);
    assert_eq!(points, 1);
    assert_eq!(count_marks(&marks), 5);
}

#[test]
fn long_falling_line_scores_from_every_scoring_length() {
    let falling = Board::from([
        "        ", "        ", "        ", "X       ", " X      ", "  X     ", "   X    ",
        "    X   ",
    ]);
    assert_eq!(falling.get_board_terminal_status(), TerminalResult::Ongoing);
    let (points, marks) = find_points(&falling, Player::Player1);
    assert_eq!(points, 2);
    assert_eq!(count_marks(&marks), 5);

    let longer = Board::from([
        "        ", "        ", "X       ", " X      ", "  X     ", "   X    ", "    X   ",
        "     X  ",
    ]);
    assert_eq!(find_points(&longer, Player::Player1).0, 3);
}

#[test]
fn crossing_lines_score_each() {
    let board = Board::from([
        "        ", "        ", "        ", "        ", "        ", " X      ", " X      ",
        "XXX     ",
    ]);
    let (points, marks) = find_points(&board, Player::Player1);
    assert_eq!(points, 2);
    assert_eq!(count_marks(&marks), 5);
}

#[test]
fn cascade_goes_on_after_stones_have_come_down() {
    let mut board = Board::from([
        "        ", "        ", "        ", "        ", "        ", "        ", " OO     ",
        "XXOX    ",
    ]);
    let events = board.make_move(&BoardAction::SwitchStone(
        Coordinate::new(2, 0),
        Coordinate::new(3, 0),
    ));
    assert_eq!(
        events,
        vec![
            MoveResult::Three(Player::Player1),
            MoveResult::Three(Player::Player2)
        ]
    );
    assert_eq!(count_stones(&board), 0);
}

#[test]
fn both_players_score_in_one_pass_first_player_first() {
    let mut board = Board::from([
        "        ", "        ", "        ", "        ", "        ", "        ", "        ",
        "XX OOO  ",
    ]);
    let events = board.make_move(&BoardAction::DropStone(Player::Player1, 2));
    assert_eq!(
        events,
        vec![
            MoveResult::Three(Player::Player1),
            MoveResult::Three(Player::Player2)
        ]
    );
    assert_eq!(count_stones(&board), 0);
}

#[test]
fn cell_set_holds_what_was_put_in() {
    let mut set = CellSet::new();
    assert!(!set.contains(Coordinate::new(0, 0)));
    set.insert(Coordinate::new(0, 0));
    set.insert(Coordinate::new(7, 7));
    set.insert(Coordinate::new(0, 0));
    assert!(set.contains(Coordinate::new(0, 0)));
    assert!(set.contains(Coordinate::new(7, 7)));
    assert!(!set.contains(Coordinate::new(7, 6)));
    assert!(!set.contains(Coordinate::new(8, 0)));
    assert!(!set.contains(Coordinate::new(-1, -1)));
    assert_eq!(count_marks(&set), 2);
}

#[test]
fn board_text_shows_rows_from_the_top() {
    let board = Board::from([
        "        ", "        ", "        ", "        ", "        ", "        ", " O      ",
        "XO     X",
    ]);
    let expected = "|        |\n|        |\n|        |\n|        |\n|        |\n|        |\n| O      |\n|XO     X|\n---\n";
    assert_eq!(board.to_string(), expected);
    assert_eq!(at(&board, 0, 0), X);
    assert_eq!(at(&board, 1, 0), O);
    assert_eq!(at(&board, 1, 1), O);
    assert_eq!(at(&board, 7, 0), X);
    assert_eq!(count_stones(&board), 4);
}
