use m3c4::action::{BoardAction, Coordinate};
use m3c4::board::{Cell, TerminalResult, HEIGHT, WIDTH};
use m3c4::player::Player;
use m3c4::BoardState;

fn drop(player: Player, col: usize) -> BoardAction {
    BoardAction::DropStone(player, col)
}

fn switch(a: (isize, isize), b: (isize, isize)) -> BoardAction {
    BoardAction::SwitchStone(Coordinate::new(a.0, a.1), Coordinate::new(b.0, b.1))
}

fn play(state: &mut BoardState, action: BoardAction) {
    assert!(state.allows(&action));
    state.make_move(&action);
}

fn with_a_point_for_the_first_player() -> BoardState {
    let mut state = BoardState::default();
    play(&mut state, drop(Player::Player1, 5));
    play(&mut state, drop(Player::Player1, 5));
    play(&mut state, drop(Player::Player1, 5));
    state
}

#[test]
fn game_begins_empty_with_the_first_player() {
    let state = BoardState::default();
    assert_eq!(state.current_player(), Player::Player1);
    assert_eq!(state.points(Player::Player1), 0);
    assert_eq!(state.points(Player::Player2), 0);
    assert_eq!(state.outcome(), TerminalResult::Ongoing);
    assert_eq!(state.get_winner(), None);
    assert!(!state.is_terminal());
    for x in 0..WIDTH {
        for y in 0..HEIGHT {
            assert_eq!(
                state.board().get(Coordinate::new(x as isize, y as isize)),
                Cell::Empty
            );
        }
    }
}

#[test]
fn opening_offers_a_drop_into_each_column() {
    let state = BoardState::default();
    let moves = state.available_moves();
    let expected: Vec<BoardAction> = (0..WIDTH).map(|col| drop(Player::Player1, col)).collect();
    assert_eq!(moves, expected);
}

#[test]
fn turn_passes_on_with_each_move() {
    let mut state = BoardState::default();
    play(&mut state, drop(Player::Player1, 0));
    assert_eq!(state.current_player(), Player::Player2);
    assert_eq!(state.available_moves()[0], drop(Player::Player2, 0));
    play(&mut state, drop(Player::Player2, 0));
    assert_eq!(state.current_player(), Player::Player1);
}

#[test]
fn line_of_three_gains_a_point() {
    let state = with_a_point_for_the_first_player();
    assert_eq!(state.points(Player::Player1), 1);
    assert_eq!(state.points(Player::Player2), 0);
    assert_eq!(state.current_player(), Player::Player2);
    assert_eq!(state.outcome(), TerminalResult::Ongoing);
    assert_eq!(
        state.board().get(Coordinate::new(5, 0)),
        Cell::Empty
    );
}

#[test]
fn full_column_is_not_offered() {
    let mut state = BoardState::default();
    for i in 0..HEIGHT {
        let player = if i % 2 == 0 {
            Player::Player1
        } else {
            Player::Player2
        };
        play(&mut state, drop(player, 0));
    }
    assert!(!state.board().is_col_free(0));
    let moves = state.available_moves();
    let expected: Vec<BoardAction> = (1..WIDTH).map(|col| drop(Player::Player1, col)).collect();
    assert_eq!(moves, expected);
    assert!(!state.allows(&drop(Player::Player1, 0)));
    assert!(!state.allows(&drop(Player::Player1, WIDTH)));
}

#[test]
fn switches_are_offered_only_with_a_point() {
    let mut state = BoardState::default();
    play(&mut state, drop(Player::Player1, 0));
    play(&mut state, drop(Player::Player2, 1));
    assert_eq!(state.points(Player::Player1), 0);
    assert_eq!(state.available_moves().len(), WIDTH);
    assert!(!state.allows(&switch((0, 0), (1, 0))));
}

#[test]
fn switches_join_neighbouring_stones_of_different_players() {
    let mut state = with_a_point_for_the_first_player();
    play(&mut state, drop(Player::Player1, 0));
    play(&mut state, drop(Player::Player1, 1));
    play(&mut state, drop(Player::Player2, 2));
    play(&mut state, drop(Player::Player1, 3));
    play(&mut state, drop(Player::Player2, 7));
    assert_eq!(state.current_player(), Player::Player1);
    assert_eq!(state.points(Player::Player1), 1);

    let moves = state.available_moves();
    let mut expected: Vec<BoardAction> =
        (0..WIDTH).map(|col| drop(Player::Player1, col)).collect();
    expected.push(switch((1, 0), (2, 0)));
    expected.push(switch((2, 0), (3, 0)));
    assert_eq!(moves, expected);
}

#[test]
fn switch_that_makes_a_three_costs_a_point_and_gains_one() {
    let mut state = with_a_point_for_the_first_player();
    play(&mut state, drop(Player::Player1, 0));
    play(&mut state, drop(Player::Player1, 1));
    play(&mut state, drop(Player::Player2, 2));
    play(&mut state, drop(Player::Player1, 3));
    play(&mut state, drop(Player::Player2, 7));

    play(&mut state, switch((2, 0), (3, 0)));
    assert_eq!(state.points(Player::Player1), 1);
    assert_eq!(state.points(Player::Player2), 0);
    assert_eq!(state.current_player(), Player::Player2);
    assert_eq!(state.board().get(Coordinate::new(0, 0)), Cell::Empty);
    assert_eq!(state.board().get(Coordinate::new(1, 0)), Cell::Empty);
    assert_eq!(state.board().get(Coordinate::new(2, 0)), Cell::Empty);
    assert_eq!(
        state.board().get(Coordinate::new(3, 0)),
        Cell::Filled(Player::Player2)
    );
}

#[test]
fn switch_that_scores_nothing_costs_a_point() {
    let mut state = with_a_point_for_the_first_player();
    play(&mut state, drop(Player::Player2, 0));
    play(&mut state, drop(Player::Player1, 1));
    play(&mut state, drop(Player::Player2, 7));
    assert_eq!(state.current_player(), Player::Player1);
    play(&mut state, switch((0, 0), (1, 0)));
    assert_eq!(state.points(Player::Player1), 0);
    assert_eq!(
        state.board().get(Coordinate::new(0, 0)),
        Cell::Filled(Player::Player1)
    );
    assert_eq!(
        state.board().get(Coordinate::new(1, 0)),
        Cell::Filled(Player::Player2)
    );
}

#[test]
fn stones_above_each_other_can_be_switched_in_every_column() {
    let mut state = with_a_point_for_the_first_player();
    play(&mut state, drop(Player::Player2, 7));
    play(&mut state, drop(Player::Player1, 7));
    play(&mut state, drop(Player::Player2, 0));
    assert_eq!(state.current_player(), Player::Player1);

    let moves = state.available_moves();
    let mut expected: Vec<BoardAction> =
        (0..WIDTH).map(|col| drop(Player::Player1, col)).collect();
    expected.push(switch((7, 0), (7, 1)));
    assert_eq!(moves, expected);
}

#[test]
fn sideways_switches_come_before_upward_ones() {
    let mut state = with_a_point_for_the_first_player();
    play(&mut state, drop(Player::Player2, 2));
    play(&mut state, drop(Player::Player1, 2));
    play(&mut state, drop(Player::Player1, 3));
    play(&mut state, drop(Player::Player2, 3));
    play(&mut state, drop(Player::Player2, 6));
    assert_eq!(state.current_player(), Player::Player1);

    let moves = state.available_moves();
    let mut expected: Vec<BoardAction> =
        (0..WIDTH).map(|col| drop(Player::Player1, col)).collect();
    expected.push(switch((2, 0), (3, 0)));
    expected.push(switch((2, 1), (3, 1)));
    expected.push(switch((2, 0), (2, 1)));
    expected.push(switch((3, 0), (3, 1)));
    assert_eq!(moves, expected);
}

#[test]
fn four_in_a_row_ends_the_game() {
    let mut state = BoardState::default();
    play(&mut state, drop(Player::Player1, 0));
    play(&mut state, drop(Player::Player2, 0));
    play(&mut state, drop(Player::Player1, 1));
    play(&mut state, drop(Player::Player2, 1));
    play(&mut state, drop(Player::Player1, 3));
    play(&mut state, drop(Player::Player2, 3));
    assert!(!state.is_terminal());
    play(&mut state, drop(Player::Player1, 2));
    assert_eq!(state.outcome(), TerminalResult::Win(Player::Player1));
    assert_eq!(state.get_winner(), Some(Player::Player1));
    assert!(state.is_terminal());
    assert!(state.available_moves().is_empty());
    assert_eq!(state.points(Player::Player1), 0);
}

#[test]
fn moves_off_the_grid_are_not_allowed() {
    let state = with_a_point_for_the_first_player();
    assert!(!state.allows(&switch((0, 0), (8, 0))));
    assert!(!state.allows(&switch((-1, 0), (0, 0))));
    assert!(!state.allows(&switch((0, 0), (0, 1))));
    let mut state = state;
    play(&mut state, drop(Player::Player2, 0));
    assert!(state.allows(&switch((0, 0), (0, 1))));
}

#[test]
fn state_text_shows_board_points_turn_and_outcome() {
    let state = with_a_point_for_the_first_player();
    let board = "|        |\n".repeat(8);
    let expected = format!(
        "{}---\n\np1: 1, p2: 0'\nTurn: Player2\nWinner: Ongoing\n",
        board
    );
    assert_eq!(state.to_string(), expected);
}
