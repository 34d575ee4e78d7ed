use m3c4::action::{BoardAction, Coordinate};
use m3c4::board::{Board, Cell, MoveResult, HEIGHT, WIDTH};
use m3c4::player::Player;

fn stones(board: &Board) -> usize {
    let mut count = 0;
    for x in 0..WIDTH {
        for y in 0..HEIGHT {
            if board.get(Coordinate::new(x as isize, y as isize)) != Cell::Empty {
                count += 1;
            }
        }
    }
    count
}

#[test]
fn drop_stone() {
    let mut state = Board::default();
    let a = state.make_move(&BoardAction::DropStone(Player::Player1, 0));
    let b = state.make_move(&BoardAction::DropStone(Player::Player1, 0));
    let c = state.make_move(&BoardAction::DropStone(Player::Player1, 0));

    assert_eq!(a.len(), 0);
    assert_eq!(b.len(), 0);
    assert_eq!(c.len(), 1);
    assert_eq!(c[0], MoveResult::Three(Player::Player1));
}

#[test]
fn switch_stone() {
    let mut state = Board::default();
    assert_eq!(
        state
            .make_move(&BoardAction::DropStone(Player::Player1, 0))
            .len(),
        0
    );
    assert_eq!(
        state
            .make_move(&BoardAction::DropStone(Player::Player1, 1))
            .len(),
        0
    );
    assert_eq!(
        state
            .make_move(&BoardAction::DropStone(Player::Player2, 2))
            .len(),
        0
    );
    assert_eq!(
        state
            .make_move(&BoardAction::DropStone(Player::Player1, 3))
            .len(),
        0
    );
    let a = state.make_move(&BoardAction::SwitchStone(
        Coordinate::new(2, 0),
        Coordinate::new(3, 0),
    ));

    assert_eq!(a.len(), 1);
    assert_eq!(a[0], MoveResult::Three(Player::Player1));
}

#[test]
fn multiple_three() {
    let board = [
        "XXO     ", "OOX     ", "XXO     ", "OOX     ", "XXO X   ", "OOX O   ", "XXO OXX ",
        "OOX XOOX",
    ];
    let mut state = Board::from(board);

    println!("{}", state.to_string());

    let results = state.make_move(&BoardAction::DropStone(Player::Player1, 3));

    println!("{}", state.to_string());

    assert_eq!(results[0], MoveResult::Three(Player::Player1));

    assert_eq!(results[1], MoveResult::Three(Player::Player1));
    assert_eq!(results[2], MoveResult::Three(Player::Player1));
    assert_eq!(results[3], MoveResult::Three(Player::Player1));
    assert_eq!(results[4], MoveResult::Three(Player::Player2));
    assert_eq!(results[5], MoveResult::Three(Player::Player2));
    assert_eq!(results[6], MoveResult::Three(Player::Player2));
    assert_eq!(results[7], MoveResult::Three(Player::Player2));
    assert_eq!(results[8], MoveResult::Three(Player::Player2));

    assert_eq!(results[9], MoveResult::Three(Player::Player1));

    let left = stones(&state);

    assert_eq!(left, 4);
}

#[test]
fn multiple_three_into_win() {
    let board = [
        "        ", "  OO    ", "  OO    ", "  XX    ", " XOO    ", " OXX    ", " XOO    ",
        "OOXX    ",
    ];
    let mut state = Board::from(board);

    println!("{}", state.to_string());

    let results = state.make_move(&BoardAction::DropStone(Player::Player1, 4));

    println!("{}", state.to_string());

    assert_eq!(results[0], MoveResult::Three(Player::Player1));
    assert_eq!(results[1], MoveResult::Winner(Player::Player2));
}
