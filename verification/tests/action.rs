use m3c4::action::Coordinate;
use m3c4::player::Player;

#[test]
fn players_take_turns() {
    assert_eq!(Player::Player1.next_player(), Player::Player2);
    assert_eq!(Player::Player2.next_player(), Player::Player1);
    assert_eq!(Player::default(), Player::Player1);
}

#[test]
fn coordinate_keeps_column_and_row() {
    let c = Coordinate::new(3, -2);
    assert_eq!(c.x(), 3);
    assert_eq!(c.y(), -2);
    assert_eq!(c, Coordinate(3, -2));
}

#[test]
fn rectangle_is_closed_below_and_open_above() {
    let c = Coordinate::new(0, 7);
    assert!(c.is_contained((0, 0), (8, 8)));
    assert!(!c.is_contained((0, 0), (8, 7)));
    assert!(!c.is_contained((1, 0), (8, 8)));
    assert!(Coordinate::new(7, 0).is_contained((0, 0), (8, 8)));
    assert!(!Coordinate::new(8, 0).is_contained((0, 0), (8, 8)));
    assert!(!Coordinate::new(-1, 3).is_contained((0, 0), (8, 8)));
}

#[test]
fn offset_moves_by_the_scaled_vector() {
    let c = Coordinate::new(1, 2);
    assert_eq!(c.offset((1, 0), 3), Coordinate::new(4, 2));
    assert_eq!(c.offset((0, 1), 3), Coordinate::new(1, 5));
    assert_eq!(c.offset((1, -1), 2), Coordinate::new(3, 0));
    assert_eq!(c.offset((2, 3), 0), c);
    assert_eq!(c.offset((1, 1), -1), Coordinate::new(0, 1));
}

#[test]
fn coordinates_add_and_subtract_steps() {
    let c = Coordinate::new(4, 4);
    assert_eq!(c + (1, -1), Coordinate::new(5, 3));
    assert_eq!(c - (1, -1), Coordinate::new(3, 5));
    assert_eq!(c + (0, 0), c);
}
