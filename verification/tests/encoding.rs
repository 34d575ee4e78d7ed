use m3c4::action::{BoardAction, Coordinate};
use m3c4::encoding::{
    can_make_policy, has_policy_slot, moves_to_policy, policy_offset, policy_slot,
    policy_to_moves, state_to_input, MoveStat, INPUT_PLANES, POLICY_SIZE,
};
use m3c4::player::Player;
use m3c4::BoardState;

fn drop(player: Player, col: usize) -> BoardAction {
    BoardAction::DropStone(player, col)
}

fn switch(a: (isize, isize), b: (isize, isize)) -> BoardAction {
    BoardAction::SwitchStone(Coordinate::new(a.0, a.1), Coordinate::new(b.0, b.1))
}

fn stat(action: BoardAction, visits: u64) -> MoveStat {
    MoveStat { action, visits }
}

#[test]
fn picture_of_the_opening_is_blank() {
    let planes = state_to_input(&BoardState::default());
    assert_eq!(planes.len(), INPUT_PLANES);
    for plane in &planes {
        assert_eq!(plane.len(), 8);
        for column in plane {
            assert_eq!(column, &vec![0u8; 8]);
        }
    }
}

#[test]
fn picture_is_seen_from_the_player_to_move() {
    let mut state = BoardState::default();
    state.make_move(&drop(Player::Player1, 5));
    state.make_move(&drop(Player::Player1, 5));
    state.make_move(&drop(Player::Player1, 5));
    state.make_move(&drop(Player::Player2, 2));
    state.make_move(&drop(Player::Player1, 2));
    state.make_move(&drop(Player::Player1, 4));
    assert_eq!(state.current_player(), Player::Player1);
    assert_eq!(state.points(Player::Player1), 1);

    let planes = state_to_input(&state);
    for x in 0..8 {
        for y in 0..8 {
            let own = (x, y) == (2, 1) || (x, y) == (4, 0);
            let other = (x, y) == (2, 0);
            assert_eq!(planes[0][x][y], own as u8);
            assert_eq!(planes[1][x][y], other as u8);
            assert_eq!(planes[2][x][y], 1);
            assert_eq!(planes[3][x][y], 0);
        }
    }

    state.make_move(&drop(Player::Player1, 7));
    assert_eq!(state.current_player(), Player::Player2);
    let planes = state_to_input(&state);
    for x in 0..8 {
        for y in 0..8 {
            let own = (x, y) == (2, 0);
            let other = (x, y) == (2, 1) || (x, y) == (4, 0) || (x, y) == (7, 0);
            assert_eq!(planes[0][x][y], own as u8);
            assert_eq!(planes[1][x][y], other as u8);
            assert_eq!(planes[2][x][y], 0);
            assert_eq!(planes[3][x][y], 1);
        }
    }
}

#[test]
fn drop_stands_in_the_first_plane() {
    assert_eq!(policy_slot(&drop(Player::Player1, 0)), (0, 0, 0));
    assert_eq!(policy_slot(&drop(Player::Player2, 3)), (0, 3, 0));
    assert_eq!(policy_offset(&drop(Player::Player2, 3)), 24);
    assert_eq!(policy_offset(&drop(Player::Player1, 7)), 56);
}

#[test]
fn switch_within_a_column_stands_in_the_second_plane() {
    assert_eq!(policy_slot(&switch((2, 5), (2, 6))), (1, 2, 5));
    assert_eq!(policy_slot(&switch((2, 6), (2, 5))), (1, 2, 5));
    assert_eq!(policy_offset(&switch((2, 5), (2, 6))), 85);
    assert_eq!(policy_slot(&switch((4, 4), (4, 4))), (1, 4, 4));
}

#[test]
fn switch_within_a_row_stands_in_the_third_plane() {
    assert_eq!(policy_slot(&switch((3, 4), (4, 4))), (2, 3, 4));
    assert_eq!(policy_slot(&switch((4, 4), (3, 4))), (2, 3, 4));
    assert_eq!(policy_offset(&switch((3, 4), (4, 4))), 156);
    assert_eq!(policy_offset(&switch((6, 7), (7, 7))), 183);
}

#[test]
fn policy_holds_each_move_at_its_place() {
    let stats = vec![
        stat(drop(Player::Player1, 0), 3),
        stat(drop(Player::Player1, 1), 1),
        stat(switch((2, 0), (3, 0)), 4),
        stat(switch((2, 0), (2, 1)), 0),
    ];
    let policy = moves_to_policy(&stats);
    assert_eq!(policy.total, 8);
    assert_eq!(policy.visits.len(), POLICY_SIZE);
    for (i, visits) in policy.visits.iter().enumerate() {
        let expected = match i {
            0 => 3,
            8 => 1,
            144 => 4,
            _ => 0,
        };
        assert_eq!(*visits, expected);
    }
}

#[test]
fn later_move_takes_the_place_of_an_earlier_one() {
    let stats = vec![
        stat(switch((2, 5), (2, 6)), 7),
        stat(switch((2, 6), (2, 5)), 2),
    ];
    let policy = moves_to_policy(&stats);
    assert_eq!(policy.total, 9);
    assert_eq!(policy.visits[85], 2);
}

#[test]
fn policy_gives_each_move_its_visits_back() {
    let stats = vec![
        stat(drop(Player::Player2, 0), 10),
        stat(drop(Player::Player2, 4), 20),
        stat(drop(Player::Player2, 7), 30),
        stat(switch((0, 0), (1, 0)), 40),
        stat(switch((0, 0), (0, 1)), 50),
        stat(switch((6, 7), (7, 7)), 60),
    ];
    let moves: Vec<BoardAction> = stats.iter().map(|s| s.action).collect();
    let policy = moves_to_policy(&stats);
    assert_eq!(policy.total, 210);
    let back = policy_to_moves(&policy.visits, &moves);
    assert_eq!(back, vec![10, 20, 30, 40, 50, 60]);

    let shares: Vec<f32> = policy
        .visits
        .iter()
        .map(|v| *v as f32 / policy.total as f32)
        .collect();
    let back = policy_to_moves(&shares, &moves);
    for (share, s) in back.iter().zip(stats.iter()) {
        assert!((share - s.visits as f32 / 210.0).abs() < 1e-6);
    }
    assert!((back.iter().sum::<f32>() - 1.0).abs() < 1e-6);
}

#[test]
fn policy_is_read_in_the_order_of_the_moves() {
    let mut policy = vec![0.0f64; POLICY_SIZE];
    policy[24] = 0.25;
    policy[85] = 0.5;
    policy[156] = 0.125;
    let moves = vec![
        switch((3, 4), (4, 4)),
        drop(Player::Player1, 3),
        switch((2, 6), (2, 5)),
        drop(Player::Player1, 0),
    ];
    assert_eq!(policy_to_moves(&policy, &moves), vec![0.125, 0.25, 0.5, 0.0]);
    assert_eq!(policy_to_moves(&policy, &vec![]), Vec::<f64>::new());
}

#[test]
fn moves_on_the_grid_along_a_column_or_a_row_have_a_place() {
    assert!(has_policy_slot(&drop(Player::Player1, 7)));
    assert!(!has_policy_slot(&drop(Player::Player1, 8)));
    assert!(has_policy_slot(&switch((0, 0), (0, 1))));
    assert!(has_policy_slot(&switch((0, 0), (1, 0))));
    assert!(has_policy_slot(&switch((0, 0), (5, 0))));
    assert!(!has_policy_slot(&switch((0, 0), (1, 1))));
    assert!(!has_policy_slot(&switch((7, 0), (8, 0))));
    assert!(!has_policy_slot(&switch((0, -1), (0, 0))));
}

#[test]
fn policy_needs_places_and_visits_that_add_up() {
    assert!(can_make_policy(&vec![stat(drop(Player::Player1, 0), 1)]));
    assert!(!can_make_policy(&vec![]));
    assert!(!can_make_policy(&vec![stat(drop(Player::Player1, 0), 0)]));
    assert!(!can_make_policy(&vec![stat(drop(Player::Player1, 8), 1)]));
    assert!(!can_make_policy(&vec![
        stat(drop(Player::Player1, 0), u64::MAX),
        stat(drop(Player::Player1, 1), 1),
    ]));
    assert!(can_make_policy(&vec![
        stat(drop(Player::Player1, 0), u64::MAX - 1),
        stat(drop(Player::Player1, 1), 1),
    ]));
}
