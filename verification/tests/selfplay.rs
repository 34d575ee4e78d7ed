use m3c4::action::BoardAction;
use m3c4::encoding::{moves_to_policy, state_to_input, MoveStat};
use m3c4::player::Player;
use m3c4::selfplay::{
    aggregate, play_random_move, random_move, sample_move, value_target, Dataset, GameResult,
    SelfPlay,
};
use m3c4::BoardState;

fn drop(player: Player, col: usize) -> BoardAction {
    BoardAction::DropStone(player, col)
}

fn stat(action: BoardAction, visits: u64) -> MoveStat {
    MoveStat { action, visits }
}

fn short_game(winner: Option<Player>) -> GameResult {
    let mut state = BoardState::default();
    let mut histories = Vec::new();
    for col in [0usize, 1, 2] {
        let mover = state.current_player();
        let stats = vec![stat(drop(mover, col), 2), stat(drop(mover, 7), 1)];
        histories.push((state, moves_to_policy(&stats)));
        state.make_move(&drop(mover, col));
    }
    GameResult::new(winner, histories)
}

#[test]
fn value_is_one_for_the_winner_and_minus_one_for_the_loser() {
    assert_eq!(value_target(Player::Player1, Some(Player::Player1)), 1);
    assert_eq!(value_target(Player::Player1, Some(Player::Player2)), -1);
    assert_eq!(value_target(Player::Player2, Some(Player::Player1)), -1);
    assert_eq!(value_target(Player::Player2, Some(Player::Player2)), 1);
    assert_eq!(value_target(Player::Player1, None), 0);
    assert_eq!(value_target(Player::Player2, None), 0);
}

#[test]
fn game_gives_a_position_for_each_move() {
    let game = short_game(Some(Player::Player1));
    let data = aggregate(&vec![game.clone()]);
    assert_eq!(data.len(), 3);
    assert_eq!(data.inputs.len(), 3);
    assert_eq!(data.output_policy.len(), 3);
    assert_eq!(data.output_value, vec![1, -1, 1]);
    for k in 0..3 {
        assert_eq!(data.inputs[k], state_to_input(&game.histories[k].0));
        assert_eq!(data.output_policy[k], game.histories[k].1);
        assert_eq!(data.output_policy[k].total, 3);
    }
}

#[test]
fn values_change_sign_with_the_winner() {
    let data = aggregate(&vec![short_game(Some(Player::Player2))]);
    assert_eq!(data.output_value, vec![-1, 1, -1]);
}

#[test]
fn drawn_game_is_worth_nothing_throughout() {
    let data = aggregate(&vec![short_game(None)]);
    assert_eq!(data.output_value, vec![0, 0, 0]);
}

#[test]
fn games_are_gathered_one_after_the_other() {
    let games = vec![
        short_game(Some(Player::Player1)),
        GameResult::new(None, Vec::new()),
        short_game(Some(Player::Player2)),
    ];
    let data = aggregate(&games);
    assert_eq!(data.len(), 6);
    assert_eq!(data.output_value, vec![1, -1, 1, -1, 1, -1]);
    assert_eq!(data.inputs[3], state_to_input(&games[2].histories[0].0));
    assert_eq!(aggregate(&Vec::new()).len(), 0);
}

#[test]
fn adding_a_game_keeps_what_the_set_held() {
    let mut data = Dataset::new();
    assert_eq!(data.len(), 0);
    data.add_game(&short_game(Some(Player::Player1)));
    let before = data.clone();
    data.add_game(&short_game(None));
    assert_eq!(data.len(), 6);
    assert_eq!(&data.inputs[..3], &before.inputs[..]);
    assert_eq!(&data.output_policy[..3], &before.output_policy[..]);
    assert_eq!(data.output_value, vec![1, -1, 1, 0, 0, 0]);
}

#[test]
fn move_without_a_visit_is_never_drawn() {
    let stats = vec![
        stat(drop(Player::Player1, 0), 0),
        stat(drop(Player::Player1, 1), 0),
        stat(drop(Player::Player1, 2), 5),
        stat(drop(Player::Player1, 3), 0),
    ];
    for _ in 0..200 {
        assert_eq!(sample_move(&stats), Some(2));
    }
}

#[test]
fn every_move_with_visits_is_drawn_in_the_long_run() {
    let stats = vec![
        stat(drop(Player::Player1, 0), 1),
        stat(drop(Player::Player1, 1), 0),
        stat(drop(Player::Player1, 2), 1),
    ];
    let mut drawn = [0usize; 3];
    for _ in 0..2000 {
        let i = sample_move(&stats).unwrap();
        drawn[i] += 1;
    }
    assert!(drawn[0] > 0);
    assert_eq!(drawn[1], 0);
    assert!(drawn[2] > 0);
}

#[test]
fn nothing_is_drawn_where_no_move_has_a_visit() {
    assert_eq!(sample_move(&Vec::new()), None);
    let stats = vec![stat(drop(Player::Player1, 0), 0)];
    assert_eq!(sample_move(&stats), None);
}

#[test]
fn turn_is_put_on_record_and_the_move_is_made() {
    let mut game = SelfPlay::new();
    assert_eq!(game.plies(), 0);
    assert!(!game.is_over());
    let stats = vec![
        stat(drop(Player::Player1, 3), 0),
        stat(drop(Player::Player1, 4), 9),
    ];
    let chosen = game.play_turn(&stats);
    assert_eq!(chosen, 1);
    assert_eq!(game.plies(), 1);
    assert_eq!(game.state().current_player(), Player::Player2);
    assert!(game.state().board().is_col_free(4));
    assert_eq!(
        game.state().board().get(m3c4::action::Coordinate::new(4, 0)),
        m3c4::board::Cell::Filled(Player::Player1)
    );
    let result = game.finish();
    assert_eq!(result.winner, None);
    assert_eq!(result.histories.len(), 1);
    assert_eq!(result.histories[0].0.current_player(), Player::Player1);
    assert_eq!(result.histories[0].1, moves_to_policy(&stats));
}

#[test]
fn game_is_played_to_its_end() {
    let mut game = SelfPlay::new();
    let mut turns = 0;
    while !game.is_over() && turns < 10_000 {
        let state = *game.state();
        let stats: Vec<MoveStat> = state
            .available_moves()
            .into_iter()
            .enumerate()
            .map(|(i, action)| stat(action, 1 + (i as u64 * 7 + turns) % 5))
            .collect();
        assert!(game.accepts(&stats));
        let chosen = game.play_turn(&stats);
        assert!(stats[chosen].visits > 0);
        turns += 1;
    }
    assert!(game.is_over());
    assert_eq!(game.plies() as u64, turns);
    let winner = game.state().get_winner();
    let result = game.finish();
    assert_eq!(result.winner, winner);
    assert_eq!(result.histories.len() as u64, turns);

    let data = aggregate(&vec![result.clone()]);
    assert_eq!(data.len() as u64, turns);
    for (k, (state, _)) in result.histories.iter().enumerate() {
        let expected = match result.winner {
            None => 0,
            Some(w) if w == state.current_player() => 1,
            Some(_) => -1,
        };
        assert_eq!(data.output_value[k], expected);
    }
}

#[test]
fn random_move_is_one_of_the_moves_on_offer() {
    let state = BoardState::default();
    let offered = state.available_moves();
    let mut seen = [false; 8];
    for _ in 0..2000 {
        let action = random_move(&state).unwrap();
        assert!(offered.contains(&action));
        match action {
            BoardAction::DropStone(player, col) => {
                assert_eq!(player, Player::Player1);
                seen[col] = true;
            }
            BoardAction::SwitchStone(_, _) => panic!("no switch is on offer"),
        }
    }
    assert!(seen.iter().all(|s| *s));
}

#[test]
fn no_move_is_drawn_once_the_game_is_over() {
    let mut state = BoardState::default();
    for col in [0usize, 0, 1, 1, 3, 3, 2] {
        let mover = state.current_player();
        state.make_move(&drop(mover, col));
    }
    assert!(state.is_terminal());
    assert_eq!(random_move(&state), None);
    let before = state.to_string();
    assert_eq!(play_random_move(&mut state), None);
    assert_eq!(state.to_string(), before);
}

#[test]
fn random_moves_play_a_game_to_its_end() {
    let mut state = BoardState::default();
    let mut moves = 0;
    while moves < 100_000 {
        let mover = state.current_player();
        let offered = state.available_moves();
        match play_random_move(&mut state) {
            Some(action) => {
                assert!(offered.contains(&action));
                assert_eq!(state.current_player(), mover.next_player());
                moves += 1;
            }
            None => break,
        }
    }
    assert!(state.is_terminal());
    assert!(moves > 0);
}

#[test]
fn search_must_keep_to_the_moves_on_offer() {
    let game = SelfPlay::new();
    let offered: Vec<MoveStat> = game
        .state()
        .available_moves()
        .into_iter()
        .map(|action| stat(action, 1))
        .collect();
    assert!(game.accepts(&offered));
    assert!(game.accepts(&vec![stat(drop(Player::Player1, 3), 4)]));
    assert!(!game.accepts(&vec![stat(drop(Player::Player2, 3), 4)]));
    assert!(!game.accepts(&vec![stat(drop(Player::Player1, 3), 0)]));
    assert!(!game.accepts(&vec![]));
    assert!(!game.accepts(&vec![stat(
        BoardAction::SwitchStone(
            m3c4::action::Coordinate::new(0, 0),
            m3c4::action::Coordinate::new(1, 0)
        ),
        1
    )]));
}
