//! Games that a search plays against itself, and the positions to learn
//! from that they give.

use vstd::prelude::*;
use rand::seq::SliceRandom;
use crate::encoding::{
    can_make_policy, is_input, is_search_result, lemma_visits_sum_grows, moves_to_policy,
    state_to_input, visits_sum, written, MoveStat, Policy,
};
use crate::action::BoardAction;
use crate::game::{
    after_move, can_move, has_room, legal_moves, lemma_offered_is_playable, lemma_room_suffices,
    opening, BoardState, GameView, MOVE_GAIN_LIMIT,
};
use crate::player::Player;

verus! {

/// What a position is worth to the player to move, once the game is over:
/// one for the winner, minus one for the loser, zero where nobody has won.
pub open spec fn target_of(mover: Player, winner: Option<Player>) -> int {
    match winner {
        Some(w) => if w == mover {
            1
        } else {
            -1
        },
        None => 0,
    }
}

/// What a position is worth to the player to move: see [`target_of`].
pub fn value_target(mover: Player, winner: Option<Player>) -> (value: i8)
    ensures
        value == target_of(mover, winner),
{
    match (mover, winner) {
        (Player::Player1, Some(Player::Player1)) => 1,
        (Player::Player1, Some(Player::Player2)) => -1,
        (Player::Player2, Some(Player::Player1)) => -1,
        (Player::Player2, Some(Player::Player2)) => 1,
        (_, None) => 0,
    }
}

/// A game that was played to its end: each position that was met, with the
/// policy that the search found there, and the winner.
#[derive(Debug, Clone)]
pub struct GameResult {
    /// The positions and their policies, move by move.
    pub histories: Vec<(BoardState, Policy)>,
    /// The winner, if the game has one.
    pub winner: Option<Player>,
}

impl GameResult {
    pub fn new(winner: Option<Player>, histories: Vec<(BoardState, Policy)>) -> (result: GameResult)
        ensures
            result.winner == winner,
            result.histories == histories,
    {
        Self { histories, winner }
    }
}

/// Positions to learn from: for each, its picture, the policy that the
/// search found, and what the position was worth in the end.
#[derive(Debug, Clone)]
pub struct Dataset {
    /// The pictures of the positions.
    pub inputs: Vec<Vec<Vec<Vec<u8>>>>,
    /// The policies.
    pub output_policy: Vec<Policy>,
    /// The values: one, zero or minus one.
    pub output_value: Vec<i8>,
}

impl Dataset {
    /// Whether the set holds a picture, a policy and a value for each of
    /// its `n` positions.
    pub open spec fn holds(self, n: int) -> bool {
        &&& self.inputs@.len() == n
        &&& self.output_policy@.len() == n
        &&& self.output_value@.len() == n
    }

    /// Whether position `i` of the set is the state `v` with the policy
    /// `policy` and the value `value`.
    pub open spec fn is_record(self, i: int, v: GameView, policy: Policy, value: int) -> bool {
        &&& is_input(self.inputs@[i]@, v)
        &&& self.output_policy@[i].visits@ == policy.visits@
        &&& self.output_policy@[i].total == policy.total
        &&& self.output_value@[i] == value
    }

    /// Whether the positions of the set from `start` on are those of the
    /// game `game`, move by move, each with its policy and with what it was
    /// worth to the player to move, given the game's winner.
    pub open spec fn holds_game(self, start: int, game: GameResult) -> bool {
        forall|k: int|
            0 <= k < game.histories@.len() ==> #[trigger] self.is_record(
                start + k,
                game.histories@[k].0@,
                game.histories@[k].1,
                target_of(game.histories@[k].0@.mover, game.winner),
            )
    }

    /// Whether position `i` is the same in `self` and in `other`.
    pub open spec fn same_at(self, other: Dataset, i: int) -> bool {
        &&& self.inputs@[i] == other.inputs@[i]
        &&& self.output_policy@[i] == other.output_policy@[i]
        &&& self.output_value@[i] == other.output_value@[i]
    }

    /// The set without a position.
    pub fn new() -> (data: Dataset)
        ensures
            data.holds(0),
    {
        Dataset { inputs: Vec::new(), output_policy: Vec::new(), output_value: Vec::new() }
    }

    /// The number of positions.
    pub fn len(&self) -> (n: usize)
        ensures
            n == self.inputs@.len(),
    {
        self.inputs.len()
    }

    /// Adds the positions of `game` to the set, move by move.
    pub fn add_game(&mut self, game: &GameResult)
        requires
            old(self).holds(old(self).inputs@.len() as int),
        ensures
            final(self).holds((old(self).inputs@.len() + game.histories@.len()) as int),
            final(self).holds_game(old(self).inputs@.len() as int, *game),
            forall|i: int| 0 <= i < old(self).inputs@.len() ==> #[trigger] final(self).same_at(*old(self), i),
    {
        let ghost before = *self;
        let ghost start = self.inputs@.len() as int;
        for k in 0..game.histories.len()
            invariant
                start == before.inputs@.len(),
                self.holds(start + k),
                forall|i: int| 0 <= i < start ==> #[trigger] self.same_at(before, i),
                forall|j: int|
                    0 <= j < k ==> #[trigger] self.is_record(
                        start + j,
                        game.histories@[j].0@,
                        game.histories@[j].1,
                        target_of(game.histories@[j].0@.mover, game.winner),
                    ),
        {
            let ghost earlier = *self;
            let state = &game.histories[k].0;
            let policy = &game.histories[k].1;
            let input = state_to_input(state);
            let visits = copy_visits(&policy.visits);
            let value = value_target(state.current_player(), game.winner);
            self.inputs.push(input);
            self.output_policy.push(Policy { visits, total: policy.total });
            self.output_value.push(value);
            proof {
                assert forall|i: int| 0 <= i < start implies #[trigger] self.same_at(before, i) by {
                    assert(earlier.same_at(before, i));
                }
                assert forall|j: int| 0 <= j < k + 1 implies #[trigger] self.is_record(
                    start + j,
                    game.histories@[j].0@,
                    game.histories@[j].1,
                    target_of(game.histories@[j].0@.mover, game.winner),
                ) by {
                    if j < k {
                        assert(earlier.is_record(
                            start + j,
                            game.histories@[j].0@,
                            game.histories@[j].1,
                            target_of(game.histories@[j].0@.mover, game.winner),
                        ));
                    }
                }
            }
        }
    }
}

/// A copy of a list of visits.
fn copy_visits(visits: &Vec<u64>) -> (copy: Vec<u64>)
    ensures
        copy@ == visits@,
{
    let mut copy: Vec<u64> = Vec::new();
    for i in 0..visits.len()
        invariant
            copy@ == visits@.take(i as int),
    {
        copy.push(visits[i]);
        assert(copy@ =~= visits@.take(i + 1));
    }
    assert(visits@.take(visits@.len() as int) =~= visits@);
    copy
}

/// The number of positions in the first `n` of `games`.
pub open spec fn plies_before(games: Seq<GameResult>, n: int) -> int
    decreases n,
{
    if n <= 0 {
        0
    } else {
        plies_before(games, n - 1) + games[n - 1].histories@.len()
    }
}

/// The positions of all `games`, game by game and move by move: see
/// [`Dataset::holds_game`].
pub fn aggregate(games: &Vec<GameResult>) -> (data: Dataset)
    ensures
        data.holds(plies_before(games@, games@.len() as int)),
        forall|g: int|
            0 <= g < games@.len() ==> #[trigger] data.holds_game(plies_before(games@, g), games@[g]),
{
    let mut data = Dataset::new();
    for n in 0..games.len()
        invariant
            data.holds(plies_before(games@, n as int)),
            forall|g: int|
                0 <= g < n ==> #[trigger] data.holds_game(plies_before(games@, g), games@[g]),
    {
        let ghost before = data;
        data.add_game(&games[n]);
        proof {
            assert forall|g: int| 0 <= g < n + 1 implies #[trigger] data.holds_game(
                plies_before(games@, g),
                games@[g],
            ) by {
                if g < n {
                    lemma_plies_grow(games@, g + 1, n as int);
                    assert(before.holds_game(plies_before(games@, g), games@[g]));
                    assert forall|k: int| 0 <= k < games@[g].histories@.len() implies #[trigger] data.is_record(
                        plies_before(games@, g) + k,
                        games@[g].histories@[k].0@,
                        games@[g].histories@[k].1,
                        target_of(games@[g].histories@[k].0@.mover, games@[g].winner),
                    ) by {
                        let i = plies_before(games@, g) + k;
                        lemma_plies_grow(games@, 0, g);
                        assert(plies_before(games@, g + 1) == plies_before(games@, g)
                            + games@[g].histories@.len());
                        assert(0 <= i < before.inputs@.len());
                        assert(before.is_record(
                            i,
                            games@[g].histories@[k].0@,
                            games@[g].histories@[k].1,
                            target_of(games@[g].histories@[k].0@.mover, games@[g].winner),
                        ));
                        assert(data.same_at(before, i));
                    }
                }
            }
        }
    }
    data
}

/// Later games begin at later positions.
pub proof fn lemma_plies_grow(games: Seq<GameResult>, n: int, m: int)
    requires
        0 <= n <= m,
    ensures
        0 <= plies_before(games, n) <= plies_before(games, m),
    decreases m,
{
    if n < m {
        lemma_plies_grow(games, n, m - 1);
    } else if n > 0 {
        lemma_plies_grow(games, n - 1, n - 1);
    }
}

/// A game of `w` positions gives `w` positions to learn from, and the value
/// of each is that of the game's end for the player to move there: zero
/// throughout where nobody has won, and else one where the winner is to
/// move and minus one where the loser is.
pub proof fn lemma_game_values(data: Dataset, start: int, game: GameResult, k: int)
    requires
        data.holds_game(start, game),
        0 <= k < game.histories@.len(),
    ensures
        game.winner is None ==> data.output_value@[start + k] == 0,
        game.winner == Some(game.histories@[k].0@.mover) ==> data.output_value@[start + k] == 1,
        game.winner == Some(game.histories@[k].0@.mover.other()) ==> data.output_value@[start + k]
            == -1,
{
    assert(data.is_record(
        start + k,
        game.histories@[k].0@,
        game.histories@[k].1,
        target_of(game.histories@[k].0@.mover, game.winner),
    ));
}

/// The weights of the first `n` pairs, taken together.
pub open spec fn weight_sum(pairs: Seq<(usize, u64)>, n: int) -> int
    decreases n,
{
    if n <= 0 {
        0
    } else {
        weight_sum(pairs, n - 1) + pairs[n - 1].1
    }
}

/// Picks one of `pairs` at random, by `rand::seq::SliceRandom::choose_weighted`
/// on the generator of `rand::thread_rng`, with the second part of each pair
/// as its weight.
///
/// What follows is what `rand` does, taken on trust and not proved in this
/// library. The pair that comes back is one of `pairs` and has a weight
/// above zero. None comes back only where no pair has a weight above zero.
/// Which of the pairs comes back is left open. `rand` adds the weights up
/// on the way, so their sum must be a machine integer.
#[verifier::external_body]
fn pick_weighted(pairs: &Vec<(usize, u64)>) -> (picked: Option<(usize, u64)>)
    requires
        weight_sum(pairs@, pairs@.len() as int) <= u64::MAX,
    ensures
        picked matches Some(pair) ==> pairs@.contains(pair) && pair.1 > 0,
        picked is None ==> forall|i: int| 0 <= i < pairs@.len() ==> (#[trigger] pairs@[i]).1 == 0,
{
    let mut rng = rand::thread_rng();
    match pairs.choose_weighted(&mut rng, |pair| pair.1) {
        Ok(pair) => Some(*pair),
        Err(_) => None,
    }
}

/// Draws one of the moves of `stats` at random, each with its visits as
/// its weight, and gives its index. A move without a visit is never drawn,
/// and a move is drawn wherever one has a visit.
pub fn sample_move(stats: &Vec<MoveStat>) -> (chosen: Option<usize>)
    requires
        visits_sum(stats@, stats@.len() as int) <= u64::MAX,
    ensures
        chosen matches Some(i) ==> i < stats@.len() && stats@[i as int].visits > 0,
        chosen is None <==> visits_sum(stats@, stats@.len() as int) == 0,
{
    let mut pairs: Vec<(usize, u64)> = Vec::new();
    for i in 0..stats.len()
        invariant
            pairs@.len() == i,
            forall|k: int| 0 <= k < i ==> #[trigger] pairs@[k] == (k as usize, stats@[k].visits),
            weight_sum(pairs@, i as int) == visits_sum(stats@, i as int),
    {
        let ghost before = pairs@;
        pairs.push((i, stats[i].visits));
        proof {
            lemma_weight_sum_prefix(before, pairs@, i as int);
        }
    }
    let picked = pick_weighted(&pairs);
    proof {
        lemma_no_visits(stats@, stats@.len() as int);
    }
    match picked {
        Some(pair) => {
            proof {
                let k = choose|k: int| 0 <= k < pairs@.len() && pairs@[k] == pair;
                assert(pairs@[k] == (k as usize, stats@[k].visits));
            }
            Some(pair.0)
        },
        None => {
            assert forall|k: int| 0 <= k < stats@.len() implies (#[trigger] stats@[k]).visits == 0 by {
                assert(pairs@[k].1 == 0);
            }
            None
        },
    }
}

/// Pairs that agree up to `n` have the same weights up to there.
proof fn lemma_weight_sum_prefix(a: Seq<(usize, u64)>, b: Seq<(usize, u64)>, n: int)
    requires
        n <= a.len(),
        n <= b.len(),
        forall|k: int| 0 <= k < n ==> a[k] == b[k],
    ensures
        weight_sum(a, n) == weight_sum(b, n),
    decreases n,
{
    if n > 0 {
        lemma_weight_sum_prefix(a, b, n - 1);
    }
}

/// The visits of some moves are zero together exactly if each of them is.
pub proof fn lemma_no_visits(stats: Seq<MoveStat>, n: int)
    requires
        0 <= n <= stats.len(),
    ensures
        visits_sum(stats, n) == 0 <==> forall|k: int| 0 <= k < n ==> (#[trigger] stats[k]).visits == 0,
    decreases n,
{
    if n > 0 {
        lemma_no_visits(stats, n - 1);
        lemma_visits_sum_grows(stats, n - 1, n - 1);
        if visits_sum(stats, n) == 0 {
            assert forall|k: int| 0 <= k < n implies (#[trigger] stats[k]).visits == 0 by {
                if k < n - 1 {
                    assert(stats[k].visits == 0);
                }
            }
        } else if forall|k: int| 0 <= k < n ==> (#[trigger] stats[k]).visits == 0 {
            assert(stats[n - 1].visits == 0);
            assert forall|k: int| 0 <= k < n - 1 implies (#[trigger] stats[k]).visits == 0 by {
                assert(stats[k].visits == 0);
            }
        }
    }
}

/// Picks one of `moves` at random, by `rand::seq::SliceRandom::choose` on
/// the generator of `rand::thread_rng`.
///
/// What follows is what `rand` does, taken on trust and not proved in this
/// library. The move that comes back is one of `moves`, and none comes back
/// exactly where there is none to pick. Which of the moves comes back is
/// left open.
#[verifier::external_body]
fn pick_any(moves: &Vec<BoardAction>) -> (picked: Option<BoardAction>)
    ensures
        picked matches Some(action) ==> moves@.contains(action),
        picked is None <==> moves@.len() == 0,
{
    let mut rng = rand::thread_rng();
    match moves.choose(&mut rng) {
        Some(action) => Some(*action),
        None => None,
    }
}

/// Draws one of the moves that `state` offers at random. None is drawn
/// exactly where the game is over.
pub fn random_move(state: &BoardState) -> (drawn: Option<BoardAction>)
    ensures
        drawn matches Some(action) ==> legal_moves(state@).contains(action),
        drawn is None <==> legal_moves(state@).len() == 0,
{
    let moves = state.available_moves();
    pick_any(&moves)
}

/// Goes on with a move drawn at random, and tells it. Nothing is done
/// where the game is over, or where a player's points leave no room for
/// what a move may gain.
pub fn play_random_move(state: &mut BoardState) -> (made: Option<BoardAction>)
    ensures
        made matches Some(action) ==> legal_moves(old(state)@).contains(action) && final(state)@
            == after_move(old(state)@, action),
        made is None ==> final(state)@ == old(state)@,
        made is None <==> legal_moves(old(state)@).len() == 0 || old(state)@.points_1 > usize::MAX
            - MOVE_GAIN_LIMIT || old(state)@.points_2 > usize::MAX - MOVE_GAIN_LIMIT,
{
    match random_move(state) {
        Some(action) => {
            proof {
                lemma_offered_is_playable(state@, action);
            }
            if state.allows(&action) {
                state.make_move(&action);
                Some(action)
            } else {
                None
            }
        },
        None => None,
    }
}

/// A game that a search plays against itself: the position that it has
/// come to, and the positions that it has passed.
#[derive(Debug, Clone)]
pub struct SelfPlay {
    state: BoardState,
    histories: Vec<(BoardState, Policy)>,
}

/// Whether `stats` are what a search can have found in `v`: visits of moves
/// that `v` offers, of which a policy can be made, and each of which can be
/// made in `v`.
pub open spec fn is_search_of(stats: Seq<MoveStat>, v: GameView) -> bool {
    &&& is_search_result(stats)
    &&& forall|i: int|
        0 <= i < stats.len() ==> legal_moves(v).contains(#[trigger] stats[i].action) && can_move(
            v,
            stats[i].action,
        )
}

impl SelfPlay {
    /// The position that the game has come to.
    pub closed spec fn position(self) -> GameView {
        self.state@
    }

    /// The positions that the game has passed, each with its policy.
    pub closed spec fn record(self) -> Seq<(BoardState, Policy)> {
        self.histories@
    }

    /// A game at its beginning.
    pub fn new() -> (game: SelfPlay)
        ensures
            game.position() == opening(),
            game.record().len() == 0,
    {
        SelfPlay { state: BoardState::default(), histories: Vec::new() }
    }

    /// The position that the game has come to.
    pub fn state(&self) -> (state: &BoardState)
        ensures
            state@ == self.position(),
    {
        &self.state
    }

    /// The number of positions that the game has passed.
    pub fn plies(&self) -> (n: usize)
        ensures
            n == self.record().len(),
    {
        self.histories.len()
    }

    /// Whether the game is over: the player to move has no move.
    pub fn is_over(&self) -> (over: bool)
        ensures
            over == (legal_moves(self.position()).len() == 0),
    {
        self.state.is_terminal()
    }

    /// Whether `stats` can be what a search has found in the position, with
    /// room to spare for the points that a move may gain: a policy can be
    /// made of them, and each of their moves is on offer and can be made.
    /// Such visits meet what [`SelfPlay::play_turn`] asks for.
    pub fn accepts(&self, stats: &Vec<MoveStat>) -> (ok: bool)
        ensures
            ok == (is_search_result(stats@) && forall|i: int|
                0 <= i < stats@.len() ==> legal_moves(self.position()).contains(
                    #[trigger] stats@[i].action,
                ) && has_room(self.position(), stats@[i].action)),
            ok ==> is_search_of(stats@, self.position()),
    {
        if !can_make_policy(stats) {
            return false;
        }
        let offered = self.state.available_moves();
        for i in 0..stats.len()
            invariant
                offered@ == legal_moves(self.state@),
                forall|k: int|
                    0 <= k < i ==> legal_moves(self.state@).contains(#[trigger] stats@[k].action)
                        && has_room(self.state@, stats@[k].action),
        {
            let action = stats[i].action;
            let mut found = false;
            for j in 0..offered.len()
                invariant
                    found <==> exists|k: int| 0 <= k < j && offered@[k] == action,
            {
                if offered[j] == action {
                    found = true;
                }
            }
            if !found || !self.state.allows(&action) {
                return false;
            }
        }
        proof {
            assert forall|i: int| 0 <= i < stats@.len() implies can_move(
                self.state@,
                #[trigger] stats@[i].action,
            ) by {
                lemma_room_suffices(self.state@, stats@[i].action);
            }
        }
        true
    }

    /// Passes on from the position with the move `stats[chosen]`: the
    /// position and the policy that `stats` make are put on record, and
    /// the move is made.
    pub fn advance(&mut self, stats: &Vec<MoveStat>, chosen: usize)
        requires
            is_search_of(stats@, old(self).position()),
            chosen < stats@.len(),
        ensures
            final(self).position() == after_move(
                old(self).position(),
                stats@[chosen as int].action,
            ),
            final(self).record().len() == old(self).record().len() + 1,
            final(self).record().drop_last() == old(self).record(),
            final(self).record().last().0@ == old(self).position(),
            final(self).record().last().1.visits@ == written(stats@, stats@.len() as int),
            final(self).record().last().1.total == visits_sum(stats@, stats@.len() as int),
    {
        let policy = moves_to_policy(stats);
        self.histories.push((self.state, policy));
        assert(self.histories@.drop_last() =~= old(self).histories@);
        let action = stats[chosen].action;
        self.state.make_move(&action);
    }

    /// Plays one turn with what a search has found in the position: draws
    /// a move at random, by its visits, and passes on with it. The index
    /// of the move comes back.
    pub fn play_turn(&mut self, stats: &Vec<MoveStat>) -> (chosen: usize)
        requires
            is_search_of(stats@, old(self).position()),
        ensures
            chosen < stats@.len(),
            stats@[chosen as int].visits > 0,
            final(self).position() == after_move(
                old(self).position(),
                stats@[chosen as int].action,
            ),
            final(self).record().len() == old(self).record().len() + 1,
            final(self).record().drop_last() == old(self).record(),
            final(self).record().last().0@ == old(self).position(),
            final(self).record().last().1.visits@ == written(stats@, stats@.len() as int),
            final(self).record().last().1.total == visits_sum(stats@, stats@.len() as int),
    {
        let chosen = match sample_move(stats) {
            Some(i) => i,
            None => 0,
        };
        self.advance(stats, chosen);
        chosen
    }

    /// The game as it was played, with its winner.
    pub fn finish(self) -> (result: GameResult)
        ensures
            result.histories@ == self.record(),
            result.winner == crate::game::winner_of(self.position()),
    {
        GameResult::new(self.state.get_winner(), self.histories)
    }
}

} // verus!
