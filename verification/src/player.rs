//! The two players.

use vstd::prelude::*;

verus! {

/// One of the two sides of a game.
#[derive(Debug, Clone, Copy, PartialEq, Eq, Hash, Structural)]
pub enum Player {
    Player1,
    Player2,
}

impl Player {
    /// The opponent of `self`.
    pub open spec fn other(self) -> Player {
        match self {
            Player::Player1 => Player::Player2,
            Player::Player2 => Player::Player1,
        }
    }

    /// The player who moves after `self`.
    pub fn next_player(&self) -> (next: Player)
        ensures
            next == self.other(),
    {
        match self {
            Player::Player1 => Player::Player2,
            Player::Player2 => Player::Player1,
        }
    }
}

/// The turn comes back to a player after the opponent's.
pub proof fn lemma_turns_alternate(p: Player)
    ensures
        p.other() != p,
        p.other().other() == p,
{
}

impl Default for Player {
    /// The player who opens a game.
    fn default() -> (first: Player)
        ensures
            first == Player::Player1,
    {
        Player::Player1
    }
}

} // verus!
