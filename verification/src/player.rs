//! Players, cells and the errors a move can end in.

use vstd::prelude::*;

verus! {

/// One of the two sides of a match.
#[derive(Clone, Copy, Debug, PartialEq, Eq, Structural)]
pub enum Player {
    Red,
    Blue,
}

/// What a position of the board holds: nothing, or one player's token.
pub type Cell = Option<Player>;

/// Why a move was refused. A refused move changes nothing.
#[derive(Clone, Copy, Debug, PartialEq, Eq, Structural)]
pub enum GameError {
    /// The column index is not below the board's width.
    NoSuchColumn,
    /// Every cell of the column already holds a token.
    ColumnIsFull,
    /// The match already has a winner.
    AlreadyEnded,
}

impl Player {
    /// The opponent of `self`.
    pub open spec fn other(self) -> Player {
        match self {
            Player::Red => Player::Blue,
            Player::Blue => Player::Red,
        }
    }

    /// The player who moves after `self`.
    pub fn next(self) -> (after: Player)
        ensures
            after == self.other(),
    {
        match self {
            Player::Red => Player::Blue,
            Player::Blue => Player::Red,
        }
    }

    /// Whoever moves after the player after `self` is `self` again.
    pub proof fn lemma_other_is_involution(self)
        ensures
            self.other() != self,
            self.other().other() == self,
    {
    }
}

} // verus!
