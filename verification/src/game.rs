//! A match: whose turn it is, how many moves were made, and who has won.

use vstd::prelude::*;
use crate::field::{lemma_tokens_within_bound, Field};
use crate::player::{GameError, Player};

verus! {

/// One match on one board. Red moves first; the players then take turns until
/// one of them has won.
pub struct Game {
    turns: usize,
    current_turn: Player,
    winner: Option<Player>,
    field: Field,
}

impl Game {
    /// The number of moves made so far.
    pub closed spec fn spec_turns(&self) -> nat {
        self.turns as nat
    }

    /// The player who moves next.
    pub closed spec fn spec_current_turn(&self) -> Player {
        self.current_turn
    }

    /// The player who has won, if the match is over.
    pub closed spec fn spec_winner(&self) -> Option<Player> {
        self.winner
    }

    /// The board of the match.
    pub closed spec fn board(&self) -> Field {
        self.field
    }

    /// The board is well formed, every move made has left one token on it,
    /// and the winner is the player who has won on it.
    pub open spec fn wf(&self) -> bool {
        &&& self.board().wf()
        &&& self.spec_turns() == self.board().occupied()
        &&& self.spec_winner() == self.board().winning_player()
    }

    /// How a move into `column` ends: refused where the match is over, where
    /// the board has no such column or where the column is full, else
    /// accepted.
    pub open spec fn turn_outcome(&self, column: int) -> Result<(), GameError> {
        if self.spec_winner() is Some {
            Err(GameError::AlreadyEnded)
        } else {
            self.board().drop_outcome(column)
        }
    }

    /// A new match on the standard board.
    pub fn new() -> (game: Game)
        ensures
            game.wf(),
            game.spec_turns() == 0,
            game.spec_current_turn() == Player::Red,
            game.spec_winner() is None,
            game.board().spec_width() == crate::field::WIDTH,
            game.board().spec_height() == crate::field::HEIGHT,
            game.board().spec_x_row() == crate::field::X_ROW,
            forall|i: int| 0 <= i < game.board()@.len() ==> game.board()@[i] is None,
    {
        let field = Field::new();
        proof {
            field.lemma_empty_board_is_undecided();
        }
        Game { turns: 0, current_turn: Player::Red, winner: None, field }
    }

    /// A new match on a board of `width` columns and `height` rows on which a
    /// run of `x_row` tokens wins, or nothing where the number of the board's
    /// cells is more than a `usize` holds.
    pub fn with_size(width: usize, height: usize, x_row: usize) -> (made: Option<Game>)
        ensures
            made is Some <==> width * height <= usize::MAX,
            made matches Some(game) ==> {
                &&& game.wf()
                &&& game.spec_turns() == 0
                &&& game.spec_current_turn() == Player::Red
                &&& game.spec_winner() is None
                &&& game.board().spec_width() == width
                &&& game.board().spec_height() == height
                &&& game.board().spec_x_row() == x_row
                &&& forall|i: int| 0 <= i < game.board()@.len() ==> game.board()@[i] is None
            },
    {
        match Field::with_size(width, height, x_row) {
            Some(field) => {
                proof {
                    field.lemma_empty_board_is_undecided();
                }
                Some(Game { turns: 0, current_turn: Player::Red, winner: None, field })
            },
            None => None,
        }
    }

    /// The player who moves next.
    pub fn current_turn(&self) -> (player: Player)
        ensures
            player == self.spec_current_turn(),
    {
        self.current_turn
    }

    /// The player who has won, if the match is over.
    pub fn winner(&self) -> (winner: Option<Player>)
        ensures
            winner == self.spec_winner(),
    {
        self.winner
    }

    /// The number of moves made so far.
    pub fn turns(&self) -> (turns: usize)
        ensures
            turns == self.spec_turns(),
    {
        self.turns
    }

    /// The board of the match.
    pub fn field(&self) -> (field: &Field)
        ensures
            *field == self.board(),
    {
        &self.field
    }

    /// The player to move drops a token into `column`. An accepted move puts
    /// the token into the lowest empty cell of the column, decides whether a
    /// player has won, counts as a turn and passes the turn on, also where it
    /// has won the match. A refused move changes nothing.
    pub fn make_turn(&mut self, column: usize) -> (outcome: Result<(), GameError>)
        requires
            old(self).wf(),
        ensures
            final(self).wf(),
            outcome == old(self).turn_outcome(column as int),
            match outcome {
                Ok(()) => {
                    &&& final(self).board()@ == old(self).board().after_drop(
                        column as int,
                        Some(old(self).spec_current_turn()),
                    )
                    &&& final(self).board().spec_width() == old(self).board().spec_width()
                    &&& final(self).board().spec_height() == old(self).board().spec_height()
                    &&& final(self).board().spec_x_row() == old(self).board().spec_x_row()
                    &&& final(self).spec_turns() == old(self).spec_turns() + 1
                    &&& final(self).spec_current_turn() == old(self).spec_current_turn().other()
                    &&& final(self).spec_winner() == final(self).board().winning_player()
                },
                Err(_) => *final(self) == *old(self),
            },
            forall|i: int|
                0 <= i < old(self).board()@.len() && old(self).board()@[i] is Some
                    ==> final(self).board()@[i] == old(self).board()@[i],
            old(self).spec_winner() is Some
                ==> final(self).spec_winner() == old(self).spec_winner(),
    {
        if self.winner.is_some() {
            return Err(GameError::AlreadyEnded);
        }
        match self.field.throw_token(column, self.current_turn) {
            Ok(()) => {},
            Err(refusal) => {
                return Err(refusal);
            },
        }
        self.winner = self.field.win_check();
        proof {
            lemma_tokens_within_bound(self.field@, self.field@.len() as int);
        }
        let total: usize = self.field.cells().len();
        self.turns += 1;
        self.current_turn = self.current_turn.next();
        Ok(())
    }
}

} // verus!
