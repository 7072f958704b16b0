//! Dropping a token into a column.

use vstd::prelude::*;
use crate::columns::{Column, Columns};
use crate::field::{lemma_index_in_board, lemma_index_is_injective, lemma_tokens_within_after_update, Field};
use crate::player::{Cell, GameError, Player};

verus! {

/// The index of the first empty cell of `cells`, or nothing where every cell
/// holds a token.
pub fn first_empty(cells: &[Cell]) -> (found: Option<usize>)
    ensures
        match found {
            Some(at) => {
                &&& at < cells@.len()
                &&& cells@[at as int] is None
                &&& forall|i: int| 0 <= i < at ==> cells@[i] is Some
            },
            None => forall|i: int| 0 <= i < cells@.len() ==> cells@[i] is Some,
        },
{
    let mut at: usize = 0;
    while at < cells.len()
        invariant
            at <= cells@.len(),
            forall|i: int| 0 <= i < at ==> cells@[i] is Some,
        decreases cells@.len() - at,
    {
        if cells[at].is_none() {
            return Some(at);
        }
        at += 1;
    }
    None
}

impl Field {
    /// How a drop into `column` ends: refused where the board has no such
    /// column or the column is full, else accepted.
    pub open spec fn drop_outcome(&self, column: int) -> Result<(), GameError> {
        if !(0 <= column < self.spec_width()) {
            Err(GameError::NoSuchColumn)
        } else if self.column_full(column) {
            Err(GameError::ColumnIsFull)
        } else {
            Ok(())
        }
    }

    /// The lowest empty cell of a column is found by going up from `row`, as
    /// long as every cell below `row` holds a token and the column is not full.
    proof fn lemma_landing_row_from(&self, column: int, row: int) -> (landing: int)
        requires
            0 <= row <= self.spec_height(),
            forall|below: int| 0 <= below < row ==> (#[trigger] self.cell(below, column)) is Some,
            !self.column_full(column),
        ensures
            self.is_landing_row(column, landing),
        decreases self.spec_height() - row,
    {
        if row == self.spec_height() {
            assert(self.column_full(column));
            row
        } else if self.cell(row, column) is None {
            row
        } else {
            self.lemma_landing_row_from(column, row + 1)
        }
    }

    /// A column that is not full has a lowest empty cell.
    pub proof fn lemma_landing_row_exists(&self, column: int)
        requires
            !self.column_full(column),
        ensures
            self.is_landing_row(column, self.landing_row(column)),
    {
        let landing = self.lemma_landing_row_from(column, 0);
        assert(self.is_landing_row(column, landing));
    }

    /// A drop into a column that is not full puts the token into the lowest
    /// empty cell of that column and leaves every other place of the board as
    /// it was.
    pub proof fn lemma_drop_changes_one_cell(&self, column: int, token: Cell, row: int, other: int)
        requires
            self.wf(),
            0 <= column < self.spec_width(),
            !self.column_full(column),
            self.in_board(row, other),
        ensures
            self.is_landing_row(column, self.landing_row(column)),
            self.after_drop(column, token).len() == self@.len(),
            self.after_drop(column, token)[self.index_of(row, other)] == (if row
                == self.landing_row(column) && other == column {
                token
            } else {
                self.cell(row, other)
            }),
    {
        self.lemma_landing_row_exists(column);
        let landing = self.landing_row(column);
        lemma_index_in_board(self.spec_width(), self.spec_height(), landing, column);
        lemma_index_in_board(self.spec_width(), self.spec_height(), row, other);
        if self.index_of(row, other) == self.index_of(landing, column) {
            lemma_index_is_injective(self.spec_width(), row, other, landing, column);
        }
    }

    /// Drops a token of `player` into column `column_index`: the token comes
    /// to rest in the lowest empty cell of the column. The drop is refused,
    /// and the board left as it was, where the board has no such column or the
    /// column is full.
    pub fn throw_token(&mut self, column_index: usize, player: Player) -> (outcome: Result<
        (),
        GameError,
    >)
        requires
            old(self).wf(),
        ensures
            final(self).wf(),
            final(self).spec_width() == old(self).spec_width(),
            final(self).spec_height() == old(self).spec_height(),
            final(self).spec_x_row() == old(self).spec_x_row(),
            outcome == old(self).drop_outcome(column_index as int),
            outcome is Err ==> *final(self) == *old(self),
            final(self)@ == (if outcome is Ok {
                old(self).after_drop(column_index as int, Some(player))
            } else {
                old(self)@
            }),
            final(self).occupied() == old(self).occupied() + (if outcome is Ok {
                1nat
            } else {
                0nat
            }),
            forall|i: int|
                0 <= i < old(self)@.len() && old(self)@[i] is Some
                    ==> final(self)@[i] == old(self)@[i],
    {
        if column_index >= self.width() {
            return Err(GameError::NoSuchColumn);
        }
        let ghost before = *self;
        let ghost column = column_index as int;
        let Column { cells } = Columns::index(self, column_index).next().unwrap();
        assert(cells@ == before.column_line(column));
        let row_index: usize = match first_empty(cells.as_slice()) {
            Some(row_index) => row_index,
            None => {
                proof {
                    assert forall|row: int| 0 <= row < before.spec_height() implies (
                    #[trigger] before.cell(row, column)) is Some by {
                        assert(cells@[row] is Some);
                    }
                }
                return Err(GameError::ColumnIsFull);
            },
        };
        proof {
            assert(before.cell(row_index as int, column) == cells@[row_index as int]);
            assert forall|below: int| 0 <= below < row_index implies (#[trigger] before.cell(
                below,
                column,
            )) is Some by {
                assert(cells@[below] is Some);
            }
            before.lemma_landing_row_is_unique(column, row_index as int);
            lemma_index_in_board(
                before.spec_width(),
                before.spec_height(),
                row_index as int,
                column,
            );
            lemma_tokens_within_after_update(
                before@,
                before.index_of(row_index as int, column),
                Some(player),
                before@.len() as int,
            );
        }
        let width: usize = self.width();
        let total: usize = self.cells().len();
        assert(row_index * width + column_index < total);
        let position: usize = row_index * width + column_index;
        self.put(position, Some(player));
        Ok(())
    }
}

} // verus!
