//! The rows of a board, bottom row first.

use vstd::prelude::*;
use crate::cursor::{advance, lemma_position_after, lines_left, position_after};
use crate::field::{lemma_row_in_board, Field};
use crate::player::Cell;

verus! {

/// One row of a board: its cells from left to right.
#[derive(Debug)]
pub struct Row {
    pub cells: Vec<Cell>,
}

/// Hands out the rows of a board one by one, from the bottom up.
pub struct Rows<'a> {
    field: &'a Field,
    current_row: usize,
}

/// The row that an extractor hands out at `position`, if one is left there.
pub open spec fn row_at(field: Field, position: nat) -> Option<Seq<Cell>> {
    if position < field.spec_height() {
        Some(field.row_line(position as int))
    } else {
        None
    }
}

/// Request number `request`, counted from 0, on the rows of `field` from the
/// bottom row on gives row `request` while `request` is below the board's
/// height, and nothing from then on: the rows are as many as the board is high.
pub proof fn lemma_rows_are_as_many_as_the_height(field: Field, request: nat)
    ensures
        row_at(field, position_after(field.spec_height(), 0, request)) == (if request
            < field.spec_height() {
            Some(field.row_line(request as int))
        } else {
            None
        }),
{
    lemma_position_after(field.spec_height(), 0, request);
}

impl<'a> Rows<'a> {
    /// The board whose rows are handed out.
    pub closed spec fn board(&self) -> Field {
        *self.field
    }

    /// The index of the row that comes next.
    pub closed spec fn position(&self) -> nat {
        self.current_row as nat
    }

    /// How many rows are still to come.
    pub open spec fn remaining(&self) -> nat {
        lines_left(self.board().spec_height(), self.position())
    }

    /// The rows of `field` from the bottom row on.
    pub fn new(field: &'a Field) -> (rows: Rows<'a>)
        ensures
            rows.board() == *field,
            rows.position() == 0,
    {
        Rows { field, current_row: 0 }
    }

    /// The rows of `field` from row `index` on.
    pub fn index(field: &'a Field, index: usize) -> (rows: Rows<'a>)
        ensures
            rows.board() == *field,
            rows.position() == index,
    {
        Rows { field, current_row: index }
    }

    /// The next row, or nothing once every row has been handed out.
    pub fn next(&mut self) -> (line: Option<Row>)
        requires
            old(self).board().wf(),
        ensures
            final(self).board() == old(self).board(),
            final(self).position() == advance(
                old(self).board().spec_height(),
                old(self).position(),
            ),
            match line {
                Some(row) => Some(row.cells@) == row_at(old(self).board(), old(self).position()),
                None => row_at(old(self).board(), old(self).position()) is None,
            },
    {
        if self.current_row < self.field.height() {
            let width: usize = self.field.width();
            let all: &[Cell] = self.field.cells();
            let ghost board = *self.field;
            let ghost row = self.current_row as int;
            let total: usize = all.len();
            proof {
                lemma_row_in_board(board.spec_width(), board.spec_height(), row);
            }
            let from: usize = self.current_row * width;
            let mut cells: Vec<Cell> = Vec::new();
            let mut column: usize = 0;
            while column < width
                invariant
                    column <= width,
                    width == board.spec_width(),
                    all@ == board@,
                    from == row * width,
                    from + width <= total == all@.len(),
                    cells@.len() == column,
                    forall|c: int| 0 <= c < column ==> cells@[c] == board.cell(row, c),
                decreases width - column,
            {
                cells.push(all[from + column]);
                column += 1;
            }
            self.current_row += 1;
            assert(cells@ =~= board.row_line(row));
            Some(Row { cells })
        } else {
            None
        }
    }
}

} // verus!
