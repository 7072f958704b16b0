//! The columns of a board, from left to right.

use vstd::prelude::*;
use crate::cursor::{advance, lemma_position_after, lines_left, position_after};
use crate::field::{lemma_index_in_board, Field};
use crate::player::Cell;

verus! {

/// One column of a board: its cells from the bottom up.
#[derive(Debug)]
pub struct Column {
    pub cells: Vec<Cell>,
}

/// Hands out the columns of a board one by one, from left to right.
pub struct Columns<'a> {
    field: &'a Field,
    current_column: usize,
}

/// The column that an extractor hands out at `position`, if one is left
/// there.
pub open spec fn column_at(field: Field, position: nat) -> Option<Seq<Cell>> {
    if position < field.spec_width() {
        Some(field.column_line(position as int))
    } else {
        None
    }
}

/// Request number `request`, counted from 0, on the columns of `field` from
/// the leftmost on gives column `request` while `request` is below the board's
/// width, and nothing from then on: the columns are as many as the board is
/// wide.
pub proof fn lemma_columns_are_as_many_as_the_width(field: Field, request: nat)
    ensures
        column_at(field, position_after(field.spec_width(), 0, request)) == (if request
            < field.spec_width() {
            Some(field.column_line(request as int))
        } else {
            None
        }),
{
    lemma_position_after(field.spec_width(), 0, request);
}

impl<'a> Columns<'a> {
    /// The board whose columns are handed out.
    pub closed spec fn board(&self) -> Field {
        *self.field
    }

    /// The index of the column that comes next.
    pub closed spec fn position(&self) -> nat {
        self.current_column as nat
    }

    /// How many columns are still to come.
    pub open spec fn remaining(&self) -> nat {
        lines_left(self.board().spec_width(), self.position())
    }

    /// The columns of `field` from the leftmost on.
    pub fn new(field: &'a Field) -> (columns: Columns<'a>)
        ensures
            columns.board() == *field,
            columns.position() == 0,
    {
        Columns { field, current_column: 0 }
    }

    /// The columns of `field` from column `index` on.
    pub fn index(field: &'a Field, index: usize) -> (columns: Columns<'a>)
        ensures
            columns.board() == *field,
            columns.position() == index,
    {
        Columns { field, current_column: index }
    }

    /// The next column, or nothing once every column has been handed out.
    pub fn next(&mut self) -> (line: Option<Column>)
        requires
            old(self).board().wf(),
        ensures
            final(self).board() == old(self).board(),
            final(self).position() == advance(
                old(self).board().spec_width(),
                old(self).position(),
            ),
            match line {
                Some(column) => Some(column.cells@) == column_at(
                    old(self).board(),
                    old(self).position(),
                ),
                None => column_at(old(self).board(), old(self).position()) is None,
            },
    {
        if self.current_column < self.field.width() {
            let width: usize = self.field.width();
            let height: usize = self.field.height();
            let all: &[Cell] = self.field.cells();
            let total: usize = all.len();
            let ghost board = *self.field;
            let ghost column = self.current_column as int;
            let mut cells: Vec<Cell> = Vec::new();
            let mut row: usize = 0;
            while row < height
                invariant
                    row <= height,
                    width == board.spec_width(),
                    height == board.spec_height(),
                    column == self.current_column < width,
                    all@ == board@,
                    total == all@.len() == width * height,
                    cells@.len() == row,
                    forall|r: int| 0 <= r < row ==> cells@[r] == board.cell(r, column),
                decreases height - row,
            {
                proof {
                    lemma_index_in_board(width as nat, height as nat, row as int, column);
                }
                let index: usize = row * width + self.current_column;
                cells.push(all[index]);
                row += 1;
            }
            self.current_column += 1;
            assert(cells@ =~= board.column_line(column));
            Some(Column { cells })
        } else {
            None
        }
    }
}

} // verus!
