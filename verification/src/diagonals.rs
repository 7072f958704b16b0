//! The diagonals of a board, in both directions.
//!
//! A falling diagonal runs from its lowest cell up and to the left, a rising
//! one from its lowest cell up and to the right. Only diagonals of two cells
//! or more are handed out: the single cells in the corners are no lines.

use vstd::prelude::*;
use crate::cursor::{advance, lemma_position_after, lines_left, position_after};
use crate::field::{lemma_index_in_board, Field};
use crate::player::Cell;

verus! {

/// One diagonal of a board. The first `length` cells are those of the
/// diagonal, from its lowest cell up; the cells after them are empty filling.
#[derive(Debug)]
pub struct Diagonal {
    pub cells: Vec<Cell>,
    pub length: usize,
}

impl Diagonal {
    /// The cells of the diagonal, without the filling.
    pub open spec fn line(&self) -> Seq<Cell> {
        self.cells@.take(self.length as int)
    }

    /// Whether the cells after the first `length` are there and empty, so that
    /// there are `capacity` cells in all.
    pub open spec fn filled_to(&self, capacity: nat) -> bool {
        &&& self.length <= self.cells@.len() == capacity
        &&& forall|i: int| self.length <= i < capacity ==> self.cells@[i] is None
    }

    /// The cells of the diagonal, without the filling.
    pub fn valid(&self) -> (line: &[Cell])
        requires
            self.length <= self.cells@.len(),
        ensures
            line@ == self.line(),
    {
        vstd::slice::slice_subrange(self.cells.as_slice(), 0, self.length)
    }
}

/// Hands out the diagonals of a board one by one: first the falling ones, by
/// their lowest cell from left to right along the bottom row and then up the
/// right edge, then the rising ones, by their lowest cell down the left edge
/// and then from left to right along the bottom row.
pub struct Diagonals<'a> {
    field: &'a Field,
    current_diagonal: usize,
    total_diagonals: usize,
}

impl Field {
    /// The number of diagonals of two cells or more in one direction.
    pub open spec fn diagonals_each_way(&self) -> nat {
        if self.spec_width() >= 2 && self.spec_height() >= 2 {
            (self.spec_width() + self.spec_height() - 3) as nat
        } else {
            0
        }
    }

    /// The number of diagonals of two cells or more.
    pub open spec fn diagonal_count(&self) -> nat {
        2 * self.diagonals_each_way()
    }

    /// The row and the column of the lowest cell of falling diagonal `nth`.
    pub open spec fn falling_start(&self, nth: int) -> (int, int) {
        if nth + 1 < self.spec_width() {
            (0, nth + 1)
        } else {
            (nth + 2 - self.spec_width(), self.spec_width() - 1)
        }
    }

    /// The number of cells of falling diagonal `nth`.
    pub open spec fn falling_length(&self, nth: int) -> int {
        let (row, column) = self.falling_start(nth);
        if self.spec_height() - row < column + 1 {
            self.spec_height() - row
        } else {
            column + 1
        }
    }

    /// The cells of falling diagonal `nth`, from its lowest cell up and to the
    /// left.
    pub open spec fn falling_line(&self, nth: int) -> Seq<Cell> {
        let (row, column) = self.falling_start(nth);
        Seq::new(self.falling_length(nth) as nat, |i: int| self.cell(row + i, column - i))
    }

    /// The row and the column of the lowest cell of rising diagonal `nth`.
    pub open spec fn rising_start(&self, nth: int) -> (int, int) {
        if nth + 2 < self.spec_height() {
            (self.spec_height() - 2 - nth, 0)
        } else {
            (0, nth + 2 - self.spec_height())
        }
    }

    /// The number of cells of rising diagonal `nth`.
    pub open spec fn rising_length(&self, nth: int) -> int {
        let (row, column) = self.rising_start(nth);
        if self.spec_height() - row < self.spec_width() - column {
            self.spec_height() - row
        } else {
            self.spec_width() - column
        }
    }

    /// The cells of rising diagonal `nth`, from its lowest cell up and to the
    /// right.
    pub open spec fn rising_line(&self, nth: int) -> Seq<Cell> {
        let (row, column) = self.rising_start(nth);
        Seq::new(self.rising_length(nth) as nat, |i: int| self.cell(row + i, column + i))
    }

    /// The cells of diagonal `nth`: the falling diagonals come first, the
    /// rising ones after them.
    pub open spec fn diagonal_line(&self, nth: int) -> Seq<Cell> {
        if nth < self.diagonals_each_way() {
            self.falling_line(nth)
        } else {
            self.rising_line(nth - self.diagonals_each_way())
        }
    }

    /// Every falling diagonal has at least two cells, and each of them is a
    /// place of the board.
    pub proof fn lemma_falling_line_in_board(&self, nth: int, i: int)
        requires
            0 <= nth < self.diagonals_each_way(),
            0 <= i < self.falling_length(nth),
        ensures
            2 <= self.falling_length(nth),
            self.falling_length(nth) <= self.spec_width(),
            self.falling_length(nth) <= self.spec_height(),
            self.in_board(self.falling_start(nth).0 + i, self.falling_start(nth).1 - i),
    {
    }

    /// Every rising diagonal has at least two cells, and each of them is a
    /// place of the board.
    pub proof fn lemma_rising_line_in_board(&self, nth: int, i: int)
        requires
            0 <= nth < self.diagonals_each_way(),
            0 <= i < self.rising_length(nth),
        ensures
            2 <= self.rising_length(nth),
            self.rising_length(nth) <= self.spec_width(),
            self.rising_length(nth) <= self.spec_height(),
            self.in_board(self.rising_start(nth).0 + i, self.rising_start(nth).1 + i),
    {
    }

    /// Two places of which one lies one row up and one column to the left of
    /// the other follow each other on a falling diagonal.
    pub proof fn lemma_falling_neighbours_share_a_line(&self, row: int, column: int) -> (place: (
        int,
        int,
    ))
        requires
            self.in_board(row, column),
            self.in_board(row + 1, column - 1),
        ensures
            0 <= place.0 < self.diagonals_each_way(),
            0 <= place.1 < self.falling_length(place.0) - 1,
            self.falling_line(place.0)[place.1] == self.cell(row, column),
            self.falling_line(place.0)[place.1 + 1] == self.cell(row + 1, column - 1),
    {
        let nth = row + column - 1;
        (nth, row - self.falling_start(nth).0)
    }

    /// Two places of which one lies one row up and one column to the right of
    /// the other follow each other on a rising diagonal.
    pub proof fn lemma_rising_neighbours_share_a_line(&self, row: int, column: int) -> (place: (
        int,
        int,
    ))
        requires
            self.in_board(row, column),
            self.in_board(row + 1, column + 1),
        ensures
            0 <= place.0 < self.diagonals_each_way(),
            0 <= place.1 < self.rising_length(place.0) - 1,
            self.rising_line(place.0)[place.1] == self.cell(row, column),
            self.rising_line(place.0)[place.1 + 1] == self.cell(row + 1, column + 1),
    {
        let nth = column - row + self.spec_height() - 2;
        (nth, row - self.rising_start(nth).0)
    }

    /// A board of two rows and two columns or more has fewer diagonals than
    /// cells, and no more rows and columns together than cells.
    pub proof fn lemma_diagonal_count_bound(&self)
        requires
            self.wf(),
            self.spec_width() >= 2,
            self.spec_height() >= 2,
        ensures
            self.spec_width() + self.spec_height() <= self@.len(),
            self.diagonal_count() < self@.len(),
    {
        let w = self.spec_width() as int;
        let h = self.spec_height() as int;
        assert(w * h == (w - 2) * (h - 2) + 2 * w + 2 * h - 4) by (nonlinear_arith);
        assert(0 <= (w - 2) * (h - 2)) by (nonlinear_arith)
            requires
                w >= 2,
                h >= 2,
        ;
        assert(w * h >= w + h) by (nonlinear_arith)
            requires
                w >= 2,
                h >= 2,
        ;
    }
}

/// The diagonal that an extractor hands out at `position`, if one is left
/// there.
pub open spec fn diagonal_at(field: Field, position: nat) -> Option<Seq<Cell>> {
    if position < field.diagonal_count() {
        Some(field.diagonal_line(position as int))
    } else {
        None
    }
}

/// Request number `request`, counted from 0, on the diagonals of `field` gives
/// diagonal `request` while `request` is below the number of diagonals, and
/// nothing from then on. On a board of at least two rows and two columns this
/// number is that of all diagonals, two for each row and each column but one,
/// less the four single cells in the corners; a narrower board has no
/// diagonal of two cells.
pub proof fn lemma_diagonals_are_counted(field: Field, request: nat)
    ensures
        diagonal_at(field, position_after(field.diagonal_count(), 0, request)) == (if request
            < field.diagonal_count() {
            Some(field.diagonal_line(request as int))
        } else {
            None
        }),
        field.spec_width() >= 2 && field.spec_height() >= 2 ==> field.diagonal_count() == 2 * (
        field.spec_width() + field.spec_height() - 1) - 4,
        field.spec_width() < 2 || field.spec_height() < 2 ==> field.diagonal_count() == 0,
{
    lemma_position_after(field.diagonal_count(), 0, request);
}

impl<'a> Diagonals<'a> {
    /// The board whose diagonals are handed out.
    pub closed spec fn board(&self) -> Field {
        *self.field
    }

    /// The index of the diagonal that comes next.
    pub closed spec fn position(&self) -> nat {
        self.current_diagonal as nat
    }

    /// The extractor knows the number of diagonals of its board.
    pub closed spec fn wf(&self) -> bool {
        &&& self.field.wf()
        &&& self.total_diagonals == self.field.diagonal_count()
    }

    /// How many diagonals are still to come.
    pub open spec fn remaining(&self) -> nat {
        lines_left(self.board().diagonal_count(), self.position())
    }

    /// The diagonals of `field` from the first on.
    pub fn new(field: &'a Field) -> (diagonals: Diagonals<'a>)
        requires
            field.wf(),
        ensures
            diagonals.wf(),
            diagonals.board() == *field,
            diagonals.position() == 0,
    {
        let width: usize = field.width();
        let height: usize = field.height();
        let total: usize = field.cells().len();
        let total_diagonals: usize = if width < 2 || height < 2 {
            0
        } else {
            proof {
                field.lemma_diagonal_count_bound();
            }
            2 * (width + height - 3)
        };
        Diagonals { field, current_diagonal: 0, total_diagonals }
    }

    /// The next diagonal, or nothing once every diagonal has been handed out.
    /// A diagonal comes with as many cells as the board has rows and columns
    /// together, empty beyond its length.
    pub fn next(&mut self) -> (line: Option<Diagonal>)
        requires
            old(self).wf(),
        ensures
            final(self).wf(),
            final(self).board() == old(self).board(),
            final(self).position() == advance(
                old(self).board().diagonal_count(),
                old(self).position(),
            ),
            match line {
                Some(diagonal) => {
                    &&& Some(diagonal.line()) == diagonal_at(old(self).board(), old(self).position())
                    &&& diagonal.filled_to(
                        old(self).board().spec_width() + old(self).board().spec_height(),
                    )
                },
                None => diagonal_at(old(self).board(), old(self).position()) is None,
            },
    {
        if self.current_diagonal >= self.total_diagonals {
            return None;
        }
        let width: usize = self.field.width();
        let height: usize = self.field.height();
        let all: &[Cell] = self.field.cells();
        let total: usize = all.len();
        let ghost board = *self.field;
        proof {
            board.lemma_diagonal_count_bound();
        }
        let each_way: usize = width + height - 3;
        let falling: bool = self.current_diagonal < each_way;
        let row: usize;
        let column: usize;
        let length: usize;
        if falling {
            let nth: usize = self.current_diagonal;
            if nth + 1 < width {
                row = 0;
                column = nth + 1;
            } else {
                row = nth + 2 - width;
                column = width - 1;
            }
            length = if height - row < column + 1 {
                height - row
            } else {
                column + 1
            };
        } else {
            let nth: usize = self.current_diagonal - each_way;
            if nth + 2 < height {
                row = height - 2 - nth;
                column = 0;
            } else {
                row = 0;
                column = nth + 2 - height;
            }
            length = if height - row < width - column {
                height - row
            } else {
                width - column
            };
        }
        let ghost wanted = board.diagonal_line(self.current_diagonal as int);
        assert(wanted.len() == length);
        let mut cells: Vec<Cell> = Vec::new();
        let mut i: usize = 0;
        while i < length
            invariant
                i <= length,
                width == board.spec_width(),
                height == board.spec_height(),
                all@ == board@,
                total == all@.len() == width * height,
                row + length <= height,
                falling ==> length <= column + 1 && column < width,
                !falling ==> column + length <= width,
                wanted.len() == length,
                forall|k: int|
                    0 <= k < length ==> wanted[k] == board.cell(
                        row + k,
                        if falling {
                            column - k
                        } else {
                            column + k
                        },
                    ),
                cells@.len() == i,
                forall|k: int| 0 <= k < i ==> cells@[k] == wanted[k],
            decreases length - i,
        {
            let from: usize = if falling {
                column - i
            } else {
                column + i
            };
            proof {
                lemma_index_in_board(width as nat, height as nat, row + i, from as int);
            }
            cells.push(all[(row + i) * width + from]);
            i += 1;
        }
        while cells.len() < width + height
            invariant
                length <= cells@.len() <= width + height <= usize::MAX,
                forall|k: int| 0 <= k < length ==> cells@[k] == wanted[k],
                forall|k: int| length <= k < cells@.len() ==> cells@[k] is None,
            decreases width + height - cells.len(),
        {
            cells.push(None);
        }
        self.current_diagonal += 1;
        let diagonal = Diagonal { cells, length };
        assert(diagonal.line() =~= wanted);
        Some(diagonal)
    }
}

} // verus!
