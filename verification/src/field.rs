//! The board: a rectangle of cells, stored row by row from the bottom up.

use vstd::prelude::*;
use crate::player::Cell;

verus! {

/// The number of columns of the standard board.
pub const WIDTH: usize = 5;

/// The number of rows of the standard board.
pub const HEIGHT: usize = 5;

/// The run length that wins on the standard board.
pub const X_ROW: usize = 4;

/// A board of `width` columns and `height` rows, together with the run length
/// that wins on it. Row 0 is the bottom row, the one a token reaches first.
pub struct Field {
    width: usize,
    height: usize,
    x_row: usize,
    cells: Vec<Cell>,
}

impl View for Field {
    type V = Seq<Cell>;

    /// The cells row by row, bottom row first, each row from left to right.
    closed spec fn view(&self) -> Seq<Cell> {
        self.cells@
    }
}

/// How many of the first `end` cells hold a token.
pub open spec fn tokens_within(cells: Seq<Cell>, end: int) -> nat
    decreases end,
{
    if end <= 0 {
        0
    } else if cells[end - 1] is Some {
        tokens_within(cells, end - 1) + 1
    } else {
        tokens_within(cells, end - 1)
    }
}

/// How many cells hold a token.
pub open spec fn tokens(cells: Seq<Cell>) -> nat {
    tokens_within(cells, cells.len() as int)
}

/// There are no more tokens among the first `end` cells than cells.
pub proof fn lemma_tokens_within_bound(cells: Seq<Cell>, end: int)
    requires
        0 <= end,
    ensures
        tokens_within(cells, end) <= end,
    decreases end,
{
    if end > 0 {
        lemma_tokens_within_bound(cells, end - 1);
    }
}

/// A token put into an empty cell adds one to the count of every prefix that
/// reaches the cell, and nothing to the others.
pub proof fn lemma_tokens_within_after_update(cells: Seq<Cell>, at: int, token: Cell, end: int)
    requires
        0 <= at < cells.len(),
        0 <= end <= cells.len(),
        cells[at] is None,
        token is Some,
    ensures
        tokens_within(cells.update(at, token), end) == tokens_within(cells, end) + (if at < end {
            1nat
        } else {
            0nat
        }),
    decreases end,
{
    if end > 0 {
        lemma_tokens_within_after_update(cells, at, token, end - 1);
    }
}

/// Row `row` and column `column` of a board of `width` columns meet at one
/// index below `width * height`.
pub proof fn lemma_index_in_board(width: nat, height: nat, row: int, column: int)
    requires
        0 <= row < height,
        0 <= column < width,
    ensures
        0 <= row * width + column < width * height,
{
    assert(row * width + column < width * height) by (nonlinear_arith)
        requires
            0 <= row < height,
            0 <= column < width,
    ;
    assert(0 <= row * width) by (nonlinear_arith)
        requires
            0 <= row,
            0 <= width,
    ;
}

/// The cells of row `row` stand together, within the cells of the board.
pub proof fn lemma_row_in_board(width: nat, height: nat, row: int)
    requires
        0 <= row < height,
    ensures
        0 <= row * width,
        row * width + width <= width * height,
{
    assert(0 <= row * width && row * width + width <= width * height) by (nonlinear_arith)
        requires
            0 <= row < height,
            0 <= width,
    ;
}

/// Two places of a board that share their index are one place.
pub proof fn lemma_index_is_injective(width: nat, row: int, column: int, row2: int, column2: int)
    requires
        0 <= column < width,
        0 <= column2 < width,
        row * width + column == row2 * width + column2,
    ensures
        row == row2,
        column == column2,
{
    assert(row == row2) by (nonlinear_arith)
        requires
            0 <= column < width,
            0 <= column2 < width,
            row * width + column == row2 * width + column2,
    ;
}

impl Field {
    /// The number of columns.
    pub closed spec fn spec_width(&self) -> nat {
        self.width as nat
    }

    /// The number of rows.
    pub closed spec fn spec_height(&self) -> nat {
        self.height as nat
    }

    /// The run length that wins.
    pub closed spec fn spec_x_row(&self) -> nat {
        self.x_row as nat
    }

    /// The board holds exactly one cell for each pair of a row and a column.
    pub open spec fn wf(&self) -> bool {
        self@.len() == self.spec_width() * self.spec_height()
    }

    /// Whether `row` and `column` name a place of the board.
    pub open spec fn in_board(&self, row: int, column: int) -> bool {
        0 <= row < self.spec_height() && 0 <= column < self.spec_width()
    }

    /// Where the cell of `row` and `column` stands among the cells.
    pub open spec fn index_of(&self, row: int, column: int) -> int {
        row * self.spec_width() + column
    }

    /// What the place at `row` and `column` holds.
    pub open spec fn cell(&self, row: int, column: int) -> Cell {
        self@[self.index_of(row, column)]
    }

    /// How many tokens lie on the board.
    pub open spec fn occupied(&self) -> nat {
        tokens(self@)
    }

    /// The cells of row `row`, from left to right.
    pub open spec fn row_line(&self, row: int) -> Seq<Cell> {
        Seq::new(self.spec_width(), |column: int| self.cell(row, column))
    }

    /// The cells of column `column`, from the bottom up.
    pub open spec fn column_line(&self, column: int) -> Seq<Cell> {
        Seq::new(self.spec_height(), |row: int| self.cell(row, column))
    }

    /// Whether every cell of `column` holds a token.
    pub open spec fn column_full(&self, column: int) -> bool {
        forall|row: int| 0 <= row < self.spec_height() ==> (#[trigger] self.cell(row, column)) is Some
    }

    /// Whether `row` is the lowest empty cell of `column`.
    pub open spec fn is_landing_row(&self, column: int, row: int) -> bool {
        &&& 0 <= row < self.spec_height()
        &&& self.cell(row, column) is None
        &&& forall|below: int| 0 <= below < row ==> (#[trigger] self.cell(below, column)) is Some
    }

    /// The row in which a token dropped into `column` comes to rest, where the
    /// column is not full.
    pub open spec fn landing_row(&self, column: int) -> int {
        choose|row: int| self.is_landing_row(column, row)
    }

    /// The cells after a token of `token` has come to rest in `column`.
    pub open spec fn after_drop(&self, column: int, token: Cell) -> Seq<Cell> {
        self@.update(self.index_of(self.landing_row(column), column), token)
    }

    /// A column has at most one lowest empty cell.
    pub proof fn lemma_landing_row_is_unique(&self, column: int, row: int)
        requires
            self.is_landing_row(column, row),
        ensures
            self.landing_row(column) == row,
            !self.column_full(column),
    {
        let chosen = self.landing_row(column);
        assert(self.is_landing_row(column, chosen));
        if chosen < row {
            assert(self.cell(chosen, column) is Some);
        }
        if row < chosen {
            assert(self.cell(row, column) is Some);
        }
    }

    /// An empty board of `width` columns and `height` rows on which a run of
    /// `x_row` tokens wins, or nothing where the number of its cells is more
    /// than a `usize` holds.
    pub fn with_size(width: usize, height: usize, x_row: usize) -> (made: Option<Field>)
        ensures
            made is Some <==> width * height <= usize::MAX,
            made matches Some(field) ==> {
                &&& field.wf()
                &&& field.spec_width() == width
                &&& field.spec_height() == height
                &&& field.spec_x_row() == x_row
                &&& forall|i: int| 0 <= i < field@.len() ==> field@[i] is None
                &&& field.occupied() == 0
            },
    {
        let total: usize = match width.checked_mul(height) {
            Some(total) => total,
            None => {
                return None;
            },
        };
        let mut cells: Vec<Cell> = Vec::new();
        while cells.len() < total
            invariant
                cells.len() <= total,
                forall|i: int| 0 <= i < cells.len() ==> cells@[i] is None,
                tokens(cells@) == 0,
            decreases total - cells.len(),
        {
            let ghost before = cells@;
            cells.push(None);
            proof {
                assert(cells@.len() == before.len() + 1);
                lemma_tokens_within_prefix(before, cells@, before.len() as int);
            }
        }
        Some(Field { width, height, x_row, cells })
    }

    /// The standard board, empty.
    pub fn new() -> (field: Field)
        ensures
            field.wf(),
            field.spec_width() == WIDTH,
            field.spec_height() == HEIGHT,
            field.spec_x_row() == X_ROW,
            forall|i: int| 0 <= i < field@.len() ==> field@[i] is None,
            field.occupied() == 0,
    {
        Field::with_size(WIDTH, HEIGHT, X_ROW).unwrap()
    }

    /// A board of `width` columns and `height` rows that holds `cells`, given
    /// row by row from the bottom up, or nothing where `cells` has not one
    /// cell for each place.
    pub fn from_cells(width: usize, height: usize, x_row: usize, cells: Vec<Cell>) -> (made: Option<
        Field,
    >)
        ensures
            made is Some <==> cells@.len() == width * height,
            made matches Some(field) ==> {
                &&& field.wf()
                &&& field.spec_width() == width
                &&& field.spec_height() == height
                &&& field.spec_x_row() == x_row
                &&& field@ == cells@
            },
    {
        let given: usize = cells.len();
        match width.checked_mul(height) {
            Some(total) => {
                if given == total {
                    Some(Field { width, height, x_row, cells })
                } else {
                    None
                }
            },
            None => None,
        }
    }

    /// The number of columns.
    pub fn width(&self) -> (width: usize)
        ensures
            width == self.spec_width(),
    {
        self.width
    }

    /// The number of rows.
    pub fn height(&self) -> (height: usize)
        ensures
            height == self.spec_height(),
    {
        self.height
    }

    /// The run length that wins.
    pub fn x_row(&self) -> (x_row: usize)
        ensures
            x_row == self.spec_x_row(),
    {
        self.x_row
    }

    /// Puts `token` into the cell at `position`.
    pub(crate) fn put(&mut self, position: usize, token: Cell)
        requires
            position < old(self)@.len(),
        ensures
            final(self)@ == old(self)@.update(position as int, token),
            final(self).spec_width() == old(self).spec_width(),
            final(self).spec_height() == old(self).spec_height(),
            final(self).spec_x_row() == old(self).spec_x_row(),
    {
        self.cells[position] = token;
    }

    /// All cells, row by row from the bottom up.
    pub fn cells(&self) -> (cells: &[Cell])
        ensures
            cells@ == self@,
    {
        self.cells.as_slice()
    }

    /// What the place at `row` and `column` holds, or nothing where the board
    /// has no such place.
    pub fn get(&self, row: usize, column: usize) -> (found: Option<Cell>)
        requires
            self.wf(),
        ensures
            found == (if self.in_board(row as int, column as int) {
                Some(self.cell(row as int, column as int))
            } else {
                None
            }),
    {
        let total: usize = self.cells.len();
        if row < self.height && column < self.width {
            proof {
                lemma_index_in_board(self.width as nat, self.height as nat, row as int, column as int);
                assert(row * self.width + column < total);
            }
            Some(self.cells[row * self.width + column])
        } else {
            None
        }
    }
}

/// Cells that agree on their first `end` places hold as many tokens there.
pub proof fn lemma_tokens_within_prefix(one: Seq<Cell>, other: Seq<Cell>, end: int)
    requires
        0 <= end <= one.len(),
        end <= other.len(),
        forall|i: int| 0 <= i < end ==> one[i] == other[i],
    ensures
        tokens_within(one, end) == tokens_within(other, end),
    decreases end,
{
    if end > 0 {
        lemma_tokens_within_prefix(one, other, end - 1);
    }
}

} // verus!
