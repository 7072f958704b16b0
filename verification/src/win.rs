//! The win check: every row, every column and every diagonal of the board is
//! scanned, and the first line with a long enough run decides.

use vstd::prelude::*;
use crate::columns::Columns;
use crate::diagonals::Diagonals;
use crate::field::{lemma_index_in_board, Field};
use crate::player::{Cell, Player};
use crate::rows::Rows;
use crate::series::{
    is_run, lemma_longest_run_is_reached, lemma_series_names_a_present_player, longest_run,
    series_of,
};

verus! {

/// The player who wins on `line` where a run of `x_row` tokens is needed: the
/// one whom the scanner names, if the run it reports is long enough.
pub open spec fn line_winner(line: Seq<Cell>, x_row: nat) -> Option<Player> {
    match series_of(line) {
        (Some(who), length) => if length >= x_row {
            Some(who)
        } else {
            None
        },
        (None, _) => None,
    }
}

/// The player who wins on the line `cells` where a run of `x_row` tokens is
/// needed, if there is one.
pub fn scan_line(cells: &[Cell], x_row: usize) -> (found: Option<Player>)
    ensures
        found == line_winner(cells@, x_row as nat),
{
    match Field::max_series(cells) {
        (Some(player), length) => {
            if length >= x_row {
                Some(player)
            } else {
                None
            }
        },
        _ => None,
    }
}

impl Field {
    /// The number of lines that the win check scans.
    pub open spec fn line_count(&self) -> nat {
        self.spec_height() + self.spec_width() + self.diagonal_count()
    }

    /// Line `nth` in the order of the scan: the rows from the bottom up, then
    /// the columns from left to right, then the diagonals.
    pub open spec fn line(&self, nth: int) -> Seq<Cell> {
        if nth < self.spec_height() {
            self.row_line(nth)
        } else if nth < self.spec_height() + self.spec_width() {
            self.column_line(nth - self.spec_height())
        } else {
            self.diagonal_line(nth - self.spec_height() - self.spec_width())
        }
    }

    /// Whether line `nth` is the first in the order of the scan on which a
    /// player wins.
    pub open spec fn decided_at(&self, nth: int) -> bool {
        &&& 0 <= nth < self.line_count()
        &&& line_winner(self.line(nth), self.spec_x_row()) is Some
        &&& forall|earlier: int|
            0 <= earlier < nth ==> line_winner(#[trigger] self.line(earlier), self.spec_x_row())
                is None
    }

    /// Whether no player wins on any of the first `end` lines.
    pub open spec fn undecided_before(&self, end: int) -> bool {
        forall|nth: int|
            0 <= nth < end ==> line_winner(#[trigger] self.line(nth), self.spec_x_row()) is None
    }

    /// The player who has won on this board: the one who wins on the first
    /// line, in the order of the scan, on which a player wins.
    pub open spec fn winning_player(&self) -> Option<Player> {
        if exists|nth: int| self.decided_at(nth) {
            line_winner(self.line(choose|nth: int| self.decided_at(nth)), self.spec_x_row())
        } else {
            None
        }
    }

    /// The first line on which a player wins decides for that player.
    pub proof fn lemma_decided(&self, nth: int)
        requires
            self.decided_at(nth),
        ensures
            self.winning_player() == line_winner(self.line(nth), self.spec_x_row()),
    {
        let chosen = choose|nth: int| self.decided_at(nth);
        if chosen < nth {
            assert(line_winner(self.line(chosen), self.spec_x_row()) is None);
        }
        if nth < chosen {
            assert(line_winner(self.line(nth), self.spec_x_row()) is None);
        }
    }

    /// Where no player wins on any line, nobody has won.
    pub proof fn lemma_undecided(&self)
        requires
            self.undecided_before(self.line_count() as int),
        ensures
            self.winning_player() is None,
    {
        if exists|nth: int| self.decided_at(nth) {
            let nth = choose|nth: int| self.decided_at(nth);
            assert(line_winner(self.line(nth), self.spec_x_row()) is None);
        }
    }

    /// The player who has won has a run of at least the winning length, and of
    /// at least one token, on a row, a column or a diagonal of the board.
    pub proof fn lemma_winner_has_a_run(&self) -> (place: (int, int, int))
        requires
            self.winning_player() is Some,
        ensures
            0 <= place.0 < self.line_count(),
            place.2 >= self.spec_x_row(),
            place.2 >= 1,
            is_run(self.line(place.0), self.winning_player()->Some_0, place.1, place.2),
    {
        let nth = choose|nth: int| self.decided_at(nth);
        let line = self.line(nth);
        let who = self.winning_player()->Some_0;
        lemma_series_names_a_present_player(line);
        lemma_longest_run_is_reached(line, who);
        let start = choose|start: int| is_run(line, who, start, longest_run(line, who) as int);
        (nth, start, longest_run(line, who) as int)
    }

    /// Every cell of every line that the win check scans is a cell of the
    /// board.
    pub proof fn lemma_line_is_of_the_board(&self, nth: int, i: int) -> (at: int)
        requires
            self.wf(),
            0 <= nth < self.line_count(),
            0 <= i < self.line(nth).len(),
        ensures
            0 <= at < self@.len(),
            self.line(nth)[i] == self@[at],
    {
        let width = self.spec_width();
        let height = self.spec_height();
        if nth < height {
            lemma_index_in_board(width, height, nth, i);
            self.index_of(nth, i)
        } else if nth < height + width {
            lemma_index_in_board(width, height, i, nth - height);
            self.index_of(i, nth - height)
        } else {
            let diagonal = nth - height - width;
            if diagonal < self.diagonals_each_way() {
                self.lemma_falling_line_in_board(diagonal, i);
                let (row, column) = self.falling_start(diagonal);
                lemma_index_in_board(width, height, row + i, column - i);
                self.index_of(row + i, column - i)
            } else {
                let rising = diagonal - self.diagonals_each_way();
                self.lemma_rising_line_in_board(rising, i);
                let (row, column) = self.rising_start(rising);
                lemma_index_in_board(width, height, row + i, column + i);
                self.index_of(row + i, column + i)
            }
        }
    }

    /// Nobody has won on a board without tokens.
    pub proof fn lemma_empty_board_is_undecided(&self)
        requires
            self.wf(),
            forall|i: int| 0 <= i < self@.len() ==> self@[i] is None,
        ensures
            self.winning_player() is None,
    {
        assert forall|nth: int| 0 <= nth < self.line_count() implies line_winner(
            #[trigger] self.line(nth),
            self.spec_x_row(),
        ) is None by {
            let line = self.line(nth);
            lemma_series_names_a_present_player(line);
            if let Some(who) = series_of(line).0 {
                let i = choose|i: int| 0 <= i < line.len() && line[i] == Some(who);
                let at = self.lemma_line_is_of_the_board(nth, i);
            }
        }
        self.lemma_undecided();
    }

    /// The rows of the board, from the bottom up.
    pub fn rows<'a>(&'a self) -> (rows: Rows<'a>)
        ensures
            rows.board() == *self,
            rows.position() == 0,
    {
        Rows::new(self)
    }

    /// The columns of the board, from left to right.
    pub fn columns<'a>(&'a self) -> (columns: Columns<'a>)
        ensures
            columns.board() == *self,
            columns.position() == 0,
    {
        Columns::new(self)
    }

    /// The diagonals of the board, the falling ones first.
    pub fn diagonals<'a>(&'a self) -> (diagonals: Diagonals<'a>)
        requires
            self.wf(),
        ensures
            diagonals.wf(),
            diagonals.board() == *self,
            diagonals.position() == 0,
    {
        Diagonals::new(self)
    }

    /// The player who has won on this board, if there is one: the first, in
    /// the order of the scan, to have a run of the winning length on a line.
    pub fn win_check(&self) -> (found: Option<Player>)
        requires
            self.wf(),
        ensures
            found == self.winning_player(),
    {
        let x_row: usize = self.x_row();

        let mut rows = self.rows();
        loop
            invariant
                self.wf(),
                x_row == self.spec_x_row(),
                rows.board() == *self,
                rows.position() <= self.spec_height(),
                self.undecided_before(rows.position() as int),
            ensures
                rows.position() == self.spec_height(),
                self.undecided_before(self.spec_height() as int),
            decreases rows.remaining(),
        {
            let ghost nth = rows.position() as int;
            match rows.next() {
                Some(row) => {
                    let decided = scan_line(row.cells.as_slice(), x_row);
                    proof {
                        assert(row.cells@ == self.line(nth));
                    }
                    if decided.is_some() {
                        proof {
                            self.lemma_decided(nth);
                        }
                        return decided;
                    }
                },
                None => {
                    break ;
                },
            }
        }

        let mut columns = self.columns();
        loop
            invariant
                self.wf(),
                x_row == self.spec_x_row(),
                columns.board() == *self,
                columns.position() <= self.spec_width(),
                self.undecided_before((self.spec_height() + columns.position()) as int),
            ensures
                columns.position() == self.spec_width(),
                self.undecided_before((self.spec_height() + self.spec_width()) as int),
            decreases columns.remaining(),
        {
            let ghost nth = (self.spec_height() + columns.position()) as int;
            match columns.next() {
                Some(column) => {
                    let decided = scan_line(column.cells.as_slice(), x_row);
                    proof {
                        assert(column.cells@ == self.line(nth));
                    }
                    if decided.is_some() {
                        proof {
                            self.lemma_decided(nth);
                        }
                        return decided;
                    }
                },
                None => {
                    break ;
                },
            }
        }

        let mut diagonals = self.diagonals();
        loop
            invariant
                self.wf(),
                x_row == self.spec_x_row(),
                diagonals.wf(),
                diagonals.board() == *self,
                diagonals.position() <= self.diagonal_count(),
                self.undecided_before(
                    (self.spec_height() + self.spec_width() + diagonals.position()) as int,
                ),
            ensures
                self.undecided_before(self.line_count() as int),
            decreases diagonals.remaining(),
        {
            let ghost nth = (self.spec_height() + self.spec_width() + diagonals.position()) as int;
            match diagonals.next() {
                Some(diagonal) => {
                    let decided = scan_line(diagonal.valid(), x_row);
                    proof {
                        assert(diagonal.line() == self.line(nth));
                    }
                    if decided.is_some() {
                        proof {
                            self.lemma_decided(nth);
                        }
                        return decided;
                    }
                },
                None => {
                    break ;
                },
            }
        }
        proof {
            self.lemma_undecided();
        }
        None
    }
}

} // verus!
