//! The run-length scanner: the longest unbroken run of each player's tokens
//! along one line of cells.

use vstd::prelude::*;
use crate::field::Field;
use crate::player::{Cell, Player};

verus! {

/// Whether the `len` cells of `line` from index `start` on all hold a token of
/// `who`.
pub open spec fn is_run(line: Seq<Cell>, who: Player, start: int, len: int) -> bool {
    &&& 0 <= start
    &&& 0 <= len
    &&& start + len <= line.len()
    &&& forall|i: int| start <= i < start + len ==> line[i] == Some(who)
}

/// How many cells directly before index `end` hold a token of `who` without a
/// break.
pub open spec fn run_before(line: Seq<Cell>, who: Player, end: int) -> nat
    decreases end,
{
    if end <= 0 || end > line.len() || line[end - 1] != Some(who) {
        0
    } else {
        1 + run_before(line, who, end - 1)
    }
}

/// The length of the longest run of `who` among the first `end` cells of
/// `line`.
pub open spec fn longest_run_within(line: Seq<Cell>, who: Player, end: int) -> nat
    decreases end,
{
    if end <= 0 {
        0
    } else {
        let earlier = longest_run_within(line, who, end - 1);
        let last = run_before(line, who, end);
        if last > earlier {
            last
        } else {
            earlier
        }
    }
}

/// The length of the longest run of `who` anywhere in `line`.
pub open spec fn longest_run(line: Seq<Cell>, who: Player) -> nat {
    longest_run_within(line, who, line.len() as int)
}

/// What the scanner reports for `line`: the player with the strictly longer
/// longest run, if there is one, and the length of the longest run of either.
pub open spec fn series_of(line: Seq<Cell>) -> (Cell, nat) {
    let red = longest_run(line, Player::Red);
    let blue = longest_run(line, Player::Blue);
    if red == blue {
        (None, red)
    } else if red > blue {
        (Some(Player::Red), red)
    } else {
        (Some(Player::Blue), blue)
    }
}

/// The cells counted by `run_before` form a run that ends at `end`.
pub proof fn lemma_run_before_is_run(line: Seq<Cell>, who: Player, end: int)
    requires
        0 <= end <= line.len(),
    ensures
        run_before(line, who, end) <= end,
        is_run(line, who, end - run_before(line, who, end), run_before(line, who, end) as int),
    decreases end,
{
    if end > 0 && line[end - 1] == Some(who) {
        lemma_run_before_is_run(line, who, end - 1);
    }
}

/// A run that ends at `start + len` is no longer than what `run_before`
/// counts there.
pub proof fn lemma_run_before_covers(line: Seq<Cell>, who: Player, start: int, len: int)
    requires
        is_run(line, who, start, len),
    ensures
        len <= run_before(line, who, start + len),
    decreases len,
{
    if len > 0 {
        lemma_run_before_covers(line, who, start, len - 1);
    }
}

/// The longest run within a prefix does not shrink as the prefix grows.
pub proof fn lemma_longest_run_within_grows(line: Seq<Cell>, who: Player, shorter: int, longer: int)
    requires
        shorter <= longer,
    ensures
        longest_run_within(line, who, shorter) <= longest_run_within(line, who, longer),
    decreases longer - shorter,
{
    if shorter < longer {
        lemma_longest_run_within_grows(line, who, shorter, longer - 1);
    }
}

/// Some run of `who` within the first `end` cells has the length that
/// `longest_run_within` gives.
pub proof fn lemma_longest_run_within_is_reached(line: Seq<Cell>, who: Player, end: int) -> (start:
    int)
    requires
        0 <= end <= line.len(),
    ensures
        is_run(line, who, start, longest_run_within(line, who, end) as int),
        start + longest_run_within(line, who, end) <= end,
    decreases end,
{
    if end <= 0 {
        0
    } else if run_before(line, who, end) > longest_run_within(line, who, end - 1) {
        lemma_run_before_is_run(line, who, end);
        end - run_before(line, who, end)
    } else {
        lemma_longest_run_within_is_reached(line, who, end - 1)
    }
}

/// `longest_run` is the length of a run of `who` in `line`.
pub proof fn lemma_longest_run_is_reached(line: Seq<Cell>, who: Player)
    ensures
        longest_run(line, who) <= line.len(),
        exists|start: int| is_run(line, who, start, longest_run(line, who) as int),
{
    let start = lemma_longest_run_within_is_reached(line, who, line.len() as int);
    assert(is_run(line, who, start, longest_run(line, who) as int));
}

/// No run of `who` in `line` is longer than `longest_run`.
pub proof fn lemma_longest_run_is_longest(line: Seq<Cell>, who: Player, start: int, len: int)
    requires
        is_run(line, who, start, len),
    ensures
        len <= longest_run(line, who),
{
    lemma_run_before_covers(line, who, start, len);
    lemma_longest_run_within_grows(line, who, start + len, line.len() as int);
}

/// Where the scanner names a player, that player has a token on the line and
/// the run has at least one cell; no run is longer than the line.
pub proof fn lemma_series_names_a_present_player(line: Seq<Cell>)
    ensures
        series_of(line).1 <= line.len(),
        series_of(line).0 matches Some(who) ==> series_of(line).1 >= 1 && exists|i: int|
            0 <= i < line.len() && line[i] == Some(who),
{
    lemma_longest_run_is_reached(line, Player::Red);
    lemma_longest_run_is_reached(line, Player::Blue);
    if let Some(who) = series_of(line).0 {
        let start = choose|start: int| is_run(line, who, start, longest_run(line, who) as int);
        assert(line[start] == Some(who));
    }
}

/// Where the scanner names a player, the run it reports is a run of that
/// player on the line, and no run of either player on the line is longer.
pub proof fn lemma_series_is_the_longest_run(line: Seq<Cell>, who: Player, start: int, len: int)
    requires
        is_run(line, who, start, len),
    ensures
        len <= series_of(line).1,
        series_of(line).0 matches Some(named) ==> exists|at: int|
            is_run(line, named, at, series_of(line).1 as int),
{
    lemma_longest_run_is_longest(line, who, start, len);
    lemma_longest_run_is_reached(line, Player::Red);
    lemma_longest_run_is_reached(line, Player::Blue);
}

/// A player without a token on the line has no run there.
pub proof fn lemma_absent_player_has_no_run(line: Seq<Cell>, who: Player)
    requires
        forall|i: int| 0 <= i < line.len() ==> line[i] != Some(who),
    ensures
        longest_run(line, who) == 0,
{
    lemma_longest_run_is_reached(line, who);
    let start = choose|start: int| is_run(line, who, start, longest_run(line, who) as int);
    if longest_run(line, who) > 0 {
        assert(line[start] == Some(who));
    }
}

/// On a line without tokens, of whatever length, the scanner names nobody and
/// reports a length of 0.
pub proof fn lemma_series_of_empty_line(line: Seq<Cell>)
    requires
        forall|i: int| 0 <= i < line.len() ==> line[i] is None,
    ensures
        series_of(line) == (None::<Player>, 0nat),
{
    lemma_absent_player_has_no_run(line, Player::Red);
    lemma_absent_player_has_no_run(line, Player::Blue);
}

/// On a line of one cell that holds a token, the scanner names the token's
/// player and reports a length of 1.
pub proof fn lemma_series_of_single_token(who: Player)
    ensures
        series_of(seq![Some(who)]) == (Some(who), 1nat),
{
    let line = seq![Some(who)];
    reveal_with_fuel(longest_run_within, 2);
    reveal_with_fuel(run_before, 2);
    assert(line.len() == 1);
    assert(line[0] == Some(who));
    assert(longest_run(line, who) == 1);
    lemma_absent_player_has_no_run(line, who.other());
}

impl Field {
    /// Scans one line of cells and reports the longest unbroken run of a
    /// single player's tokens: the player who has it and its length. Where
    /// both players' longest runs are equally long (as on a line without
    /// tokens) no player is named, and the length is that of both.
    pub fn max_series(cells: &[Cell]) -> (found: (Cell, usize))
        ensures
            found.0 == series_of(cells@).0,
            found.1 == series_of(cells@).1,
    {
        let mut red_max: usize = 0;
        let mut blue_max: usize = 0;
        let mut prev_player: Cell = None;
        let mut series: usize = 0;
        let mut at: usize = 0;
        while at < cells.len()
            invariant
                at <= cells.len(),
                series <= at,
                prev_player == (if at == 0 {
                    None
                } else {
                    cells@[at - 1]
                }),
                prev_player matches Some(who) ==> series == run_before(cells@, who, at as int),
                longest_run_within(cells@, Player::Red, at as int) == (if prev_player == Some(
                    Player::Red,
                ) && series > red_max {
                    series
                } else {
                    red_max
                }),
                longest_run_within(cells@, Player::Blue, at as int) == (if prev_player == Some(
                    Player::Blue,
                ) && series > blue_max {
                    series
                } else {
                    blue_max
                }),
            decreases cells.len() - at,
        {
            let curr_player: Cell = cells[at];
            match (curr_player, prev_player) {
                (Some(_), None) => {
                    series = 1;
                },
                (Some(Player::Red), Some(Player::Red)) | (Some(Player::Blue), Some(Player::Blue)) => {
                    series += 1;
                },
                (None, Some(Player::Red)) | (Some(Player::Blue), Some(Player::Red)) => {
                    if series > red_max {
                        red_max = series;
                    }
                    series = 1;
                },
                (None, Some(Player::Blue)) | (Some(Player::Red), Some(Player::Blue)) => {
                    if series > blue_max {
                        blue_max = series;
                    }
                    series = 1;
                },
                (None, None) => {},
            }
            prev_player = curr_player;
            at += 1;
        }
        match prev_player {
            Some(Player::Blue) => {
                if series > blue_max {
                    blue_max = series;
                }
            },
            Some(Player::Red) => {
                if series > red_max {
                    red_max = series;
                }
            },
            None => {},
        }
        if red_max == blue_max {
            return (None, red_max);
        }
        if red_max > blue_max {
            (Some(Player::Red), red_max)
        } else {
            (Some(Player::Blue), blue_max)
        }
    }
}

} // verus!
