//! How a line extractor walks through its lines: it stands at a position,
//! hands out the line there and moves on by one, until no line is left.

use vstd::prelude::*;

verus! {

/// Where an extractor of `count` lines stands after one more request, when it
/// stood at `position` before: one further while a line is left, else where
/// it was.
pub open spec fn advance(count: nat, position: nat) -> nat {
    if position < count {
        position + 1
    } else {
        position
    }
}

/// Where an extractor of `count` lines that starts at `start` stands after
/// `requests` requests.
pub open spec fn position_after(count: nat, start: nat, requests: nat) -> nat
    decreases requests,
{
    if requests == 0 {
        start
    } else {
        advance(count, position_after(count, start, (requests - 1) as nat))
    }
}

/// How many lines an extractor of `count` lines has left at `position`.
pub open spec fn lines_left(count: nat, position: nat) -> nat {
    if position < count {
        (count - position) as nat
    } else {
        0
    }
}

/// An extractor that starts within its lines moves on by one with each
/// request until it reaches their end, and stays there.
pub proof fn lemma_position_after(count: nat, start: nat, requests: nat)
    requires
        start <= count,
    ensures
        position_after(count, start, requests) == (if start + requests <= count {
            start + requests
        } else {
            count
        }),
    decreases requests,
{
    if requests > 0 {
        lemma_position_after(count, start, (requests - 1) as nat);
    }
}

/// An extractor that starts beyond its lines never moves.
pub proof fn lemma_position_after_the_end(count: nat, start: nat, requests: nat)
    requires
        start >= count,
    ensures
        position_after(count, start, requests) == start,
    decreases requests,
{
    if requests > 0 {
        lemma_position_after_the_end(count, start, (requests - 1) as nat);
    }
}

} // verus!
