//! Chance: the draws that break ties and pick winners.

use vstd::prelude::*;

verus! {

/// What a tie-break between two free sides keeps: with both free, the left
/// one on a draw of zero and the right one otherwise; else what was free.
pub open spec fn spec_break_tie(left: bool, right: bool, draw: usize) -> (bool, bool) {
    if left && right {
        (draw == 0, draw != 0)
    } else {
        (left, right)
    }
}

/// Settles which of two sides a cell moves to, given a draw for the case
/// that both are free.
pub fn break_tie(left: bool, right: bool, draw: usize) -> (sides: (bool, bool))
    ensures
        sides == spec_break_tie(left, right, draw),
        !(sides.0 && sides.1),
        (sides.0 || sides.1) == (left || right),
        sides.0 ==> left,
        sides.1 ==> right,
{
    if left && right {
        (draw == 0, draw != 0)
    } else {
        (left, right)
    }
}

/// Draws a number below `n` from the process-wide generator, by
/// `macroquad::rand::gen_range(0, n)`. Not proved, but taken from that
/// function's code: it multiplies `n` by a 32-bit draw divided by two to the
/// power 32, a factor below one, and cuts off the fraction; so for `n > 0`
/// the result is below `n`, whatever the state of the generator. Which
/// number comes is not stated.
#[verifier::external_body]
pub(crate) fn random_below(n: usize) -> (draw: usize)
    requires
        n > 0,
    ensures
        draw < n,
{
    macroquad::rand::gen_range(0usize, n)
}

} // verus!
