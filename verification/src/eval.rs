//! The leaf evaluation: the material balance of the side to move.

use vstd::prelude::*;
use crate::bits::{count_below, popcount};
use crate::board::Board;

verus! {

/// Stones of the side to move minus stones of the other side.
pub open spec fn material(b: Board) -> int {
    popcount(b.own()) - popcount(b.theirs())
}

/// A mask holds at most as many squares as there are indices.
pub proof fn lemma_count_bound(bb: u64, n: nat)
    ensures
        count_below(bb, n) <= n,
    decreases n,
{
    if n > 0 {
        lemma_count_bound(bb, (n - 1) as nat);
    }
}

pub struct Eval {}

impl Eval {
    pub fn new() -> Eval {
        Eval {  }
    }

    /// The score of `board` for the side to move.
    pub fn evaluate(&self, board: &Board) -> (score: i32)
        ensures
            score == material(*board),
            -64 <= score <= 64,
    {
        let us = board.current_pieces();
        let them = board.other_pieces();
        proof {
            lemma_count_bound(us, 64);
            lemma_count_bound(them, 64);
        }
        us.count_ones() as i32 - them.count_ones() as i32
    }
}

} // verus!
