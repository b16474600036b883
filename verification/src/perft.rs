//! Counting the lines of play of a position, the usual test of a move
//! generator.

use vstd::prelude::*;
use crate::board::Board;
use crate::move_app::{apply_move, make_move, unmake_move};
use crate::movegen::{generate_moves, legal_moves, Move};
use crate::rules::lemma_legal_move_round_trip;

verus! {

/// The number of lines of play of `depth` plies from `b`. A line that ends
/// before `depth` in a finished game does not count.
pub open spec fn leaf_count(b: Board, depth: nat) -> nat
    decreases depth, 1nat, 0nat,
{
    if depth == 0 {
        1
    } else {
        lines_through(b, legal_moves(b), depth)
    }
}

/// The number of lines of play of `depth` plies from `b` that begin with
/// one of `moves`.
pub open spec fn lines_through(b: Board, moves: Seq<Move>, depth: nat) -> nat
    decreases depth, 0nat, moves.len(),
{
    if depth == 0 || moves.len() == 0 {
        0
    } else {
        lines_through(b, moves.drop_last(), depth) + leaf_count(
            apply_move(b, moves.last()),
            (depth - 1) as nat,
        )
    }
}

/// `n`, or the largest number that 64 bits hold where `n` is larger.
pub open spec fn capped(n: nat) -> u64 {
    if n <= u64::MAX {
        n as u64
    } else {
        u64::MAX
    }
}

/// Counts the lines of play of `depth` plies from `board`, playing every
/// move and taking it back. `max_depth` is the depth at which the count
/// began; the count does not depend on it.
pub fn perft(board: &mut Board, depth: u8, max_depth: u8) -> (nodes: u64)
    requires
        old(board).wf(),
        old(board).full_move + depth <= u32::MAX,
    ensures
        *final(board) == *old(board),
        nodes == capped(leaf_count(*old(board), depth as nat)),
    decreases depth,
{
    if depth == 0 {
        return 1;
    }
    let ghost b = *board;
    let moves = generate_moves(board);
    let mut nodes: u64 = 0;
    let mut i: usize = 0;
    while i < moves.len()
        invariant
            i <= moves.len(),
            depth > 0,
            *board == b,
            b.wf(),
            b.full_move + depth <= u32::MAX,
            moves@ == legal_moves(b),
            nodes == capped(lines_through(b, moves@.take(i as int), depth as nat)),
        decreases moves.len() - i,
    {
        proof {
            lemma_legal_move_round_trip(b, i as int);
            assert(moves@.take(i + 1).drop_last() == moves@.take(i as int));
        }
        let delta = make_move(board, &moves[i]);
        let inc = perft(board, depth - 1, max_depth);
        nodes = nodes.saturating_add(inc);
        unmake_move(board, &moves[i], delta);
        i += 1;
    }
    assert(moves@.take(i as int) == moves@);
    nodes
}

} // verus!
