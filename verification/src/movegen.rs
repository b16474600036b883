//! Moves and their generation.

use vstd::prelude::*;
use crate::bits::{
    jumps, lemma_lowest_square, lemma_no_squares, neighbours, squares_of, BOARD_MASK, NOT_FILE_A,
    NOT_FILE_G,
};
use crate::board::Board;

verus! {

/// A pass, or a stone landing on `to`. A stone that jumps leaves `from`; a
/// stone that is placed has no origin, and `from` is 0. `capture_square`
/// holds the stones of the other side that change colour.
#[derive(Clone, Copy, PartialEq, Eq, PartialOrd, Ord, Debug, Hash, Structural)]
pub struct Move {
    pub null: bool,
    pub from: u64,
    pub to: u64,
    pub capture_square: u64,
}

/// The pass.
pub open spec fn null_move() -> Move {
    Move { null: true, from: 0, to: 0, capture_square: 0 }
}

/// The move that lands on `to`, coming from `from`, against the stones
/// `theirs`: it captures their stones next to `to`.
pub open spec fn move_onto(from: u64, to: u64, theirs: u64) -> Move {
    Move { null: false, from, to, capture_square: neighbours(to) & theirs }
}

/// One move from `from` onto each of `targets`, in their order.
pub open spec fn moves_onto(from: u64, targets: Seq<u64>, theirs: u64) -> Seq<Move> {
    Seq::new(targets.len(), |k: int| move_onto(from, targets[k], theirs))
}

/// The squares on which the side to move can place a stone: empty and next
/// to one of its own.
pub open spec fn placement_targets(b: Board) -> u64 {
    neighbours(b.own()) & !b.occupied()
}

/// The squares to which the stone on `origin` can jump: empty and two steps
/// away.
pub open spec fn jump_targets(b: Board, origin: u64) -> u64 {
    jumps(origin) & !b.occupied()
}

/// The placements of the side to move, by ascending target.
pub open spec fn placements(b: Board) -> Seq<Move> {
    moves_onto(0, squares_of(placement_targets(b)), b.theirs())
}

/// The jumps of the stone on `origin`, by ascending target.
pub open spec fn jumps_from(b: Board, origin: u64) -> Seq<Move> {
    moves_onto(origin, squares_of(jump_targets(b, origin)), b.theirs())
}

/// The jumps of the stones on `origins`, origin by origin.
pub open spec fn jumps_of(b: Board, origins: Seq<u64>) -> Seq<Move>
    decreases origins.len(),
{
    if origins.len() == 0 {
        Seq::empty()
    } else {
        jumps_of(b, origins.drop_last()) + jumps_from(b, origins.last())
    }
}

/// Every placement and jump of the side to move: placements first, then the
/// jumps by ascending origin, each group by ascending target.
pub open spec fn real_moves(b: Board) -> Seq<Move> {
    placements(b) + jumps_of(b, squares_of(b.own()))
}

/// The legal moves of a position. A finished game has none. Otherwise the
/// side to move has its placements and jumps, or, where it has neither, the
/// pass alone.
pub open spec fn legal_moves(b: Board) -> Seq<Move> {
    if b.is_over() {
        Seq::empty()
    } else if real_moves(b).len() == 0 {
        seq![null_move()]
    } else {
        real_moves(b)
    }
}

/// The board squares one step away from a square of `bb`. For squares of
/// the board these are the squares at distance 1
/// ([`crate::bits::lemma_neighbours_squares`]).
pub fn singles(bb: u64) -> (r: u64)
    ensures
        r == neighbours(bb),
{
    (bb << 1 | bb >> 1 | bb << 8 | bb >> 8 | bb << 9 | bb >> 9 | bb << 7 | bb >> 7) & BOARD_MASK
}

/// The board squares two steps away from a square of `bb`. For squares of
/// the board these are the squares at distance 2
/// ([`crate::bits::lemma_jumps_squares`]).
pub fn doubles(bb: u64) -> (r: u64)
    ensures
        r == jumps(bb),
{
    ((bb << 2 | bb << 10 | bb << 18 | bb >> 6 | bb >> 14 | bb << 17 | bb >> 15) & NOT_FILE_A) | ((bb
        << 16 | bb >> 16) & BOARD_MASK) | ((bb >> 2 | bb >> 10 | bb >> 18 | bb << 6 | bb << 14 | bb
        << 15 | bb >> 17) & NOT_FILE_G)
}

/// Appends to `out` the moves of a stone from `from` onto the squares of
/// `targets`, by ascending target.
fn push_moves(out: &mut Vec<Move>, from: u64, targets: u64, theirs: u64)
    ensures
        final(out)@ == old(out)@ + moves_onto(from, squares_of(targets), theirs),
{
    let ghost before = out@;
    let ghost done: Seq<u64> = Seq::empty();
    let mut left = targets;
    while left != 0
        invariant
            squares_of(targets) == done + squares_of(left),
            out@ == before + moves_onto(from, done, theirs),
        decreases left,
    {
        proof {
            lemma_lowest_square(left);
        }
        let to_mask: u64 = 1u64 << (left.trailing_zeros() as u64);
        left ^= to_mask;
        let captures = singles(to_mask) & theirs;
        out.push(Move { null: false, from, to: to_mask, capture_square: captures });
        proof {
            let grown = done.push(to_mask);
            assert(grown + squares_of(left) == done + (seq![to_mask] + squares_of(left)));
            assert(out@ == before + moves_onto(from, grown, theirs));
            done = grown;
        }
    }
    proof {
        lemma_no_squares();
        assert(done + Seq::<u64>::empty() == done);
    }
}

/// The legal moves of `board`, in a fixed order: placements by ascending
/// target, then jumps by ascending origin and target. A finished game has no
/// move; a side that can neither place nor jump passes.
pub fn generate_moves(board: &Board) -> (moves: Vec<Move>)
    ensures
        moves@ == legal_moves(*board),
{
    if board.game_over() {
        return Vec::new();
    }
    let mut out: Vec<Move> = Vec::new();
    let mut my_pieces = board.current_pieces();
    let other_pieces = board.other_pieces();
    let all_blockers = board.blockers();

    push_moves(&mut out, 0, singles(my_pieces) & !all_blockers, other_pieces);
    assert(out@ == placements(*board));

    let ghost done: Seq<u64> = Seq::empty();
    while my_pieces != 0
        invariant
            squares_of(board.own()) == done + squares_of(my_pieces),
            out@ == placements(*board) + jumps_of(*board, done),
            other_pieces == board.theirs(),
            all_blockers == board.occupied(),
        decreases my_pieces,
    {
        proof {
            lemma_lowest_square(my_pieces);
        }
        let from_mask: u64 = 1u64 << (my_pieces.trailing_zeros() as u64);
        my_pieces ^= from_mask;
        push_moves(&mut out, from_mask, doubles(from_mask) & !all_blockers, other_pieces);
        proof {
            let grown = done.push(from_mask);
            assert(grown.drop_last() == done);
            assert(grown + squares_of(my_pieces) == done + (seq![from_mask] + squares_of(
                my_pieces,
            )));
            assert(out@ == placements(*board) + jumps_of(*board, grown));
            done = grown;
        }
    }
    proof {
        lemma_no_squares();
        assert(done + Seq::<u64>::empty() == done);
    }

    if out.len() == 0 {
        out.push(Move { null: true, from: 0, to: 0, capture_square: 0 });
        assert(out@ == seq![null_move()]);
    }
    out
}

} // verus!
