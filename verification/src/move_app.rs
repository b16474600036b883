//! Playing a move on a board and taking it back.

use vstd::prelude::*;
use crate::bits::{lemma_commute, within_board, BOARD_MASK};
use crate::board::{lemma_same_position, BitBoard, Board, Side};
use crate::movegen::Move;

verus! {

/// What a move changed on the board.
pub struct Delta {
    pub old_spot: BitBoard,
    pub captures: BitBoard,
}

/// The stones of the mover after the move.
pub open spec fn mover_after(own: u64, m: Move) -> u64 {
    if m.null {
        own
    } else {
        ((own | m.to) ^ m.from) | m.capture_square
    }
}

/// The stones of the other side after the move.
pub open spec fn other_after(theirs: u64, m: Move) -> u64 {
    if m.null {
        theirs
    } else {
        theirs ^ m.capture_square
    }
}

/// The half-move clock after the move: a capture resets it.
pub open spec fn half_move_after(b: Board, m: Move) -> int {
    if m.capture_square != 0 {
        0
    } else {
        b.half_move + 1
    }
}

/// The full-move counter after the move: it advances when White has moved.
pub open spec fn full_move_after(b: Board, m: Move) -> int {
    if b.side_to_move == Side::White {
        b.full_move + 1
    } else {
        b.full_move as int
    }
}

/// The counters have room for the move.
pub open spec fn can_apply(b: Board, m: Move) -> bool {
    half_move_after(b, m) <= u8::MAX && full_move_after(b, m) <= u32::MAX
}

/// The position after `m` is played on `b`: the stone lands on `m.to` and
/// leaves `m.from`, the captured stones change sides, the turn passes.
pub open spec fn apply_move(b: Board, m: Move) -> Board {
    let mover = mover_after(b.own(), m);
    let other = other_after(b.theirs(), m);
    Board {
        blockers: b.blockers,
        boards: if b.side_to_move == Side::Black {
            [mover, other]
        } else {
            [other, mover]
        },
        side_to_move: b.side_to_move.flip(),
        half_move: half_move_after(b, m) as u8,
        full_move: full_move_after(b, m) as u32,
    }
}

/// The stones of the side that made `m`, before the move. `mover` is what
/// that side has now.
pub open spec fn mover_before(mover: u64, m: Move) -> u64 {
    if m.null {
        mover
    } else {
        ((mover | m.from) ^ m.to) ^ m.capture_square
    }
}

/// The stones of the side that did not make `m`, before the move.
pub open spec fn other_before(other: u64, m: Move) -> u64 {
    if m.null {
        other
    } else {
        other | m.capture_square
    }
}

/// The position before `m` was played, given the position after it and the
/// half-move clock of before.
pub open spec fn revert_move(b: Board, m: Move, old_half_move: u8) -> Board {
    let mover = mover_before(b.theirs(), m);
    let other = other_before(b.own(), m);
    Board {
        blockers: b.blockers,
        boards: if b.side_to_move == Side::White {
            [mover, other]
        } else {
            [other, mover]
        },
        side_to_move: b.side_to_move.flip(),
        half_move: old_half_move,
        full_move: if b.side_to_move == Side::Black {
            (b.full_move - 1) as u32
        } else {
            b.full_move
        },
    }
}

/// A move fits a position when it is a pass, or when it lands on an empty
/// board square, leaves a square of the mover (or none) and captures stones
/// of the other side only.
pub open spec fn move_fits(b: Board, m: Move) -> bool {
    m.null || {
        &&& within_board(m.to)
        &&& m.to & b.occupied() == 0
        &&& m.from & b.own() == m.from
        &&& m.capture_square & b.theirs() == m.capture_square
    }
}

proof fn lemma_round_trip_masks(own: u64, theirs: u64, blockers: u64, to: u64, from: u64, cap: u64)
    by (bit_vector)
    requires
        own & theirs == 0,
        to & (own | theirs | blockers) == 0 || to & (theirs | own | blockers) == 0,
        from & own == from,
        cap & theirs == cap,
    ensures
        (((((own | to) ^ from) | cap) | from) ^ to) ^ cap == own,
        (theirs ^ cap) | cap == theirs,
{
}

proof fn lemma_fitting_masks_stay_apart(
    own: u64,
    theirs: u64,
    blockers: u64,
    to: u64,
    from: u64,
    cap: u64,
)
    by (bit_vector)
    requires
        own & !BOARD_MASK == 0,
        theirs & !BOARD_MASK == 0,
        to & !BOARD_MASK == 0,
        own & theirs == 0,
        own & blockers == 0,
        theirs & blockers == 0,
        to & (own | theirs | blockers) == 0 || to & (theirs | own | blockers) == 0,
        from & own == from,
        cap & theirs == cap,
    ensures
        (((own | to) ^ from) | cap) & !BOARD_MASK == 0,
        (theirs ^ cap) & !BOARD_MASK == 0,
        (((own | to) ^ from) | cap) & (theirs ^ cap) == 0,
        (theirs ^ cap) & (((own | to) ^ from) | cap) == 0,
        (((own | to) ^ from) | cap) & blockers == 0,
        (theirs ^ cap) & blockers == 0,
{
}

/// Taking back a fitting move restores the position bit for bit: both stone
/// sets, the blocked squares, the side to move and both counters.
pub proof fn lemma_revert_apply(b: Board, m: Move)
    requires
        b.wf(),
        move_fits(b, m),
        can_apply(b, m),
    ensures
        revert_move(apply_move(b, m), m, b.half_move) == b,
{
    if !m.null {
        lemma_commute(b.boards[0], b.boards[1]);
        lemma_round_trip_masks(b.own(), b.theirs(), b.blockers, m.to, m.from, m.capture_square);
    }
    lemma_same_position(revert_move(apply_move(b, m), m, b.half_move), b);
}

/// A fitting move leads from a well-formed position to a well-formed one.
pub proof fn lemma_apply_keeps_wf(b: Board, m: Move)
    requires
        b.wf(),
        move_fits(b, m),
    ensures
        apply_move(b, m).wf(),
{
    if !m.null {
        lemma_commute(b.boards[0], b.boards[1]);
        lemma_fitting_masks_stay_apart(
            b.own(),
            b.theirs(),
            b.blockers,
            m.to,
            m.from,
            m.capture_square,
        );
    }
}

/// Plays `mov` on `board` and returns the half-move clock of before, which
/// [`unmake_move`] needs to take the move back.
pub fn make_move(board: &mut Board, mov: &Move) -> (old_half_move: u8)
    requires
        can_apply(*old(board), *mov),
    ensures
        *final(board) == apply_move(*old(board), *mov),
        old_half_move == old(board).half_move,
{
    if !mov.null {
        match board.side_to_move {
            Side::Black => {
                board.boards[0] = board.boards[0] | mov.to;
                board.boards[0] = board.boards[0] ^ mov.from;
                board.boards[1] = board.boards[1] ^ mov.capture_square;
                board.boards[0] = board.boards[0] | mov.capture_square;
            },
            Side::White => {
                board.boards[1] = board.boards[1] | mov.to;
                board.boards[1] = board.boards[1] ^ mov.from;
                board.boards[0] = board.boards[0] ^ mov.capture_square;
                board.boards[1] = board.boards[1] | mov.capture_square;
            },
        }
    }
    board.side_to_move = board.side_to_move.not();
    if board.side_to_move == Side::Black {
        board.full_move += 1;
    }
    let old_half_move = board.half_move;
    if mov.capture_square != 0 {
        board.half_move = 0;
    } else {
        board.half_move += 1;
    }
    proof {
        lemma_same_position(*board, apply_move(*old(board), *mov));
    }
    old_half_move
}

/// Takes `mov` back. `old_half_move` is what [`make_move`] returned for it.
pub fn unmake_move(board: &mut Board, mov: &Move, old_half_move: u8)
    requires
        old(board).side_to_move == Side::Black ==> old(board).full_move > 0,
    ensures
        *final(board) == revert_move(*old(board), *mov, old_half_move),
{
    board.half_move = old_half_move;
    if board.side_to_move == Side::Black {
        board.full_move -= 1;
    }
    board.side_to_move = board.side_to_move.not();
    if !mov.null {
        match board.side_to_move {
            Side::Black => {
                board.boards[0] = board.boards[0] | mov.from;
                board.boards[0] = board.boards[0] ^ mov.to;
                board.boards[1] = board.boards[1] | mov.capture_square;
                board.boards[0] = board.boards[0] ^ mov.capture_square;
            },
            Side::White => {
                board.boards[1] = board.boards[1] | mov.from;
                board.boards[1] = board.boards[1] ^ mov.to;
                board.boards[0] = board.boards[0] | mov.capture_square;
                board.boards[1] = board.boards[1] ^ mov.capture_square;
            },
        }
    }
    proof {
        lemma_same_position(*board, revert_move(*old(board), *mov, old_half_move));
    }
}

} // verus!
