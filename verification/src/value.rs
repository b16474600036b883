//! What a search is to find: the score of a position when both sides play
//! their best for a number of plies.

use vstd::prelude::*;
use crate::board::{Board, Side, Status};
use crate::eval::{lemma_count_bound, material};
use crate::move_app::apply_move;
use crate::movegen::{legal_moves, Move};

verus! {

/// The score of a won game.
pub const WIN_SCORE: i32 = 1000;

/// The bound of the window with which a search starts.
pub const WINDOW: i32 = 100_000;

/// The score of `b` for the side to move when it is not searched further:
/// the result of a finished game, else the material balance.
pub open spec fn leaf_score(b: Board) -> int {
    match b.outcome() {
        Status::Draw => 0,
        Status::Winner => WIN_SCORE as int,
        Status::Loser => -WIN_SCORE,
        Status::Ongoing => material(b),
    }
}

/// The score of `b` for the side to move, `depth` plies deep: that of its
/// best move, a move being worth what the position after it costs the other
/// side.
pub open spec fn minimax(b: Board, depth: nat) -> int
    decreases depth, 2nat, 0nat,
{
    if depth == 0 || b.is_over() {
        leaf_score(b)
    } else {
        best_of(b, legal_moves(b), depth)
    }
}

/// The score of the best of `moves` on `b`; the lowest number where there
/// is no move.
pub open spec fn best_of(b: Board, moves: Seq<Move>, depth: nat) -> int
    decreases depth, 1nat, moves.len(),
{
    if moves.len() == 0 {
        i32::MIN as int
    } else {
        let head = best_of(b, moves.drop_last(), depth);
        let last = reply_score(b, moves.last(), depth);
        if last > head {
            last
        } else {
            head
        }
    }
}

/// What the move `m` on `b` is worth to the side that makes it, `depth`
/// plies deep, the move included.
pub open spec fn reply_score(b: Board, m: Move, depth: nat) -> int
    decreases depth, 0nat, 0nat,
{
    if depth == 0 {
        0
    } else {
        -minimax(apply_move(b, m), (depth - 1) as nat)
    }
}

/// The score of `b` as `side` sees it, `depth` plies deep: `side` takes the
/// move that is best for it when it is to move, and has to expect the move
/// that is worst for it when the other side is.
pub open spec fn score_for(b: Board, depth: nat, side: Side) -> int
    decreases depth, 1nat, 0nat,
{
    if depth == 0 || b.is_over() {
        if side == b.side_to_move {
            leaf_score(b)
        } else {
            -leaf_score(b)
        }
    } else {
        choice_for(b, legal_moves(b), depth, side)
    }
}

/// The score that `side` gets from `moves` on `b`: the highest when `side`
/// chooses, the lowest when the other side does.
pub open spec fn choice_for(b: Board, moves: Seq<Move>, depth: nat, side: Side) -> int
    decreases depth, 0nat, moves.len(),
{
    if depth == 0 {
        0
    } else if moves.len() == 0 {
        if side == b.side_to_move {
            i32::MIN as int
        } else {
            -(i32::MIN as int)
        }
    } else {
        let head = choice_for(b, moves.drop_last(), depth, side);
        let last = score_for(apply_move(b, moves.last()), (depth - 1) as nat, side);
        if side == b.side_to_move {
            if last > head {
                last
            } else {
                head
            }
        } else {
            if last < head {
                last
            } else {
                head
            }
        }
    }
}

/// A leaf is worth at most a win and at least a loss.
pub proof fn lemma_leaf_bounded(b: Board)
    ensures
        -WIN_SCORE <= leaf_score(b) <= WIN_SCORE,
{
    lemma_count_bound(b.own(), 64);
    lemma_count_bound(b.theirs(), 64);
}

/// No move of a list is worth more than the best of them.
pub proof fn lemma_best_is_upper(b: Board, moves: Seq<Move>, depth: nat, m: Move)
    requires
        moves.contains(m),
    ensures
        reply_score(b, m, depth) <= best_of(b, moves, depth),
    decreases moves.len(),
{
    if moves.last() != m {
        let k = choose|k: int| 0 <= k < moves.len() && moves[k] == m;
        assert(moves.drop_last()[k] == m);
        lemma_best_is_upper(b, moves.drop_last(), depth, m);
    }
}

/// The best of a list of moves is the score of one of them. Returns it.
pub proof fn lemma_best_is_attained(b: Board, moves: Seq<Move>, depth: nat) -> (m: Move)
    requires
        moves.len() > 0,
        forall|k: int| 0 <= k < moves.len() ==> reply_score(b, #[trigger] moves[k], depth) >= i32::MIN,
    ensures
        moves.contains(m),
        reply_score(b, m, depth) == best_of(b, moves, depth),
    decreases moves.len(),
{
    let head = best_of(b, moves.drop_last(), depth);
    let last = reply_score(b, moves.last(), depth);
    if last > head || moves.len() == 1 {
        assert(moves[moves.len() - 1] == moves.last());
        moves.last()
    } else {
        assert forall|k: int| 0 <= k < moves.drop_last().len() implies reply_score(
            b,
            #[trigger] moves.drop_last()[k],
            depth,
        ) >= i32::MIN by {
            assert(moves.drop_last()[k] == moves[k]);
        }
        let m = lemma_best_is_attained(b, moves.drop_last(), depth);
        let k = choose|k: int| 0 <= k < moves.drop_last().len() && moves.drop_last()[k] == m;
        assert(moves[k] == m);
        m
    }
}

/// A score lies between a loss and a win.
pub proof fn lemma_minimax_bounded(b: Board, depth: nat)
    ensures
        -WIN_SCORE <= minimax(b, depth) <= WIN_SCORE,
    decreases depth, 1nat,
{
    if depth == 0 || b.is_over() {
        lemma_leaf_bounded(b);
    } else {
        let moves = legal_moves(b);
        assert(moves.len() > 0);
        assert forall|k: int| 0 <= k < moves.len() implies -WIN_SCORE <= reply_score(
            b,
            #[trigger] moves[k],
            depth,
        ) <= WIN_SCORE by {
            lemma_minimax_bounded(apply_move(b, moves[k]), (depth - 1) as nat);
        }
        let m = lemma_best_is_attained(b, moves, depth);
    }
}

/// What a move is worth lies between a loss and a win.
pub proof fn lemma_reply_bounded(b: Board, m: Move, depth: nat)
    ensures
        -WIN_SCORE <= reply_score(b, m, depth) <= WIN_SCORE,
{
    if depth > 0 {
        lemma_minimax_bounded(apply_move(b, m), (depth - 1) as nat);
    }
}

/// The two sides see one position with opposite scores: what it is worth to
/// one, at any depth, it costs the other.
pub proof fn lemma_sides_see_opposite_scores(b: Board, depth: nat, side: Side)
    ensures
        score_for(b, depth, side) == -score_for(b, depth, side.flip()),
    decreases depth, 1nat, 0nat,
{
    if !(depth == 0 || b.is_over()) {
        lemma_choices_are_opposite(b, legal_moves(b), depth, side);
    }
}

proof fn lemma_choices_are_opposite(b: Board, moves: Seq<Move>, depth: nat, side: Side)
    requires
        depth > 0,
    ensures
        choice_for(b, moves, depth, side) == -choice_for(b, moves, depth, side.flip()),
    decreases depth, 0nat, moves.len(),
{
    if moves.len() > 0 {
        lemma_choices_are_opposite(b, moves.drop_last(), depth, side);
        lemma_sides_see_opposite_scores(apply_move(b, moves.last()), (depth - 1) as nat, side);
    }
}

/// The score of a position for the side to move is the score that this side
/// sees: the search that negates the score from ply to ply and the one that
/// maximises for one side and minimises for the other agree.
pub proof fn lemma_minimax_is_own_view(b: Board, depth: nat)
    ensures
        minimax(b, depth) == score_for(b, depth, b.side_to_move),
    decreases depth, 1nat, 0nat,
{
    if !(depth == 0 || b.is_over()) {
        lemma_best_is_own_choice(b, legal_moves(b), depth);
    }
}

proof fn lemma_best_is_own_choice(b: Board, moves: Seq<Move>, depth: nat)
    requires
        depth > 0,
    ensures
        best_of(b, moves, depth) == choice_for(b, moves, depth, b.side_to_move),
    decreases depth, 0nat, moves.len(),
{
    if moves.len() > 0 {
        lemma_best_is_own_choice(b, moves.drop_last(), depth);
        let next = apply_move(b, moves.last());
        let below = (depth - 1) as nat;
        lemma_minimax_is_own_view(next, below);
        lemma_sides_see_opposite_scores(next, below, b.side_to_move);
        assert(next.side_to_move == b.side_to_move.flip());
        assert(reply_score(b, moves.last(), depth) == -minimax(next, below));
        assert(reply_score(b, moves.last(), depth) == score_for(next, below, b.side_to_move));
    }
}

} // verus!
