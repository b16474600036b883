//! What holds of the generated moves: where they land, what they capture,
//! when a side passes, and that every one of them can be taken back.

use vstd::prelude::*;
use vstd::std_specs::bits::{axiom_u64_trailing_zeros, u64_trailing_zeros};
use crate::bits::{
    distance, has_square, jumps, lemma_commute, lemma_empty_mask, lemma_jumps_of_part, lemma_room,
    lemma_jumps_of_square, lemma_neighbours_of_square, lemma_neighbours_symmetric,
    lemma_single_square, lemma_square_at, lemma_square_listed, lemma_square_ops,
    lemma_squares_ascend, lemma_targets_within_board,
    lemma_within_board, neighbours, on_board, square_mask, squares_of, within_board, BOARD_MASK,
};
use crate::board::Board;
use crate::notation::lemma_lowest_of_one;
use crate::move_app::{apply_move, can_apply, lemma_revert_apply, move_fits, revert_move};
use crate::movegen::{
    jump_targets, jumps_from, jumps_of, legal_moves, null_move, placement_targets,
    placements, real_moves, Move,
};

verus! {

/// `m` places a stone on the empty board square `to`, next to the mover's
/// stone on `near`, and captures the other side's stones around `to`.
pub open spec fn is_placement(b: Board, m: Move, to: int, near: int) -> bool {
    &&& !m.null
    &&& m.from == 0
    &&& on_board(to)
    &&& m.to == square_mask(to)
    &&& !has_square(b.occupied(), to)
    &&& has_square(b.own(), near)
    &&& distance(near, to) == 1
    &&& m.capture_square == neighbours(m.to) & b.theirs()
}

/// `m` moves the mover's stone on `from` to the empty board square `to`, two
/// steps away, and captures the other side's stones around `to`.
pub open spec fn is_jump(b: Board, m: Move, from: int, to: int) -> bool {
    &&& !m.null
    &&& on_board(from)
    &&& m.from == square_mask(from)
    &&& has_square(b.own(), from)
    &&& on_board(to)
    &&& m.to == square_mask(to)
    &&& !has_square(b.occupied(), to)
    &&& distance(from, to) == 2
    &&& m.capture_square == neighbours(m.to) & b.theirs()
}

/// `m` is a placement or a jump on `b`.
pub open spec fn is_real_move(b: Board, m: Move) -> bool {
    (exists|to: int, near: int| is_placement(b, m, to, near)) || (exists|from: int, to: int|
        is_jump(b, m, from, to))
}

/// `mask` is one square, and a stone of the mover stands on it.
pub open spec fn is_own_square(b: Board, mask: u64) -> bool {
    exists|from: int| #[trigger] has_square(b.own(), from) && mask == square_mask(from)
}

/// Each of `origins` is a square with a stone of the mover on it.
pub open spec fn all_own_squares(b: Board, origins: Seq<u64>) -> bool {
    forall|o: int| 0 <= o < origins.len() ==> is_own_square(b, #[trigger] origins[o])
}

/// The side to move can neither place nor jump.
pub open spec fn is_stuck(b: Board) -> bool {
    placement_targets(b) == 0 && jumps(b.own()) & !b.occupied() == 0
}

proof fn lemma_own_within_board(b: Board)
    requires
        b.wf(),
    ensures
        b.own() & !BOARD_MASK == 0,
        b.theirs() & !BOARD_MASK == 0,
        b.own() & b.theirs() == 0,
{
    lemma_commute(b.boards[0], b.boards[1]);
}

/// The move onto a square of `targets`, where these are empty board squares,
/// lands on such a square. Returns the square.
proof fn lemma_move_target(b: Board, from: u64, targets: u64, k: int) -> (to: int)
    requires
        targets & !BOARD_MASK == 0,
        0 <= k < squares_of(targets).len(),
    ensures
        on_board(to),
        has_square(targets, to),
        squares_of(targets)[k] == square_mask(to),
        within_board(square_mask(to)),
{
    let to = lemma_square_at(targets, 0, k);
    lemma_within_board(targets, to as u64);
    lemma_square_ops(BOARD_MASK, BOARD_MASK, to as u64);
    lemma_single_square(!BOARD_MASK, to as u64, to as u64);
    to
}

/// Every placement of the list is one.
proof fn lemma_placement_shape(b: Board, k: int)
    requires
        b.wf(),
        0 <= k < placements(b).len(),
    ensures
        is_real_move(b, placements(b)[k]),
        move_fits(b, placements(b)[k]),
{
    let targets = placement_targets(b);
    let m = placements(b)[k];
    lemma_own_within_board(b);
    lemma_targets_within_board(b.own());
    lemma_part_within_board(neighbours(b.own()), !b.occupied());
    let to = lemma_move_target(b, 0, targets, k);
    lemma_square_ops(neighbours(b.own()), !b.occupied(), to as u64);
    lemma_square_ops(b.occupied(), b.occupied(), to as u64);
    lemma_single_square(b.occupied(), to as u64, to as u64);
    lemma_neighbours_symmetric(b.own(), to as u64);
    let around = neighbours(square_mask(to)) & b.own();
    axiom_u64_trailing_zeros(around);
    let near = u64_trailing_zeros(around) as int;
    assert(has_square(around, near));
    lemma_square_ops(neighbours(square_mask(to)), b.own(), near as u64);
    lemma_neighbours_of_square(to as u64, near as u64);
    assert(distance(near, to) == 1);
    lemma_commute(b.own(), neighbours(m.to));
    lemma_commute(neighbours(m.to), b.theirs());
    assert(is_placement(b, m, to, near));
}

proof fn lemma_part_within_board(a: u64, b: u64)
    by (bit_vector)
    requires
        a & !BOARD_MASK == 0,
    ensures
        (a & b) & !BOARD_MASK == 0,
{
}

/// Every jump listed for the stone on a square of the mover is one.
proof fn lemma_jump_shape(b: Board, from: int, k: int)
    requires
        b.wf(),
        has_square(b.own(), from),
        0 <= k < jumps_from(b, square_mask(from)).len(),
    ensures
        is_real_move(b, jumps_from(b, square_mask(from))[k]),
        move_fits(b, jumps_from(b, square_mask(from))[k]),
{
    let origin = square_mask(from);
    let targets = jump_targets(b, origin);
    let m = jumps_from(b, origin)[k];
    lemma_own_within_board(b);
    lemma_within_board(b.own(), from as u64);
    lemma_targets_within_board(origin);
    lemma_part_within_board(jumps(origin), !b.occupied());
    let to = lemma_move_target(b, origin, targets, k);
    lemma_square_ops(jumps(origin), !b.occupied(), to as u64);
    lemma_square_ops(b.occupied(), b.occupied(), to as u64);
    lemma_single_square(b.occupied(), to as u64, to as u64);
    lemma_single_square(b.own(), from as u64, from as u64);
    lemma_jumps_of_square(from as u64, to as u64);
    assert(distance(from, to) == 2);
    lemma_commute(neighbours(m.to), b.theirs());
    assert(is_jump(b, m, from, to));
}

/// Every listed jump of stones of the mover is one.
proof fn lemma_jumps_shape(b: Board, origins: Seq<u64>, k: int)
    requires
        b.wf(),
        all_own_squares(b, origins),
        0 <= k < jumps_of(b, origins).len(),
    ensures
        is_real_move(b, jumps_of(b, origins)[k]),
        move_fits(b, jumps_of(b, origins)[k]),
    decreases origins.len(),
{
    let head = jumps_of(b, origins.drop_last());
    if k < head.len() {
        assert forall|o: int| 0 <= o < origins.drop_last().len() implies is_own_square(
            b,
            #[trigger] origins.drop_last()[o],
        ) by {
            assert(origins.drop_last()[o] == origins[o]);
        }
        lemma_jumps_shape(b, origins.drop_last(), k);
    } else {
        let last = origins[origins.len() - 1];
        assert(is_own_square(b, last));
        let from = choose|from: int| #[trigger] has_square(b.own(), from) && last == square_mask(from);
        lemma_jump_shape(b, from, k - head.len());
    }
}

/// The squares of the mover's stones, as the jump generator walks them.
proof fn lemma_origins(b: Board)
    ensures
        all_own_squares(b, squares_of(b.own())),
{
    assert forall|o: int| 0 <= o < squares_of(b.own()).len() implies is_own_square(
        b,
        #[trigger] squares_of(b.own())[o],
    ) by {
        let from = lemma_square_at(b.own(), 0, o);
        assert(has_square(b.own(), from) && squares_of(b.own())[o] == square_mask(from));
    }
}

/// Every listed placement and jump is one, and fits the position.
pub proof fn lemma_real_move_shape(b: Board, k: int)
    requires
        b.wf(),
        0 <= k < real_moves(b).len(),
    ensures
        is_real_move(b, real_moves(b)[k]),
        move_fits(b, real_moves(b)[k]),
{
    if k < placements(b).len() {
        lemma_placement_shape(b, k);
    } else {
        lemma_origins(b);
        lemma_jumps_shape(b, squares_of(b.own()), k - placements(b).len());
    }
}

/// Every generated move other than the pass lands on a square of the board
/// that was empty and not blocked. A placement lands next to a stone of the
/// mover; a jump takes a stone of the mover exactly two steps away; and the
/// capture mask holds the other side's stones around the target, nothing
/// else.
pub proof fn lemma_generated_move_shape(b: Board, k: int)
    requires
        b.wf(),
        0 <= k < legal_moves(b).len(),
    ensures
        legal_moves(b)[k] == null_move() || is_real_move(b, legal_moves(b)[k]),
        real_moves(b).len() != 0 ==> is_real_move(b, legal_moves(b)[k]),
        move_fits(b, legal_moves(b)[k]),
        legal_moves(b)[k].capture_square & !b.theirs() == 0,
{
    let m = legal_moves(b)[k];
    if real_moves(b).len() != 0 {
        lemma_real_move_shape(b, k);
        lemma_part_of_mask(neighbours(m.to), b.theirs());
    } else {
        lemma_part_of_mask(0, b.theirs());
    }
}

proof fn lemma_part_of_mask(a: u64, b: u64)
    by (bit_vector)
    ensures
        (a & b) & !b == 0,
        0u64 & !b == 0,
{
}

/// The squares that a real move captures are the squares next to its target
/// that held a stone of the other side.
pub proof fn lemma_captured_squares(b: Board, m: Move, to: int, sq: int)
    requires
        b.wf(),
        on_board(to),
        m.to == square_mask(to),
        m.capture_square == neighbours(m.to) & b.theirs(),
    ensures
        has_square(m.capture_square, sq) <==> has_square(b.theirs(), sq) && distance(sq, to) == 1,
{
    if 0 <= sq < 64 {
        lemma_own_within_board(b);
        lemma_square_ops(neighbours(m.to), b.theirs(), sq as u64);
        lemma_neighbours_of_square(to as u64, sq as u64);
        lemma_within_board(b.theirs(), sq as u64);
    }
}

/// A side is stuck exactly when no placement and no jump is listed for it.
proof fn lemma_stuck_has_no_moves(b: Board)
    requires
        b.wf(),
    ensures
        is_stuck(b) <==> real_moves(b).len() == 0,
{
    lemma_empty_mask(placement_targets(b));
    lemma_own_within_board(b);
    if is_stuck(b) {
        lemma_origins(b);
        lemma_no_jumps(b, squares_of(b.own()));
    } else if placement_targets(b) == 0 {
        lemma_some_jump(b);
    }
}

/// A side is stuck exactly when the position allows it no placement and no
/// jump.
pub proof fn lemma_stuck_is_without_moves(b: Board)
    requires
        b.wf(),
    ensures
        is_stuck(b) <==> forall|m: Move| !is_real_move(b, m),
{
    lemma_stuck_has_no_moves(b);
    if is_stuck(b) {
        assert forall|m: Move| !is_real_move(b, m) by {
            if is_real_move(b, m) {
                lemma_real_move_is_generated(b, m);
            }
        }
    } else {
        lemma_real_move_shape(b, 0);
    }
}

/// A side that can neither place nor jump, in a game that is not over, has
/// the pass as its one legal move; a side that can has no pass among its
/// moves.
pub proof fn lemma_pass_when_stuck(b: Board)
    requires
        b.wf(),
        !b.is_over(),
    ensures
        is_stuck(b) ==> legal_moves(b) == seq![null_move()],
        !is_stuck(b) ==> legal_moves(b) == real_moves(b) && real_moves(b).len() > 0,
        !is_stuck(b) ==> !legal_moves(b).contains(null_move()),
{
    lemma_stuck_has_no_moves(b);
    if !is_stuck(b) {
        assert forall|k: int| 0 <= k < legal_moves(b).len() implies legal_moves(b)[k]
            != null_move() by {
            lemma_generated_move_shape(b, k);
        }
    }
}

/// Where the mover's stones reach no empty square in two steps, none of
/// them has a jump.
proof fn lemma_no_jumps(b: Board, origins: Seq<u64>)
    requires
        jumps(b.own()) & !b.occupied() == 0,
        all_own_squares(b, origins),
    ensures
        jumps_of(b, origins).len() == 0,
    decreases origins.len(),
{
    if origins.len() > 0 {
        assert forall|o: int| 0 <= o < origins.drop_last().len() implies is_own_square(
            b,
            #[trigger] origins.drop_last()[o],
        ) by {
            assert(origins.drop_last()[o] == origins[o]);
        }
        lemma_no_jumps(b, origins.drop_last());
        let last = origins[origins.len() - 1];
        assert(is_own_square(b, last));
        let from = choose|from: int| #[trigger] has_square(b.own(), from) && last == square_mask(from);
        lemma_single_square(b.own(), from as u64, from as u64);
        lemma_jumps_of_part(last, b.own(), !b.occupied());
        lemma_empty_mask(jump_targets(b, last));
    }
}

/// The listed jumps of some origins include those of each of them.
proof fn lemma_jumps_grow(b: Board, origins: Seq<u64>, o: int)
    requires
        0 <= o < origins.len(),
    ensures
        jumps_of(b, origins).len() >= jumps_from(b, origins[o]).len(),
    decreases origins.len(),
{
    if o < origins.len() - 1 {
        lemma_jumps_grow(b, origins.drop_last(), o);
    }
}

/// Where the mover's stones reach an empty square in two steps, one of them
/// has a jump.
proof fn lemma_some_jump(b: Board)
    requires
        b.wf(),
        jumps(b.own()) & !b.occupied() != 0,
    ensures
        jumps_of(b, squares_of(b.own())).len() > 0,
{
    lemma_own_within_board(b);
    let free = jumps(b.own()) & !b.occupied();
    axiom_u64_trailing_zeros(free);
    let to = u64_trailing_zeros(free) as int;
    assert(has_square(free, to));
    lemma_square_ops(jumps(b.own()), !b.occupied(), to as u64);
    crate::bits::lemma_jumps_symmetric(b.own(), to as u64);
    let back = jumps(square_mask(to)) & b.own();
    axiom_u64_trailing_zeros(back);
    let from = u64_trailing_zeros(back) as int;
    assert(has_square(back, from));
    lemma_square_ops(jumps(square_mask(to)), b.own(), from as u64);
    lemma_jumps_of_square(to as u64, from as u64);
    lemma_jumps_of_square(from as u64, to as u64);
    let origin = square_mask(from);
    lemma_square_ops(jumps(origin), !b.occupied(), to as u64);
    assert(has_square(jump_targets(b, origin), to));
    lemma_empty_mask(jump_targets(b, origin));
    let o = lemma_square_listed(b.own(), 0, from);
    lemma_jumps_grow(b, squares_of(b.own()), o);
}

/// Playing a legal move and taking it back restores the position bit for
/// bit: both stone sets, the side to move, the half-move clock and the
/// full-move counter.
pub proof fn lemma_legal_move_round_trip(b: Board, k: int)
    requires
        b.wf(),
        0 <= k < legal_moves(b).len(),
        b.full_move < u32::MAX,
    ensures
        can_apply(b, legal_moves(b)[k]),
        apply_move(b, legal_moves(b)[k]).wf(),
        revert_move(apply_move(b, legal_moves(b)[k]), legal_moves(b)[k], b.half_move) == b,
{
    lemma_generated_move_shape(b, k);
    lemma_revert_apply(b, legal_moves(b)[k]);
    crate::move_app::lemma_apply_keeps_wf(b, legal_moves(b)[k]);
}

/// The listed jumps of some origins hold every jump of each of them.
/// Returns the place of jump `k` of origin `o`.
proof fn lemma_jump_listed(b: Board, origins: Seq<u64>, o: int, k: int) -> (at: int)
    requires
        0 <= o < origins.len(),
        0 <= k < jumps_from(b, origins[o]).len(),
    ensures
        0 <= at < jumps_of(b, origins).len(),
        jumps_of(b, origins)[at] == jumps_from(b, origins[o])[k],
    decreases origins.len(),
{
    if o < origins.len() - 1 {
        lemma_jump_listed(b, origins.drop_last(), o, k)
    } else {
        jumps_of(b, origins.drop_last()).len() + k
    }
}

/// Every placement and every jump that the position allows is among the
/// generated moves: the generator leaves no move out.
pub proof fn lemma_real_move_is_generated(b: Board, m: Move)
    requires
        b.wf(),
        is_real_move(b, m),
    ensures
        real_moves(b).contains(m),
        !b.is_over() ==> legal_moves(b).contains(m),
{
    lemma_own_within_board(b);
    if exists|to: int, near: int| is_placement(b, m, to, near) {
        let (to, near) = choose|to: int, near: int| is_placement(b, m, to, near);
        lemma_within_board(b.own(), near as u64);
        lemma_neighbours_of_square(to as u64, near as u64);
        lemma_square_ops(neighbours(square_mask(to)), b.own(), near as u64);
        lemma_single_square(neighbours(square_mask(to)) & b.own(), near as u64, near as u64);
        lemma_neighbours_symmetric(b.own(), to as u64);
        lemma_square_ops(b.occupied(), b.occupied(), to as u64);
        lemma_square_ops(neighbours(b.own()), !b.occupied(), to as u64);
        let k = lemma_square_listed(placement_targets(b), 0, to);
        assert(placements(b)[k] == m);
        assert(real_moves(b)[k] == m);
    } else {
        let (from, to) = choose|from: int, to: int| is_jump(b, m, from, to);
        let origin = square_mask(from);
        lemma_jumps_of_square(from as u64, to as u64);
        lemma_square_ops(b.occupied(), b.occupied(), to as u64);
        lemma_square_ops(jumps(origin), !b.occupied(), to as u64);
        let k = lemma_square_listed(jump_targets(b, origin), 0, to);
        assert(jumps_from(b, origin)[k] == m);
        let o = lemma_square_listed(b.own(), 0, from);
        let at = lemma_jump_listed(b, squares_of(b.own()), o, k);
        assert(real_moves(b)[placements(b).len() + at] == m);
    }
}

/// The legal moves of a game that is not over are the pass, for a side
/// that can neither place nor jump, or else exactly the placements and
/// jumps that the position allows.
pub proof fn lemma_legal_moves_are_the_real_moves(b: Board, m: Move)
    requires
        b.wf(),
        !b.is_over(),
    ensures
        legal_moves(b).contains(m) <==> if is_stuck(b) {
            m == null_move()
        } else {
            is_real_move(b, m)
        },
{
    lemma_pass_when_stuck(b);
    if legal_moves(b).contains(m) {
        let k = choose|k: int| 0 <= k < legal_moves(b).len() && legal_moves(b)[k] == m;
        lemma_generated_move_shape(b, k);
    }
    if is_stuck(b) {
        assert(seq![null_move()][0] == null_move());
    } else if is_real_move(b, m) {
        lemma_real_move_is_generated(b, m);
    }
}

/// `a` comes before `c` in the order of the generated moves: by origin,
/// a placement having none, then by target.
pub open spec fn comes_before(a: Move, c: Move) -> bool {
    a.from < c.from || (a.from == c.from && a.to < c.to)
}

/// The listed jumps of the first `p` origins are the first of the listed
/// jumps of the first `q`.
proof fn lemma_jumps_of_more(b: Board, origins: Seq<u64>, p: int, q: int)
    requires
        0 <= p <= q <= origins.len(),
    ensures
        jumps_of(b, origins.take(p)).len() <= jumps_of(b, origins.take(q)).len(),
    decreases q - p,
{
    if p < q {
        assert(origins.take(q).drop_last() == origins.take(q - 1));
        lemma_jumps_of_more(b, origins, p, q - 1);
    }
}

/// The listed jump at `at` is a jump of one of the origins. Returns the
/// origin and the place of the jump among the jumps of that origin.
proof fn lemma_jump_at(b: Board, origins: Seq<u64>, at: int) -> (place: (int, int))
    requires
        0 <= at < jumps_of(b, origins).len(),
    ensures
        0 <= place.0 < origins.len(),
        0 <= place.1 < jumps_from(b, origins[place.0]).len(),
        jumps_of(b, origins)[at] == jumps_from(b, origins[place.0])[place.1],
        at == jumps_of(b, origins.take(place.0)).len() + place.1,
    decreases origins.len(),
{
    let head = origins.drop_last();
    if at < jumps_of(b, head).len() {
        let place = lemma_jump_at(b, head, at);
        assert(head.take(place.0) == origins.take(place.0));
        place
    } else {
        assert(origins.take(origins.len() - 1) == head);
        (origins.len() - 1, at - jumps_of(b, head).len())
    }
}

/// The generated moves come in a fixed order: the placements first, by
/// ascending target; then the jumps by ascending origin, those of one
/// origin by ascending target. No move comes twice.
pub proof fn lemma_generated_order(b: Board, i: int, j: int)
    requires
        0 <= i < j < real_moves(b).len(),
    ensures
        comes_before(real_moves(b)[i], real_moves(b)[j]),
        real_moves(b)[i] != real_moves(b)[j],
{
    let first = placements(b).len() as int;
    let origins = squares_of(b.own());
    if j < first {
        lemma_squares_ascend(placement_targets(b), i, j);
    } else {
        let (o2, k2) = lemma_jump_at(b, origins, j - first);
        let f2 = lemma_square_at(b.own(), 0, o2);
        lemma_single_square(0, f2 as u64, f2 as u64);
        if i >= first {
            let (o1, k1) = lemma_jump_at(b, origins, i - first);
            if o1 == o2 {
                lemma_squares_ascend(jump_targets(b, origins[o1]), k1, k2);
            } else if o1 < o2 {
                lemma_squares_ascend(b.own(), o1, o2);
            } else {
                lemma_jumps_of_more(b, origins, o2 + 1, o1);
                assert(origins.take(o2 + 1).drop_last() == origins.take(o2));
            }
        }
    }
}

/// The position with the other side to move.
pub open spec fn turned(b: Board) -> Board {
    Board { side_to_move: b.side_to_move.flip(), ..b }
}

/// A position has room exactly when one of the two sides could place or
/// jump if it were to move: a game ends for want of room only when neither
/// side has a move left.
pub proof fn lemma_room_is_a_move(b: Board)
    requires
        b.wf(),
    ensures
        b.has_room() <==> !is_stuck(b) || !is_stuck(turned(b)),
{
    lemma_stones_are_occupied(b.boards[0], b.boards[1], b.blockers);
    lemma_room(b.boards[0], b.boards[1], !b.occupied());
}

proof fn lemma_stones_are_occupied(x: u64, y: u64, z: u64)
    by (bit_vector)
    ensures
        (x | y) & !(x | y | z) == 0,
{
}

/// What a fitting placement or jump does to the stones, square by square:
/// the mover has its stones of before but the one that jumped, the stone
/// on the target and the captured ones; the other side has lost the
/// captured ones, and nothing else has changed.
pub proof fn lemma_move_effect(b: Board, m: Move, sq: int)
    requires
        b.wf(),
        move_fits(b, m),
        !m.null,
    ensures
        has_square(apply_move(b, m).theirs(), sq) <==> (has_square(b.own(), sq) && !has_square(
            m.from,
            sq,
        )) || has_square(m.to, sq) || has_square(m.capture_square, sq),
        has_square(apply_move(b, m).own(), sq) <==> has_square(b.theirs(), sq) && !has_square(
            m.capture_square,
            sq,
        ),
        apply_move(b, m).blockers == b.blockers,
{
    if 0 <= sq < 64 {
        let i = sq as u64;
        lemma_square_ops(b.own(), m.to, i);
        lemma_square_ops(b.own() | m.to, m.from, i);
        lemma_square_ops((b.own() | m.to) ^ m.from, m.capture_square, i);
        lemma_square_ops(b.theirs(), m.capture_square, i);
        lemma_square_ops(m.from, b.own(), i);
        lemma_square_ops(m.capture_square, b.theirs(), i);
        lemma_square_ops(m.to, b.occupied(), i);
        lemma_square_ops(b.boards[0], b.boards[1], i);
        lemma_square_ops(b.boards[0] | b.boards[1], b.blockers, i);
    }
}

/// Every generated move has a text: its squares are squares of the board.
pub proof fn lemma_generated_move_has_text(b: Board, k: int)
    requires
        b.wf(),
        0 <= k < legal_moves(b).len(),
    ensures
        legal_moves(b)[k].has_text(),
{
    let m = legal_moves(b)[k];
    lemma_generated_move_shape(b, k);
    if m != null_move() {
        if exists|to: int, near: int| is_placement(b, m, to, near) {
            let (to, near) = choose|to: int, near: int| is_placement(b, m, to, near);
            lemma_lowest_of_one(to);
        } else {
            let (from, to) = choose|from: int, to: int| is_jump(b, m, from, to);
            lemma_lowest_of_one(to);
            lemma_lowest_of_one(from);
        }
    }
}

} // verus!
