//! Squares and bitboards. The 7x7 board lives in the low seven bits of the
//! low seven bytes of a `u64`: square `8 * rank + file`, file `a` and rank 1
//! being 0. Bit 7 of every byte and the whole top byte stay clear, so that a
//! shifted mask never wraps from one edge of the board to the other.

use vstd::prelude::*;
use vstd::std_specs::bits::{axiom_u64_trailing_zeros, u64_trailing_zeros};

verus! {

/// The 49 squares of the board.
pub const BOARD_MASK: u64 = 0x7f7f7f7f7f7f7f;

/// The squares that are not on file `a`.
pub const NOT_FILE_A: u64 = 0x7e7e7e7e7e7e7e;

/// The squares that are not on file `g`.
pub const NOT_FILE_G: u64 = 0x3f3f3f3f3f3f3f;

/// Whether `sq` is the index of one of the 49 squares.
pub open spec fn on_board(sq: int) -> bool {
    0 <= sq < 56 && sq % 8 < 7
}

/// File of a square index, 0 for file `a`.
pub open spec fn file_of(sq: int) -> int {
    sq % 8
}

/// Rank of a square index, 0 for rank 1.
pub open spec fn rank_of(sq: int) -> int {
    sq / 8
}

/// Number of king steps between two squares.
pub open spec fn distance(a: int, b: int) -> int {
    let df = if file_of(a) >= file_of(b) {
        file_of(a) - file_of(b)
    } else {
        file_of(b) - file_of(a)
    };
    let dr = if rank_of(a) >= rank_of(b) {
        rank_of(a) - rank_of(b)
    } else {
        rank_of(b) - rank_of(a)
    };
    if df >= dr {
        df
    } else {
        dr
    }
}

/// Whether bit `sq` of `bb` is set.
pub open spec fn has_square(bb: u64, sq: int) -> bool {
    0 <= sq < 64 && (bb >> (sq as u64)) & 1 == 1
}

/// The mask that holds square `sq` alone.
pub open spec fn square_mask(sq: int) -> u64 {
    1u64 << (sq as u64)
}

/// Whether every set bit of `bb` is a square of the board.
pub open spec fn within_board(bb: u64) -> bool {
    bb & !BOARD_MASK == 0
}

/// The board squares one king step away from some square of `bb`.
pub open spec fn neighbours(bb: u64) -> u64 {
    (bb << 1 | bb >> 1 | bb << 8 | bb >> 8 | bb << 9 | bb >> 9 | bb << 7 | bb >> 7) & BOARD_MASK
}

/// The board squares exactly two king steps away from a square of `bb`: the
/// ring of 16 around each of them.
pub open spec fn jumps(bb: u64) -> u64 {
    ((bb << 2 | bb << 10 | bb << 18 | bb >> 6 | bb >> 14 | bb << 17 | bb >> 15) & NOT_FILE_A)
        | ((bb << 16 | bb >> 16) & BOARD_MASK)
        | ((bb >> 2 | bb >> 10 | bb >> 18 | bb << 6 | bb << 14 | bb << 15 | bb >> 17) & NOT_FILE_G)
}

/// Number of set bits of `bb` below index `n`.
pub open spec fn count_below(bb: u64, n: nat) -> nat
    decreases n,
{
    if n == 0 {
        0
    } else if has_square(bb, n - 1) {
        count_below(bb, (n - 1) as nat) + 1
    } else {
        count_below(bb, (n - 1) as nat)
    }
}

/// Number of set bits of `bb`.
pub open spec fn popcount(bb: u64) -> nat {
    count_below(bb, 64)
}

/// `u64::count_ones` returns the number of ones in the binary representation
/// of its argument.
pub assume_specification[ u64::count_ones ](i: u64) -> (r: u32)
    ensures
        r == popcount(i),
;

/// The lowest set square of a non-empty `bb`, as a mask.
pub open spec fn lowest_square(bb: u64) -> u64 {
    1u64 << (u64_trailing_zeros(bb) as u64)
}

/// The set squares of `bb` from index `sq` upwards, each as a mask, in
/// ascending order.
pub open spec fn squares_from(bb: u64, sq: nat) -> Seq<u64>
    decreases 64 - sq,
{
    if sq >= 64 {
        Seq::empty()
    } else if has_square(bb, sq as int) {
        seq![square_mask(sq as int)] + squares_from(bb, sq + 1)
    } else {
        squares_from(bb, sq + 1)
    }
}

/// The set squares of `bb`, each as a mask, in ascending order.
pub open spec fn squares_of(bb: u64) -> Seq<u64> {
    squares_from(bb, 0)
}

/// The order of the operands of `&` and `|` does not matter; the empty mask
/// meets nothing, and a part of a mask is within it.
pub proof fn lemma_commute(a: u64, b: u64)
    by (bit_vector)
    ensures
        a & b == b & a,
        a | b == b | a,
        0 & a == 0,
        a & 0 == 0,
        (a & b) & b == a & b,
{
}

/// Membership in the results of the bitwise operators.
pub proof fn lemma_square_ops(a: u64, b: u64, i: u64)
    by (bit_vector)
    requires
        i < 64,
    ensures
        ((a & b) >> i) & 1 == 1 <==> (a >> i) & 1 == 1 && (b >> i) & 1 == 1,
        ((a | b) >> i) & 1 == 1 <==> (a >> i) & 1 == 1 || (b >> i) & 1 == 1,
        ((a ^ b) >> i) & 1 == 1 <==> ((a >> i) & 1 == 1) != ((b >> i) & 1 == 1),
        ((!a) >> i) & 1 == 1 <==> !((a >> i) & 1 == 1),
        (0u64 >> i) & 1 == 0,
{
}

/// A one-square mask holds its square and no other, and clearing a set
/// square makes a mask smaller.
pub proof fn lemma_single_square(bb: u64, i: u64, j: u64)
    by (bit_vector)
    requires
        i < 64,
        j < 64,
    ensures
        ((1u64 << i) >> j) & 1 == 1 <==> i == j,
        1u64 << i != 0,
        (bb >> i) & 1 == 1 ==> bb ^ (1u64 << i) < bb,
        (bb >> i) & 1 == 1 ==> bb != 0,
        (bb >> i) & 1 == 1 ==> bb & (1u64 << i) == 1u64 << i,
        (bb >> i) & 1 == 1 ==> (1u64 << i) & bb == 1u64 << i,
        (bb >> i) & 1 != 1 ==> bb & (1u64 << i) == 0,
        (bb >> i) & 1 != 1 ==> (1u64 << i) & bb == 0,
        i < j ==> 1u64 << i < 1u64 << j,
{
}

/// The set bits of a mask within the board are squares of the board, and the
/// board mask holds exactly those.
pub proof fn lemma_within_board(bb: u64, i: u64)
    by (bit_vector)
    requires
        i < 64,
    ensures
        bb & !BOARD_MASK == 0 && (bb >> i) & 1 == 1 ==> i < 56 && i % 8 < 7,
        (BOARD_MASK >> i) & 1 == 1 <==> i < 56 && i % 8 < 7,
{
}

/// The neighbours of one square are the board squares at distance 1 from it.
pub proof fn lemma_neighbours_of_square(i: u64, j: u64)
    by (bit_vector)
    requires
        i < 56,
        i % 8 < 7,
        j < 64,
    ensures
        ((neighbours(1u64 << i) >> j) & 1 == 1) <==> (j < 56 && j % 8 < 7 && j != i && ({
            let fi = i % 8;
            let fj = j % 8;
            let ri = i / 8;
            let rj = j / 8;
            fi <= fj + 1 && fj <= fi + 1 && ri <= rj + 1 && rj <= ri + 1
        })),
{
}

/// The jumps of one square are the board squares at distance 2 from it.
pub proof fn lemma_jumps_of_square(i: u64, j: u64)
    by (bit_vector)
    requires
        i < 56,
        i % 8 < 7,
        j < 64,
    ensures
        ((jumps(1u64 << i) >> j) & 1 == 1) <==> (j < 56 && j % 8 < 7 && ({
            let fi = i % 8;
            let fj = j % 8;
            let ri = i / 8;
            let rj = j / 8;
            fi <= fj + 2 && fj <= fi + 2 && ri <= rj + 2 && rj <= ri + 2 && (fi == fj + 2 || fj
                == fi + 2 || ri == rj + 2 || rj == ri + 2)
        })),
{
}

/// Neighbourhood is symmetric: a board square is next to a set of board
/// squares exactly when one of its own neighbours is in the set.
pub proof fn lemma_neighbours_symmetric(bb: u64, j: u64)
    by (bit_vector)
    requires
        bb & !BOARD_MASK == 0,
        j < 64,
    ensures
        (neighbours(bb) >> j) & 1 == 1 <==> j < 56 && j % 8 < 7 && neighbours(1u64 << j) & bb != 0,
{
}

/// Jumping is symmetric: a board square is two steps from a set of board
/// squares exactly when one of its own jumps is in the set.
pub proof fn lemma_jumps_symmetric(bb: u64, j: u64)
    by (bit_vector)
    requires
        bb & !BOARD_MASK == 0,
        j < 64,
    ensures
        (jumps(bb) >> j) & 1 == 1 <==> j < 56 && j % 8 < 7 && jumps(1u64 << j) & bb != 0,
{
}

/// What a part of a set of squares reaches in two steps, the set reaches.
pub proof fn lemma_jumps_of_part(part: u64, bb: u64, free: u64)
    by (bit_vector)
    requires
        part & bb == part,
        jumps(bb) & free == 0,
    ensures
        jumps(part) & free == 0,
{
}

/// Neighbours and jumps stay within the board.
pub proof fn lemma_targets_within_board(bb: u64)
    by (bit_vector)
    ensures
        neighbours(bb) & !BOARD_MASK == 0,
        jumps(bb) & !BOARD_MASK == 0,
{
}

/// A set of stones has room, an empty square within two steps of one of
/// them, exactly when one of its two parts can place or jump onto an empty
/// square.
pub proof fn lemma_room(x: u64, y: u64, free: u64)
    by (bit_vector)
    requires
        x & !BOARD_MASK == 0,
        y & !BOARD_MASK == 0,
        (x | y) & free == 0,
    ensures
        neighbours(neighbours(x | y)) & free != 0 <==> (neighbours(x) & free != 0 || jumps(x)
            & free != 0 || neighbours(y) & free != 0 || jumps(y) & free != 0),
{
}

/// Where no square from `s` up to `t` is set, the squares from `s` are those
/// from `t`.
proof fn lemma_squares_skip(bb: u64, s: nat, t: nat)
    requires
        s <= t <= 64,
        forall|j: int| s <= j < t ==> !has_square(bb, j),
    ensures
        squares_from(bb, s) == squares_from(bb, t),
    decreases t - s,
{
    if s < t {
        assert(!has_square(bb, s as int));
        lemma_squares_skip(bb, s + 1, t);
    }
}

/// Two masks that agree from `s` up have the same squares from `s`.
proof fn lemma_squares_agree(a: u64, b: u64, s: nat)
    requires
        forall|j: int| s <= j < 64 ==> has_square(a, j) == has_square(b, j),
    ensures
        squares_from(a, s) == squares_from(b, s),
    decreases 64 - s,
{
    if s < 64 {
        assert(has_square(a, s as int) == has_square(b, s as int));
        lemma_squares_agree(a, b, s + 1);
    }
}

/// The lowest square of a non-empty mask is its first square; the others are
/// the squares of the mask without it.
pub proof fn lemma_lowest_square(bb: u64)
    requires
        bb != 0,
    ensures
        u64_trailing_zeros(bb) < 64,
        has_square(bb, u64_trailing_zeros(bb) as int),
        lowest_square(bb) == square_mask(u64_trailing_zeros(bb) as int),
        bb ^ lowest_square(bb) < bb,
        squares_of(bb) == seq![lowest_square(bb)] + squares_of(bb ^ lowest_square(bb)),
{
    axiom_u64_trailing_zeros(bb);
    let t = u64_trailing_zeros(bb);
    let low = lowest_square(bb);
    let rest = bb ^ low;
    lemma_single_square(bb, t as u64, t as u64);
    assert forall|j: int| 0 <= j < t implies !has_square(bb, j) by {
        assert((bb >> (j as u64)) & 1u64 == 0u64);
    }
    assert forall|j: int| 0 <= j < 64 implies has_square(rest, j) == (has_square(bb, j) && j
        != t) by {
        lemma_square_ops(bb, low, j as u64);
        lemma_single_square(bb, t as u64, j as u64);
    }
    lemma_squares_skip(bb, 0, t as nat);
    lemma_squares_skip(rest, 0, (t + 1) as nat);
    lemma_squares_agree(bb, rest, (t + 1) as nat);
}

/// The squares of the empty mask.
pub proof fn lemma_no_squares()
    ensures
        squares_of(0) == Seq::<u64>::empty(),
{
    assert forall|j: int| 0 <= j < 64 implies !has_square(0u64, j) by {
        lemma_square_ops(0, 0, j as u64);
    }
    lemma_squares_skip(0, 0, 64);
}

/// The `k`-th square of `bb` from index `s` up is a set square of `bb`, and
/// `k` squares of `bb` lie between `s` and it. Returns its index.
pub proof fn lemma_square_at(bb: u64, s: nat, k: int) -> (i: int)
    requires
        0 <= k < squares_from(bb, s).len(),
    ensures
        s <= i < 64,
        has_square(bb, i),
        squares_from(bb, s)[k] == square_mask(i),
        squares_from(bb, s).len() == k + squares_from(bb, i as nat).len(),
    decreases 64 - s,
{
    if has_square(bb, s as int) {
        if k == 0 {
            s as int
        } else {
            lemma_square_at(bb, s + 1, k - 1)
        }
    } else {
        lemma_square_at(bb, s + 1, k)
    }
}

/// Every set square of `bb` from index `s` up is among its squares from
/// `s`. Returns its position.
pub proof fn lemma_square_listed(bb: u64, s: nat, i: int) -> (k: int)
    requires
        s <= i < 64,
        has_square(bb, i),
    ensures
        0 <= k < squares_from(bb, s).len(),
        squares_from(bb, s)[k] == square_mask(i),
    decreases 64 - s,
{
    if s == i {
        0
    } else if has_square(bb, s as int) {
        lemma_square_listed(bb, s + 1, i) + 1
    } else {
        lemma_square_listed(bb, s + 1, i)
    }
}

/// A mask is empty exactly when it has no set square.
pub proof fn lemma_empty_mask(bb: u64)
    ensures
        bb == 0 <==> squares_of(bb).len() == 0,
        bb == 0 <==> forall|i: int| !has_square(bb, i),
{
    if bb != 0 {
        axiom_u64_trailing_zeros(bb);
        let t = u64_trailing_zeros(bb) as int;
        assert(has_square(bb, t));
        let k = lemma_square_listed(bb, 0, t);
    } else {
        assert forall|i: int| !has_square(bb, i) by {
            if 0 <= i < 64 {
                lemma_square_ops(0, 0, i as u64);
            }
        }
        if squares_of(bb).len() > 0 {
            let i = lemma_square_at(bb, 0, 0);
        }
    }
}

/// The squares of a mask come in strictly ascending order.
pub proof fn lemma_squares_ascend(bb: u64, k1: int, k2: int)
    requires
        0 <= k1 < k2 < squares_of(bb).len(),
    ensures
        squares_of(bb)[k1] < squares_of(bb)[k2],
{
    let i1 = lemma_square_at(bb, 0, k1);
    let i2 = lemma_square_at(bb, 0, k2);
    if i2 <= i1 {
        lemma_squares_shrink(bb, i2 as nat, i1 as nat);
    }
    lemma_single_square(bb, i1 as u64, i2 as u64);
}

/// From a higher index up a mask has no more squares than from a lower one.
proof fn lemma_squares_shrink(bb: u64, s: nat, t: nat)
    requires
        s <= t,
    ensures
        squares_from(bb, t).len() <= squares_from(bb, s).len(),
    decreases t - s,
{
    if s < t {
        lemma_squares_shrink(bb, s + 1, t);
    }
}

/// The neighbours of a set of board squares are the board squares at
/// distance 1 from one of them.
pub proof fn lemma_neighbours_squares(bb: u64, sq: int)
    requires
        within_board(bb),
    ensures
        has_square(neighbours(bb), sq) <==> on_board(sq) && exists|from: int|
            #[trigger] has_square(bb, from) && distance(from, sq) == 1,
{
    if 0 <= sq < 64 {
        let j = sq as u64;
        lemma_neighbours_symmetric(bb, j);
        let around = neighbours(square_mask(sq)) & bb;
        if has_square(neighbours(bb), sq) {
            axiom_u64_trailing_zeros(around);
            let from = u64_trailing_zeros(around) as int;
            assert(has_square(around, from));
            lemma_square_ops(neighbours(square_mask(sq)), bb, from as u64);
            lemma_neighbours_of_square(j, from as u64);
            assert(has_square(bb, from) && distance(from, sq) == 1);
        }
        if on_board(sq) && exists|from: int|
            #[trigger] has_square(bb, from) && distance(from, sq) == 1 {
            let from = choose|from: int| #[trigger] has_square(bb, from) && distance(from, sq) == 1;
            lemma_within_board(bb, from as u64);
            lemma_neighbours_of_square(j, from as u64);
            lemma_square_ops(neighbours(square_mask(sq)), bb, from as u64);
            lemma_single_square(around, from as u64, from as u64);
        }
    }
}

/// The jumps of a set of board squares are the board squares at distance 2
/// from one of them.
pub proof fn lemma_jumps_squares(bb: u64, sq: int)
    requires
        within_board(bb),
    ensures
        has_square(jumps(bb), sq) <==> on_board(sq) && exists|from: int|
            #[trigger] has_square(bb, from) && distance(from, sq) == 2,
{
    if 0 <= sq < 64 {
        let j = sq as u64;
        lemma_jumps_symmetric(bb, j);
        let around = jumps(square_mask(sq)) & bb;
        if has_square(jumps(bb), sq) {
            axiom_u64_trailing_zeros(around);
            let from = u64_trailing_zeros(around) as int;
            assert(has_square(around, from));
            lemma_square_ops(jumps(square_mask(sq)), bb, from as u64);
            lemma_jumps_of_square(j, from as u64);
            assert(has_square(bb, from) && distance(from, sq) == 2);
        }
        if on_board(sq) && exists|from: int|
            #[trigger] has_square(bb, from) && distance(from, sq) == 2 {
            let from = choose|from: int| #[trigger] has_square(bb, from) && distance(from, sq) == 2;
            lemma_within_board(bb, from as u64);
            lemma_jumps_of_square(j, from as u64);
            lemma_square_ops(jumps(square_mask(sq)), bb, from as u64);
            lemma_single_square(around, from as u64, from as u64);
        }
    }
}

} // verus!
