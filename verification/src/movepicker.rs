//! Move ordering: the two hints first, then the other moves, those that
//! capture most before the others and placements before jumps.

use vstd::prelude::*;
use crate::bits::popcount;
use crate::eval::lemma_count_bound;
use crate::movegen::Move;

verus! {

/// The lowest key that a move can have.
pub const KEY_MIN: i32 = -56;

/// The highest key that a move can have.
pub const KEY_MAX: i32 = 16;

/// The key by which the moves without a hint are sorted, lowest first: 8
/// less the number of captured stones, and 8 more for a jump.
pub open spec fn order_key(m: Move) -> int {
    8 - popcount(m.capture_square) + if m.from != 0 {
        8int
    } else {
        0int
    }
}

/// The killer move as a hint: it counts when it is among `moves` and is not
/// the hash move.
pub open spec fn killer_hint(moves: Seq<Move>, hash: Option<Move>, killer: Option<Move>) -> Seq<
    Move,
> {
    match killer {
        Some(k) => if moves.contains(k) && hash != Some(k) {
            seq![k]
        } else {
            Seq::empty()
        },
        None => Seq::empty(),
    }
}

/// The hash move as a hint: it counts when it is among `moves`.
pub open spec fn hash_hint(moves: Seq<Move>, hash: Option<Move>) -> Seq<Move> {
    match hash {
        Some(h) => if moves.contains(h) {
            seq![h]
        } else {
            Seq::empty()
        },
        None => Seq::empty(),
    }
}

/// The moves of `s` that are not in `skip`, in their order.
pub open spec fn without(s: Seq<Move>, skip: Seq<Move>) -> Seq<Move>
    decreases s.len(),
{
    if s.len() == 0 {
        Seq::empty()
    } else if skip.contains(s.last()) {
        without(s.drop_last(), skip)
    } else {
        without(s.drop_last(), skip).push(s.last())
    }
}

/// The moves of `s` whose key is `key`, in their order.
pub open spec fn with_key(s: Seq<Move>, key: int) -> Seq<Move>
    decreases s.len(),
{
    if s.len() == 0 {
        Seq::empty()
    } else if order_key(s.last()) == key {
        with_key(s.drop_last(), key).push(s.last())
    } else {
        with_key(s.drop_last(), key)
    }
}

/// The moves of `s` with a key from `lo` up to, not including, `hi`: by
/// ascending key, and those of one key in their order in `s`.
pub open spec fn by_key(s: Seq<Move>, lo: int, hi: int) -> Seq<Move>
    decreases hi - lo,
{
    if lo >= hi {
        Seq::empty()
    } else {
        by_key(s, lo, hi - 1) + with_key(s, hi - 1)
    }
}

/// The order in which the moves are tried: the killer move, the hash move,
/// then the others sorted by key, moves of one key staying in their order.
pub open spec fn ordered(moves: Seq<Move>, hash: Option<Move>, killer: Option<Move>) -> Seq<Move> {
    let hints = killer_hint(moves, hash, killer) + hash_hint(moves, hash);
    hints + by_key(without(moves, hints), KEY_MIN as int, KEY_MAX + 1)
}

/// Whether `m` is among `moves`.
pub fn contains_move(moves: &Vec<Move>, m: &Move) -> (r: bool)
    ensures
        r == moves@.contains(*m),
{
    let mut i: usize = 0;
    while i < moves.len()
        invariant
            i <= moves.len(),
            forall|k: int| 0 <= k < i ==> moves@[k] != *m,
        decreases moves.len() - i,
    {
        if moves[i] == *m {
            return true;
        }
        i += 1;
    }
    false
}

/// The sort key of `m`.
pub fn key_of(m: &Move) -> (key: i32)
    ensures
        key == order_key(*m),
        KEY_MIN <= key <= KEY_MAX,
{
    proof {
        lemma_count_bound(m.capture_square, 64);
    }
    let mut key: i32 = 8 - m.capture_square.count_ones() as i32;
    if m.from != 0 {
        key += 8;
    }
    key
}

pub struct MovePicker {
    moves: Vec<Move>,
    hash_move: Option<Move>,
    killer_move: Option<Move>,
}

impl MovePicker {
    pub closed spec fn moves(self) -> Seq<Move> {
        self.moves@
    }

    pub closed spec fn hash_move(self) -> Option<Move> {
        self.hash_move
    }

    pub closed spec fn killer_move(self) -> Option<Move> {
        self.killer_move
    }

    pub fn new(moves: Vec<Move>, hash_move: Option<Move>, killer_move: Option<Move>) -> (p:
        MovePicker)
        ensures
            p.moves() == moves@,
            p.hash_move() == hash_move,
            p.killer_move() == killer_move,
    {
        MovePicker { moves, hash_move, killer_move }
    }

    /// The moves in the order in which to try them.
    pub fn sort(&self) -> (out: Vec<Move>)
        ensures
            out@ == ordered(self.moves(), self.hash_move(), self.killer_move()),
    {
        let mut out: Vec<Move> = Vec::new();
        if let Some(killer) = self.killer_move {
            let same = match self.hash_move {
                Some(h) => h == killer,
                None => false,
            };
            if !same && contains_move(&self.moves, &killer) {
                out.push(killer);
            }
        }
        assert(out@ == killer_hint(self.moves@, self.hash_move, self.killer_move));
        if let Some(hash_move) = self.hash_move {
            if contains_move(&self.moves, &hash_move) {
                out.push(hash_move);
            }
        }
        let ghost hints = out@;
        assert(hints == killer_hint(self.moves@, self.hash_move, self.killer_move) + hash_hint(
            self.moves@,
            self.hash_move,
        ));

        let mut rest: Vec<Move> = Vec::new();
        let mut keys: Vec<i32> = Vec::new();
        let mut i: usize = 0;
        while i < self.moves.len()
            invariant
                i <= self.moves.len(),
                out@ == hints,
                rest@ == without(self.moves@.take(i as int), hints),
                keys@.len() == rest@.len(),
                forall|k: int| 0 <= k < rest@.len() ==> keys@[k] == order_key(#[trigger] rest@[k]),
            decreases self.moves.len() - i,
        {
            let m = self.moves[i];
            proof {
                assert(self.moves@.take(i + 1).drop_last() == self.moves@.take(i as int));
            }
            if !contains_move(&out, &m) {
                rest.push(m);
                keys.push(key_of(&m));
            }
            i += 1;
        }
        assert(self.moves@.take(i as int) == self.moves@);

        let mut key: i32 = KEY_MIN;
        while key <= KEY_MAX
            invariant
                KEY_MIN <= key <= KEY_MAX + 1,
                keys@.len() == rest@.len(),
                forall|k: int| 0 <= k < rest@.len() ==> keys@[k] == order_key(#[trigger] rest@[k]),
                out@ == hints + by_key(rest@, KEY_MIN as int, key as int),
            decreases KEY_MAX + 1 - key,
        {
            let ghost before = out@;
            let mut j: usize = 0;
            while j < rest.len()
                invariant
                    j <= rest.len(),
                    keys@.len() == rest@.len(),
                    forall|k: int|
                        0 <= k < rest@.len() ==> keys@[k] == order_key(#[trigger] rest@[k]),
                    out@ == before + with_key(rest@.take(j as int), key as int),
                decreases rest.len() - j,
            {
                proof {
                    assert(rest@.take(j + 1).drop_last() == rest@.take(j as int));
                }
                if keys[j] == key {
                    out.push(rest[j]);
                }
                j += 1;
            }
            assert(rest@.take(j as int) == rest@);
            key += 1;
        }
        out
    }
}

/// Ordering neither adds nor loses a move: what is tried is what was given.
pub proof fn lemma_ordered_keeps_moves(
    moves: Seq<Move>,
    hash: Option<Move>,
    killer: Option<Move>,
    m: Move,
)
    ensures
        ordered(moves, hash, killer).contains(m) <==> moves.contains(m),
{
    let hints = killer_hint(moves, hash, killer) + hash_hint(moves, hash);
    let rest = without(moves, hints);
    let sorted = by_key(rest, KEY_MIN as int, KEY_MAX + 1);
    let all = ordered(moves, hash, killer);
    lemma_without(moves, hints, m);
    lemma_count_bound(m.capture_square, 64);
    lemma_by_key(rest, KEY_MIN as int, KEY_MAX + 1, m);
    if all.contains(m) {
        let k = choose|k: int| 0 <= k < all.len() && all[k] == m;
        if k < hints.len() {
            assert(hints[k] == m);
            assert(hints.contains(m));
        } else {
            assert(sorted[k - hints.len()] == m);
            assert(sorted.contains(m));
        }
    }
    if moves.contains(m) {
        if hints.contains(m) {
            let k = choose|k: int| 0 <= k < hints.len() && hints[k] == m;
            assert(all[k] == m);
        } else {
            let k = choose|k: int| 0 <= k < sorted.len() && sorted[k] == m;
            assert(all[hints.len() + k] == m);
        }
    }
    lemma_hints_are_moves(moves, hash, killer, m);
}

proof fn lemma_hints_are_moves(moves: Seq<Move>, hash: Option<Move>, killer: Option<Move>, m: Move)
    ensures
        (killer_hint(moves, hash, killer) + hash_hint(moves, hash)).contains(m) ==> moves.contains(
            m,
        ),
{
    let a = killer_hint(moves, hash, killer);
    let b = hash_hint(moves, hash);
    if (a + b).contains(m) {
        let k = choose|k: int| 0 <= k < (a + b).len() && (a + b)[k] == m;
        if k < a.len() {
            assert(a[k] == m);
        } else {
            assert(b[k - a.len()] == m);
        }
    }
}

proof fn lemma_without(s: Seq<Move>, skip: Seq<Move>, m: Move)
    ensures
        without(s, skip).contains(m) <==> s.contains(m) && !skip.contains(m),
    decreases s.len(),
{
    if s.len() > 0 {
        let head = s.drop_last();
        lemma_without(head, skip, m);
        lemma_contains_last(head, s.last(), m);
        assert(head.push(s.last()) == s);
        if !skip.contains(s.last()) {
            lemma_contains_last(without(head, skip), s.last(), m);
        }
    }
}

proof fn lemma_with_key(s: Seq<Move>, key: int, m: Move)
    ensures
        with_key(s, key).contains(m) <==> s.contains(m) && order_key(m) == key,
    decreases s.len(),
{
    if s.len() > 0 {
        let head = s.drop_last();
        lemma_with_key(head, key, m);
        lemma_contains_last(head, s.last(), m);
        assert(head.push(s.last()) == s);
        if order_key(s.last()) == key {
            lemma_contains_last(with_key(head, key), s.last(), m);
        }
    }
}

proof fn lemma_by_key(s: Seq<Move>, lo: int, hi: int, m: Move)
    ensures
        by_key(s, lo, hi).contains(m) <==> s.contains(m) && lo <= order_key(m) < hi,
    decreases hi - lo,
{
    if lo < hi {
        let a = by_key(s, lo, hi - 1);
        let b = with_key(s, hi - 1);
        lemma_by_key(s, lo, hi - 1, m);
        lemma_with_key(s, hi - 1, m);
        if (a + b).contains(m) {
            let k = choose|k: int| 0 <= k < (a + b).len() && (a + b)[k] == m;
            if k < a.len() {
                assert(a[k] == m);
            } else {
                assert(b[k - a.len()] == m);
            }
        }
        if a.contains(m) {
            let k = choose|k: int| 0 <= k < a.len() && a[k] == m;
            assert((a + b)[k] == m);
        }
        if b.contains(m) {
            let k = choose|k: int| 0 <= k < b.len() && b[k] == m;
            assert((a + b)[a.len() + k] == m);
        }
    }
}

proof fn lemma_contains_last(s: Seq<Move>, last: Move, m: Move)
    ensures
        s.push(last).contains(m) <==> s.contains(m) || last == m,
{
    let t = s.push(last);
    if t.contains(m) {
        let k = choose|k: int| 0 <= k < t.len() && t[k] == m;
        if k < s.len() {
            assert(s[k] == m);
        }
    }
    if s.contains(m) {
        let k = choose|k: int| 0 <= k < s.len() && s[k] == m;
        assert(t[k] == m);
    }
    if last == m {
        assert(t[s.len() as int] == m);
    }
}

/// The moves without a hint are tried by ascending key: of two of them the
/// one that is tried first has the key that is not higher.
pub proof fn lemma_by_key_ascends(s: Seq<Move>, lo: int, hi: int, i: int, j: int)
    requires
        0 <= i <= j < by_key(s, lo, hi).len(),
    ensures
        order_key(by_key(s, lo, hi)[i]) <= order_key(by_key(s, lo, hi)[j]),
    decreases hi - lo,
{
    let head = by_key(s, lo, hi - 1);
    let last = with_key(s, hi - 1);
    let all = by_key(s, lo, hi);
    if j < head.len() {
        lemma_by_key_ascends(s, lo, hi - 1, i, j);
    } else {
        assert(last[j - head.len()] == all[j]);
        assert(last.contains(all[j]));
        lemma_with_key(s, hi - 1, all[j]);
        if i < head.len() {
            assert(head[i] == all[i]);
            assert(head.contains(all[i]));
            lemma_by_key(s, lo, hi - 1, all[i]);
        } else {
            assert(last[i - head.len()] == all[i]);
            assert(last.contains(all[i]));
            lemma_with_key(s, hi - 1, all[i]);
        }
    }
}

} // verus!
