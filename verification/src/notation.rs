//! The text forms of squares and moves: a square is a file letter `a` to
//! `g` and a rank digit `1` to `7`; a move is its target square, after its
//! origin square where it has one, and the pass is `0000`.

use vstd::prelude::*;
use vstd::std_specs::bits::{axiom_u64_trailing_zeros, u64_trailing_zeros};
use vstd::string::StringExecFns;
use crate::bits::{file_of, lemma_single_square, neighbours, on_board, rank_of, square_mask};
use crate::movegen::{move_onto, singles, Move};

verus! {

/// The characters of `s`, one by one.
pub fn chars_of(s: &str) -> (v: Vec<char>)
    ensures
        v@ == s@,
{
    let mut v: Vec<char> = Vec::new();
    for c in it: s.chars()
        invariant
            v@ == it.seq().take(it.index() as int),
            it.seq() == s@,
    {
        v.push(c);
    }
    v
}

/// The letter of a file, `a` for file 0.
pub open spec fn file_letter(file: int) -> char {
    if file == 0 {
        'a'
    } else if file == 1 {
        'b'
    } else if file == 2 {
        'c'
    } else if file == 3 {
        'd'
    } else if file == 4 {
        'e'
    } else if file == 5 {
        'f'
    } else {
        'g'
    }
}

/// The digit of a rank, `1` for rank 0.
pub open spec fn rank_digit(rank: int) -> char {
    if rank == 0 {
        '1'
    } else if rank == 1 {
        '2'
    } else if rank == 2 {
        '3'
    } else if rank == 3 {
        '4'
    } else if rank == 4 {
        '5'
    } else if rank == 5 {
        '6'
    } else {
        '7'
    }
}

/// The file that a letter names.
pub open spec fn file_index(c: char) -> Option<int> {
    if c == 'a' {
        Some(0int)
    } else if c == 'b' {
        Some(1int)
    } else if c == 'c' {
        Some(2int)
    } else if c == 'd' {
        Some(3int)
    } else if c == 'e' {
        Some(4int)
    } else if c == 'f' {
        Some(5int)
    } else if c == 'g' {
        Some(6int)
    } else {
        None
    }
}

/// The rank that a digit names.
pub open spec fn rank_index(c: char) -> Option<int> {
    if c == '1' {
        Some(0int)
    } else if c == '2' {
        Some(1int)
    } else if c == '3' {
        Some(2int)
    } else if c == '4' {
        Some(3int)
    } else if c == '5' {
        Some(4int)
    } else if c == '6' {
        Some(5int)
    } else if c == '7' {
        Some(6int)
    } else {
        None
    }
}

/// The name of a square: its file letter, then its rank digit.
pub open spec fn square_name(sq: int) -> Seq<char> {
    seq![file_letter(file_of(sq)), rank_digit(rank_of(sq))]
}

/// The square that a file letter and a rank digit name, as a mask.
pub open spec fn named_square(file: char, rank: char) -> Option<u64> {
    match (file_index(file), rank_index(rank)) {
        (Some(f), Some(r)) => Some(square_mask(8 * r + f)),
        _ => None,
    }
}

/// The square named at position `at` of `s`.
pub open spec fn square_at(s: Seq<char>, at: int) -> Option<u64> {
    if 0 <= at && at + 2 <= s.len() {
        named_square(s[at], s[at + 1])
    } else {
        None
    }
}

/// The move that a text names, against the stones `theirs`. A text of four
/// characters names a jump by its two squares; any other names a placement
/// by the square in its first two characters.
pub open spec fn named_move(s: Seq<char>, theirs: u64) -> Option<Move> {
    if s.len() == 4 {
        match (square_at(s, 0), square_at(s, 2)) {
            (Some(from), Some(to)) => Some(
                Move { null: false, from, to, capture_square: neighbours(to) & theirs },
            ),
            _ => None,
        }
    } else {
        match square_at(s, 0) {
            Some(to) => Some(
                Move { null: false, from: 0, to, capture_square: neighbours(to) & theirs },
            ),
            None => None,
        }
    }
}

/// The text of the pass.
pub open spec fn pass_text() -> Seq<char> {
    seq!['0', '0', '0', '0']
}

/// The text of a move: `0000` for the pass, the target square for a
/// placement, origin and target for a jump. A mask is named by its lowest
/// square.
pub open spec fn move_text(m: Move) -> Seq<char> {
    if m.null {
        pass_text()
    } else if m.from == 0 {
        square_name(u64_trailing_zeros(m.to) as int)
    } else {
        square_name(u64_trailing_zeros(m.from) as int) + square_name(
            u64_trailing_zeros(m.to) as int,
        )
    }
}

/// Whether a mask can be named: its lowest square is on the board.
pub open spec fn has_name(bb: u64) -> bool {
    on_board(u64_trailing_zeros(bb) as int)
}

fn file_text(file: u32) -> (s: &'static str)
    requires
        file < 7,
    ensures
        s@ == seq![file_letter(file as int)],
{
    proof {
        reveal_strlit("a");
        reveal_strlit("b");
        reveal_strlit("c");
        reveal_strlit("d");
        reveal_strlit("e");
        reveal_strlit("f");
        reveal_strlit("g");
    }
    let s = if file == 0 {
        "a"
    } else if file == 1 {
        "b"
    } else if file == 2 {
        "c"
    } else if file == 3 {
        "d"
    } else if file == 4 {
        "e"
    } else if file == 5 {
        "f"
    } else {
        "g"
    };
    assert(s@ =~= seq![file_letter(file as int)]);
    s
}

fn rank_text(rank: u32) -> (s: &'static str)
    requires
        rank < 7,
    ensures
        s@ == seq![rank_digit(rank as int)],
{
    proof {
        reveal_strlit("1");
        reveal_strlit("2");
        reveal_strlit("3");
        reveal_strlit("4");
        reveal_strlit("5");
        reveal_strlit("6");
        reveal_strlit("7");
    }
    let s = if rank == 0 {
        "1"
    } else if rank == 1 {
        "2"
    } else if rank == 2 {
        "3"
    } else if rank == 3 {
        "4"
    } else if rank == 4 {
        "5"
    } else if rank == 5 {
        "6"
    } else {
        "7"
    };
    assert(s@ =~= seq![rank_digit(rank as int)]);
    s
}

/// The name of the lowest square of `bb`.
pub fn bb_to_an(bb: u64) -> (name: String)
    requires
        has_name(bb),
    ensures
        name@ == square_name(u64_trailing_zeros(bb) as int),
{
    let ld_zero: u32 = bb.trailing_zeros();
    let name = String::from_str(file_text(ld_zero % 8)).concat(rank_text(ld_zero / 8));
    assert(name@ =~= square_name(ld_zero as int));
    name
}

fn file_of_letter(c: char) -> (r: Option<u64>)
    ensures
        r matches Some(f) ==> file_index(c) == Some(f as int) && f < 7,
        r is None ==> file_index(c) is None,
{
    if c == 'a' {
        Some(0)
    } else if c == 'b' {
        Some(1)
    } else if c == 'c' {
        Some(2)
    } else if c == 'd' {
        Some(3)
    } else if c == 'e' {
        Some(4)
    } else if c == 'f' {
        Some(5)
    } else if c == 'g' {
        Some(6)
    } else {
        None
    }
}

pub fn rank_of_digit(c: char) -> (r: Option<u64>)
    ensures
        r matches Some(k) ==> rank_index(c) == Some(k as int) && k < 7,
        r is None ==> rank_index(c) is None,
{
    if c == '1' {
        Some(0)
    } else if c == '2' {
        Some(1)
    } else if c == '3' {
        Some(2)
    } else if c == '4' {
        Some(3)
    } else if c == '5' {
        Some(4)
    } else if c == '6' {
        Some(5)
    } else if c == '7' {
        Some(6)
    } else {
        None
    }
}

/// The square that a file letter and a rank digit name, if they name one.
pub fn square_of_name(file: char, rank: char) -> (r: Option<u64>)
    ensures
        r == named_square(file, rank),
{
    match (file_of_letter(file), rank_of_digit(rank)) {
        (Some(f), Some(r)) => Some(1u64 << (f + r * 8)),
        _ => None,
    }
}

/// The square named by the two characters of `text` at `at`.
pub fn read_square(text: &Vec<char>, at: usize) -> (r: Option<u64>)
    ensures
        r == square_at(text@, at as int),
{
    if at < text.len() && text.len() - at >= 2 {
        square_of_name(text[at], text[at + 1])
    } else {
        None
    }
}

/// The square that the first two characters of `an` name.
pub fn an_to_bb(an: String) -> (bb: u64)
    requires
        square_at(an@, 0) is Some,
    ensures
        Some(bb) == square_at(an@, 0),
{
    let text = chars_of(an.as_str());
    match read_square(&text, 0) {
        Some(bb) => bb,
        None => 0,
    }
}

/// The move that `text` names against the stones `theirs`, if it names one.
pub fn read_move(text: &Vec<char>, theirs: u64) -> (r: Option<Move>)
    ensures
        r == named_move(text@, theirs),
{
    if text.len() == 4 {
        match (read_square(text, 0), read_square(text, 2)) {
            (Some(from), Some(to)) => Some(
                Move { null: false, from, to, capture_square: singles(to) & theirs },
            ),
            _ => None,
        }
    } else {
        match read_square(text, 0) {
            Some(to) => Some(
                Move { null: false, from: 0, to, capture_square: singles(to) & theirs },
            ),
            None => None,
        }
    }
}

impl Move {
    /// The move that `input` names, capturing the stones of `all` around its
    /// target.
    pub fn from_str(input: &str, all: u64) -> (m: Move)
        requires
            named_move(input@, all) is Some,
        ensures
            Some(m) == named_move(input@, all),
    {
        let text = chars_of(input);
        match read_move(&text, all) {
            Some(m) => m,
            None => Move { null: true, from: 0, to: 0, capture_square: 0 },
        }
    }

    /// The move that `input` names, or nothing where it names none.
    pub fn parse(input: &str, all: u64) -> (r: Option<Move>)
        ensures
            r == named_move(input@, all),
    {
        let text = chars_of(input);
        read_move(&text, all)
    }

    /// Whether the move has a text: the pass has, and so has a move whose
    /// squares are on the board.
    pub open spec fn has_text(self) -> bool {
        self.null || (has_name(self.to) && (self.from != 0 ==> has_name(self.from)))
    }

    /// Whether the move has a text.
    pub fn printable(&self) -> (r: bool)
        ensures
            r == self.has_text(),
    {
        self.null || (nameable(self.to) && (self.from == 0 || nameable(self.from)))
    }

    /// The text of the move.
    pub fn to_string(&self) -> (text: String)
        requires
            self.has_text(),
        ensures
            text@ == move_text(*self),
    {
        if self.null {
            proof {
                reveal_strlit("0000");
            }
            let text = String::from_str("0000");
            assert(text@ =~= pass_text());
            text
        } else if self.from == 0 {
            bb_to_an(self.to)
        } else {
            let to = bb_to_an(self.to);
            bb_to_an(self.from).concat(to.as_str())
        }
    }
}

/// Whether the lowest square of `bb` is on the board.
pub fn nameable(bb: u64) -> (r: bool)
    ensures
        r == has_name(bb),
{
    let ld_zero: u32 = bb.trailing_zeros();
    proof {
        axiom_u64_trailing_zeros(bb);
    }
    ld_zero < 56 && ld_zero % 8 < 7
}

/// The lowest square of a mask of one square is that square.
pub proof fn lemma_lowest_of_one(sq: int)
    requires
        0 <= sq < 64,
    ensures
        u64_trailing_zeros(square_mask(sq)) == sq,
{
    let bb = square_mask(sq);
    axiom_u64_trailing_zeros(bb);
    lemma_single_square(bb, sq as u64, sq as u64);
    let t = u64_trailing_zeros(bb);
    lemma_single_square(bb, sq as u64, t as u64);
}

/// The name of a square of the board names that square again.
pub proof fn lemma_name_names_square(sq: int)
    requires
        on_board(sq),
    ensures
        square_at(square_name(sq), 0) == Some(square_mask(sq)),
{
}

/// A placement or a jump between squares of the board has a text, and
/// the text names the move again.
pub proof fn lemma_text_names_move(from: int, to: int, theirs: u64)
    requires
        on_board(from),
        on_board(to),
    ensures
        move_onto(0, square_mask(to), theirs).has_text(),
        move_onto(square_mask(from), square_mask(to), theirs).has_text(),
        named_move(move_text(move_onto(0, square_mask(to), theirs)), theirs) == Some(
            move_onto(0, square_mask(to), theirs),
        ),
        named_move(move_text(move_onto(square_mask(from), square_mask(to), theirs)), theirs)
            == Some(move_onto(square_mask(from), square_mask(to), theirs)),
{
    lemma_lowest_of_one(from);
    lemma_lowest_of_one(to);
    lemma_single_square(0, from as u64, from as u64);
    lemma_name_names_square(from);
    lemma_name_names_square(to);
    let jump = square_name(from) + square_name(to);
    assert(jump.len() == 4);
    assert(jump[0] == square_name(from)[0] && jump[1] == square_name(from)[1]);
    assert(jump[2] == square_name(to)[0] && jump[3] == square_name(to)[1]);
}

} // verus!
