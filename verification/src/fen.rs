//! The board notation: the seven ranks from the top, separated by `/`, then
//! the side to move, the half-move clock and the full-move number, one
//! space between them. In a rank `x` and `o` are stones of Black and White,
//! `-` is a blocked square and a digit `1` to `7` a run of empty squares.

use vstd::prelude::*;
use crate::bits::{lemma_commute, square_mask, BOARD_MASK};
use crate::board::{lemma_same_position, side_of_token, Board, Side};
use crate::notation::{chars_of, rank_index};

verus! {

/// The notation of the position from which a game starts.
pub open spec fn start_position() -> Board {
    Board {
        blockers: 0,
        boards: [0x1000000000040, 0x40000000000001],
        side_to_move: Side::Black,
        half_move: 0,
        full_move: 1,
    }
}

/// A board without stones or blocked squares, Black to move.
pub open spec fn empty_board() -> Board {
    Board { blockers: 0, boards: [0, 0], side_to_move: Side::Black, half_move: 0, full_move: 0 }
}

/// Whether `c` stands for one square that is not empty.
pub open spec fn is_cell(c: char) -> bool {
    c == 'x' || c == 'o' || c == '-'
}

/// `acc` with what `cell` stands for on square `sq`.
pub open spec fn with_cell(acc: Board, cell: char, sq: int) -> Board {
    if cell == 'x' {
        Board { boards: [acc.boards[0] | square_mask(sq), acc.boards[1]], ..acc }
    } else if cell == 'o' {
        Board { boards: [acc.boards[0], acc.boards[1] | square_mask(sq)], ..acc }
    } else {
        Board { blockers: acc.blockers | square_mask(sq), ..acc }
    }
}

/// What the ranks `s` describe, read from position `i` with the next square
/// at `file` of `rank` and `acc` filled so far. The ranks must fill the
/// board exactly: seven squares each, down to rank 1.
pub open spec fn placed(s: Seq<char>, i: int, rank: int, file: int, acc: Board) -> Option<Board>
    decreases s.len() - i,
{
    if i >= s.len() {
        if rank == 0 && file == 7 {
            Some(acc)
        } else {
            None
        }
    } else if is_cell(s[i]) {
        if file < 7 {
            placed(s, i + 1, rank, file + 1, with_cell(acc, s[i], 8 * rank + file))
        } else {
            None
        }
    } else if s[i] == '/' {
        if file == 7 && rank > 0 {
            placed(s, i + 1, rank - 1, 0, acc)
        } else {
            None
        }
    } else {
        match rank_index(s[i]) {
            Some(k) => if file + k + 1 <= 7 {
                placed(s, i + 1, rank, file + k + 1, acc)
            } else {
                None
            },
            None => None,
        }
    }
}

/// The end of the field that starts at `start`: the next space, or the end
/// of the text.
pub open spec fn token_end(s: Seq<char>, start: int) -> int
    decreases s.len() - start,
{
    if start < 0 || start >= s.len() || s[start] == ' ' {
        start
    } else {
        token_end(s, start + 1)
    }
}

/// The value of a decimal digit.
pub open spec fn digit_value(c: char) -> Option<int> {
    if c == '0' {
        Some(0int)
    } else if c == '8' {
        Some(8int)
    } else if c == '9' {
        Some(9int)
    } else {
        match rank_index(c) {
            Some(k) => Some(k + 1),
            None => None,
        }
    }
}

/// The number that `s` writes in decimal digits; nothing where `s` is empty
/// or holds anything else.
pub open spec fn decimal(s: Seq<char>) -> Option<int>
    decreases s.len(),
{
    if s.len() == 0 {
        None
    } else {
        match digit_value(s.last()) {
            None => None,
            Some(d) => if s.len() == 1 {
                Some(d)
            } else {
                match decimal(s.drop_last()) {
                    Some(v) => Some(10 * v + d),
                    None => None,
                }
            },
        }
    }
}

/// The number that `s` writes, where it is at most `max`.
pub open spec fn decimal_up_to(s: Seq<char>, max: int) -> Option<int> {
    match decimal(s) {
        Some(v) => if v <= max {
            Some(v)
        } else {
            None
        },
        None => None,
    }
}

/// The side that a field names: `x` or `o`, alone.
pub open spec fn side_of_field(s: Seq<char>) -> Option<Side> {
    if s.len() == 1 {
        side_of_token(s[0])
    } else {
        None
    }
}

/// The position that a text in board notation describes; nothing where the
/// text is not in that notation. Fields after the fourth are not read.
pub open spec fn board_of_fen(s: Seq<char>) -> Option<Board> {
    let e0 = token_end(s, 0);
    let e1 = token_end(s, e0 + 1);
    let e2 = token_end(s, e1 + 1);
    let e3 = token_end(s, e2 + 1);
    if e2 + 1 > s.len() {
        None
    } else {
        match (
            placed(s.subrange(0, e0), 0, 6, 0, empty_board()),
            side_of_field(s.subrange(e0 + 1, e1)),
            decimal_up_to(s.subrange(e1 + 1, e2), u8::MAX as int),
            decimal_up_to(s.subrange(e2 + 1, e3), u32::MAX as int),
        ) {
            (Some(cells), Some(side), Some(half), Some(full)) => Some(
                Board {
                    side_to_move: side,
                    half_move: half as u8,
                    full_move: full as u32,
                    ..cells
                },
            ),
            _ => None,
        }
    }
}

/// The squares that the reader of the ranks has still before it when its
/// next square is at `file` of `rank`.
pub open spec fn ahead(rank: u64, file: u64) -> u64 {
    (((0xffu64 << file) & 0xff) << (8 * rank)) | !(0xffff_ffff_ffff_ffffu64 << (8 * rank))
}

proof fn lemma_reader_step(a: u64, b: u64, c: u64, rank: u64, file: u64, run: u64)
    by (bit_vector)
    requires
        rank <= 6,
        file <= 7,
        a & ahead(rank, file) == 0,
        b & ahead(rank, file) == 0,
        c & ahead(rank, file) == 0,
        a & !BOARD_MASK == 0,
        a & b == 0,
        a & c == 0,
    ensures
        file < 7 ==> (a | (1u64 << (8 * rank + file))) & ahead(rank, (file + 1) as u64) == 0,
        file < 7 ==> b & ahead(rank, (file + 1) as u64) == 0,
        file < 7 ==> c & ahead(rank, (file + 1) as u64) == 0,
        file < 7 ==> (a | (1u64 << (8 * rank + file))) & !BOARD_MASK == 0,
        file < 7 ==> (a | (1u64 << (8 * rank + file))) & b == 0,
        file < 7 ==> b & (a | (1u64 << (8 * rank + file))) == 0,
        file < 7 ==> (a | (1u64 << (8 * rank + file))) & c == 0,
        file < 7 ==> c & (a | (1u64 << (8 * rank + file))) == 0,
        run <= 7 && file + run <= 7 ==> a & ahead(rank, (file + run) as u64) == 0,
        rank > 0 && file == 7 ==> a & ahead((rank - 1) as u64, 0) == 0,
{
}

proof fn lemma_reader_start()
    by (bit_vector)
    ensures
        0u64 & ahead(6, 0) == 0,
        0u64 & !BOARD_MASK == 0,
        0u64 & 0u64 == 0,
{
}

/// The fields of the position so far keep apart and on the board, and clear
/// of the squares that the reader has before it.
pub open spec fn reader_inv(acc: Board, rank: int, file: int) -> bool {
    &&& 0 <= rank <= 6
    &&& 0 <= file <= 7
    &&& acc.wf()
    &&& acc.boards[0] & ahead(rank as u64, file as u64) == 0
    &&& acc.boards[1] & ahead(rank as u64, file as u64) == 0
    &&& acc.blockers & ahead(rank as u64, file as u64) == 0
}

proof fn lemma_reader_cell(acc: Board, cell: char, rank: int, file: int)
    requires
        reader_inv(acc, rank, file),
        file < 7,
        is_cell(cell),
    ensures
        reader_inv(with_cell(acc, cell, 8 * rank + file), rank, file + 1),
{
    let r = rank as u64;
    let f = file as u64;
    lemma_commute(acc.boards[0], acc.boards[1]);
    lemma_commute(acc.boards[0], acc.blockers);
    lemma_commute(acc.boards[1], acc.blockers);
    assert(square_mask(8 * rank + file) == 1u64 << ((8 * r + f) as u64));
    lemma_reader_step(acc.boards[0], acc.boards[1], acc.blockers, r, f, 0);
    lemma_reader_step(acc.boards[1], acc.boards[0], acc.blockers, r, f, 0);
    lemma_reader_step(acc.blockers, acc.boards[0], acc.boards[1], r, f, 0);
}

proof fn lemma_reader_skip(acc: Board, rank: int, file: int, run: int)
    requires
        reader_inv(acc, rank, file),
        0 <= run <= 7,
        file + run <= 7,
    ensures
        reader_inv(acc, rank, file + run),
        rank > 0 && file == 7 ==> reader_inv(acc, rank - 1, 0),
{
    let r = rank as u64;
    let f = file as u64;
    lemma_commute(acc.boards[0], acc.boards[1]);
    lemma_commute(acc.boards[0], acc.blockers);
    lemma_commute(acc.boards[1], acc.blockers);
    lemma_reader_step(acc.boards[0], acc.boards[1], acc.blockers, r, f, run as u64);
    lemma_reader_step(acc.boards[1], acc.boards[0], acc.blockers, r, f, run as u64);
    lemma_reader_step(acc.blockers, acc.boards[0], acc.boards[1], r, f, run as u64);
}

/// What the notation describes is a well-formed position: every stone and
/// every blocked square on the board, no square taken twice.
pub proof fn lemma_placed_wf(s: Seq<char>, i: int, rank: int, file: int, acc: Board)
    requires
        0 <= i,
        reader_inv(acc, rank, file),
    ensures
        placed(s, i, rank, file, acc) matches Some(b) ==> b.wf(),
    decreases s.len() - i,
{
    if i < s.len() {
        if is_cell(s[i]) {
            if file < 7 {
                lemma_reader_cell(acc, s[i], rank, file);
                lemma_placed_wf(s, i + 1, rank, file + 1, with_cell(acc, s[i], 8 * rank + file));
            }
        } else if s[i] == '/' {
            if file == 7 && rank > 0 {
                lemma_reader_skip(acc, rank, file, 0);
                lemma_placed_wf(s, i + 1, rank - 1, 0, acc);
            }
        } else {
            match rank_index(s[i]) {
                Some(k) => {
                    if file + k + 1 <= 7 {
                        lemma_reader_skip(acc, rank, file, k + 1);
                        lemma_placed_wf(s, i + 1, rank, file + k + 1, acc);
                    }
                },
                None => {},
            }
        }
    }
}

/// Every position that the notation describes is well formed.
pub proof fn lemma_fen_wf(s: Seq<char>)
    ensures
        board_of_fen(s) matches Some(b) ==> b.wf(),
{
    lemma_reader_start();
    lemma_placed_wf(s.subrange(0, token_end(s, 0)), 0, 6, 0, empty_board());
}

/// The characters of `text` from `start` up to `end`.
pub fn slice_of(text: &Vec<char>, start: usize, end: usize) -> (part: Vec<char>)
    requires
        start <= end <= text.len(),
    ensures
        part@ == text@.subrange(start as int, end as int),
{
    let mut part: Vec<char> = Vec::new();
    let mut i: usize = start;
    while i < end
        invariant
            start <= i <= end <= text.len(),
            part@ == text@.subrange(start as int, i as int),
        decreases end - i,
    {
        part.push(text[i]);
        i += 1;
    }
    part
}

/// The end of the field of `text` that starts at `start`.
pub fn field_end(text: &Vec<char>, start: usize) -> (end: usize)
    ensures
        end == token_end(text@, start as int),
        start <= end,
        start <= text.len() ==> end <= text.len(),
{
    let mut i: usize = start;
    while i < text.len() && text[i] != ' '
        invariant
            start <= i,
            start <= text.len() ==> i <= text.len(),
            token_end(text@, start as int) == token_end(text@, i as int),
        decreases text.len() - i,
    {
        i += 1;
    }
    i
}

fn digit_of(c: char) -> (r: Option<u64>)
    ensures
        r matches Some(d) ==> digit_value(c) == Some(d as int) && d <= 9,
        r is None ==> digit_value(c) is None,
{
    if c == '0' {
        Some(0)
    } else if c == '1' {
        Some(1)
    } else if c == '2' {
        Some(2)
    } else if c == '3' {
        Some(3)
    } else if c == '4' {
        Some(4)
    } else if c == '5' {
        Some(5)
    } else if c == '6' {
        Some(6)
    } else if c == '7' {
        Some(7)
    } else if c == '8' {
        Some(8)
    } else if c == '9' {
        Some(9)
    } else {
        None
    }
}

/// A number is at least what its leading digits write.
proof fn lemma_decimal_grows(s: Seq<char>, n: int)
    requires
        0 < n <= s.len(),
        decimal(s) is Some,
    ensures
        decimal(s.take(n)) is Some,
        0 <= decimal(s.take(n))->0 <= decimal(s)->0,
    decreases s.len() - n,
{
    if n == s.len() {
        assert(s.take(n) == s);
        lemma_decimal_positive(s);
    } else {
        assert(s.drop_last().take(n) == s.take(n));
        lemma_decimal_grows(s.drop_last(), n);
    }
}

proof fn lemma_decimal_positive(s: Seq<char>)
    requires
        decimal(s) is Some,
    ensures
        decimal(s)->0 >= 0,
    decreases s.len(),
{
    if s.len() > 1 {
        lemma_decimal_positive(s.drop_last());
    }
}

/// The number that `text` writes, where it is at most `max`.
pub fn read_number(text: &Vec<char>, max: u64) -> (r: Option<u64>)
    requires
        max < 0x1000_0000_0000_0000,
    ensures
        r matches Some(v) ==> decimal_up_to(text@, max as int) == Some(v as int),
        r is None ==> decimal_up_to(text@, max as int) is None,
{
    if text.len() == 0 {
        return None;
    }
    let mut value: u64 = 0;
    let mut i: usize = 0;
    while i < text.len()
        invariant
            i <= text.len(),
            value <= max < 0x1000_0000_0000_0000,
            i > 0 ==> decimal(text@.take(i as int)) == Some(value as int),
            i == 0 ==> value == 0,
        decreases text.len() - i,
    {
        proof {
            assert(text@.take(i + 1).drop_last() == text@.take(i as int));
            if decimal(text@) is Some {
                lemma_decimal_grows(text@, i + 1);
            }
        }
        match digit_of(text[i]) {
            None => {
                return None;
            },
            Some(d) => {
                let next = value * 10 + d;
                if next > max {
                    return None;
                }
                value = next;
            },
        }
        i += 1;
    }
    assert(text@.take(i as int) == text@);
    Some(value)
}

/// What the ranks in `text` describe.
pub fn read_ranks(text: &Vec<char>) -> (r: Option<Board>)
    ensures
        r == placed(text@, 0, 6, 0, empty_board()),
        r matches Some(b) ==> b.wf(),
{
    let mut acc = Board {
        blockers: 0,
        boards: [0, 0],
        side_to_move: Side::Black,
        half_move: 0,
        full_move: 0,
    };
    let mut rank: u64 = 6;
    let mut file: u64 = 0;
    let mut i: usize = 0;
    proof {
        lemma_reader_start();
        lemma_placed_wf(text@, 0, 6, 0, empty_board());
    }
    while i < text.len()
        invariant
            i <= text.len(),
            rank <= 6,
            file <= 7,
            placed(text@, 0, 6, 0, empty_board()) == placed(
                text@,
                i as int,
                rank as int,
                file as int,
                acc,
            ),
        decreases text.len() - i,
    {
        let c = text[i];
        if c == 'x' || c == 'o' || c == '-' {
            if file >= 7 {
                return None;
            }
            let bit: u64 = 1u64 << (8 * rank + file);
            let ghost before = acc;
            if c == 'x' {
                acc.boards[0] = acc.boards[0] | bit;
            } else if c == 'o' {
                acc.boards[1] = acc.boards[1] | bit;
            } else {
                acc.blockers |= bit;
            }
            proof {
                lemma_same_position(acc, with_cell(before, c, 8 * rank + file));
            }
            file += 1;
        } else if c == '/' {
            if file != 7 || rank == 0 {
                return None;
            }
            rank -= 1;
            file = 0;
        } else {
            match crate::notation::rank_of_digit(c) {
                Some(k) => {
                    if file + k + 1 > 7 {
                        return None;
                    }
                    file += k + 1;
                },
                None => {
                    return None;
                },
            }
        }
        i += 1;
    }
    if rank == 0 && file == 7 {
        Some(acc)
    } else {
        None
    }
}

/// The side that `text` names.
pub fn read_side(text: &Vec<char>) -> (r: Option<Side>)
    ensures
        r == side_of_field(text@),
{
    if text.len() == 1 {
        Side::from_token(text[0])
    } else {
        None
    }
}

/// The position that `text` describes in board notation.
pub fn read_board(text: &Vec<char>) -> (r: Option<Board>)
    ensures
        r == board_of_fen(text@),
        r matches Some(b) ==> b.wf(),
{
    let n = text.len();
    let e0 = field_end(text, 0);
    if e0 >= n {
        return None;
    }
    let e1 = field_end(text, e0 + 1);
    if e1 >= n {
        return None;
    }
    let e2 = field_end(text, e1 + 1);
    if e2 >= n {
        return None;
    }
    let e3 = field_end(text, e2 + 1);
    let cells = read_ranks(&slice_of(text, 0, e0));
    let side = read_side(&slice_of(text, e0 + 1, e1));
    let half = read_number(&slice_of(text, e1 + 1, e2), 255);
    let full = read_number(&slice_of(text, e2 + 1, e3), 0xffff_ffff);
    match (cells, side, half, full) {
        (Some(cells), Some(side), Some(half), Some(full)) => Some(
            Board {
                blockers: cells.blockers,
                boards: cells.boards,
                side_to_move: side,
                half_move: half as u8,
                full_move: full as u32,
            },
        ),
        _ => None,
    }
}

impl Board {
    /// The position that `fen` describes in board notation.
    pub fn new(fen: String) -> (board: Board)
        requires
            board_of_fen(fen@) is Some,
        ensures
            Some(board) == board_of_fen(fen@),
            board.wf(),
    {
        match Board::parse(fen.as_str()) {
            Some(board) => board,
            None => Board::startpos(),
        }
    }

    /// The position that `fen` describes in board notation, or nothing
    /// where `fen` is not in that notation.
    pub fn parse(fen: &str) -> (r: Option<Board>)
        ensures
            r == board_of_fen(fen@),
            r matches Some(b) ==> b.wf(),
    {
        let text = chars_of(fen);
        read_board(&text)
    }

    /// The position from which a game starts: `x5o/7/7/7/7/7/o5x x 0 1`.
    pub fn startpos() -> (board: Board)
        ensures
            board == start_position(),
            board.wf(),
    {
        proof {
            lemma_start_wf();
        }
        Board {
            blockers: 0,
            boards: [0x1000000000040, 0x40000000000001],
            side_to_move: Side::Black,
            half_move: 0,
            full_move: 1,
        }
    }
}

proof fn lemma_start_wf()
    by (bit_vector)
    ensures
        0x1000000000040u64 & !BOARD_MASK == 0,
        0x40000000000001u64 & !BOARD_MASK == 0,
        0u64 & !BOARD_MASK == 0,
        0x1000000000040u64 & 0x40000000000001u64 == 0,
        0x1000000000040u64 & 0u64 == 0,
        0x40000000000001u64 & 0u64 == 0,
{
}

} // verus!
