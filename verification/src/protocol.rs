//! Reading the requests of the text protocol: the limits of a `go` and the
//! position of a `position`.

use vstd::prelude::*;
use crate::board::Board;
use crate::fen::{board_of_fen, decimal_up_to, read_board, read_number, slice_of, start_position};
use crate::move_app::{apply_move, make_move};
use crate::movegen::{generate_moves, legal_moves, null_move, Move};
use crate::movepicker::contains_move;
use crate::notation::{chars_of, named_move, pass_text, read_move};
use crate::rules::lemma_legal_move_round_trip;
use crate::search::{GoInfo, Search};

verus! {

/// The fields of a text, which single spaces separate. A text without a
/// space is one field; two spaces in a row hold an empty field.
pub open spec fn split(s: Seq<char>) -> Seq<Seq<char>>
    decreases s.len(),
{
    if s.len() == 0 {
        seq![Seq::<char>::empty()]
    } else {
        let head = split(s.drop_last());
        if s.last() == ' ' {
            head.push(Seq::<char>::empty())
        } else {
            head.update(head.len() - 1, head.last().push(s.last()))
        }
    }
}

/// The texts that the vectors of `v` hold.
pub open spec fn texts(v: Seq<Vec<char>>) -> Seq<Seq<char>> {
    Seq::new(v.len(), |i: int| v[i]@)
}

/// The first place from `from` on where `needle` stands in `hay`.
pub open spec fn find_from(hay: Seq<char>, needle: Seq<char>, from: int) -> Option<int>
    decreases hay.len() - from,
{
    if from < 0 || from + needle.len() > hay.len() {
        None
    } else if hay.subrange(from, from + needle.len()) == needle {
        Some(from)
    } else if from >= hay.len() {
        None
    } else {
        find_from(hay, needle, from + 1)
    }
}

/// The first place where `needle` stands in `hay`.
pub open spec fn find(hay: Seq<char>, needle: Seq<char>) -> Option<int> {
    find_from(hay, needle, 0)
}

/// The first of `fields` from `from` on that is `key`.
pub open spec fn field_from(fields: Seq<Seq<char>>, key: Seq<char>, from: int) -> Option<int>
    decreases fields.len() - from,
{
    if from < 0 || from >= fields.len() {
        None
    } else if fields[from] == key {
        Some(from)
    } else {
        field_from(fields, key, from + 1)
    }
}

/// The number that follows the field `key`. Where no field is `key`, there
/// is none; where nothing follows the first such field, or no number that
/// 32 bits hold, the fields are malformed, and the result is nothing at
/// all.
pub open spec fn argument(fields: Seq<Seq<char>>, key: Seq<char>) -> Option<Option<u32>> {
    match field_from(fields, key, 0) {
        None => Some(None),
        Some(i) => if i + 1 < fields.len() {
            match decimal_up_to(fields[i + 1], u32::MAX as int) {
                Some(v) => Some(Some(v as u32)),
                None => None,
            }
        } else {
            None
        },
    }
}

/// What a `go` request asks for: each limit is the number after its
/// keyword, and the search is endless where a field says `infinite`.
pub open spec fn go_info_of(s: Seq<char>) -> Option<GoInfo> {
    let f = split(s);
    match (
        argument(f, "wtime"@),
        argument(f, "btime"@),
        argument(f, "winc"@),
        argument(f, "binc"@),
        argument(f, "movestogo"@),
        argument(f, "depth"@),
        argument(f, "nodes"@),
        argument(f, "mate"@),
        argument(f, "movetime"@),
    ) {
        (
            Some(wtime),
            Some(btime),
            Some(winc),
            Some(binc),
            Some(moves_to_go),
            Some(depth),
            Some(nodes),
            Some(mate),
            Some(movetime),
        ) => Some(
            GoInfo {
                wtime,
                btime,
                winc,
                binc,
                moves_to_go,
                depth,
                nodes,
                mate,
                movetime,
                infinite: field_from(f, "infinite"@, 0) is Some,
            },
        ),
        _ => None,
    }
}

/// The move that a field of a move list names on `p`: the pass, or a
/// placement or jump that captures the stones of the side not to move.
pub open spec fn listed_move(p: Board, field: Seq<char>) -> Option<Move> {
    if field == pass_text() {
        Some(null_move())
    } else {
        named_move(field, p.theirs())
    }
}

/// The position after the move that `field` names is played on `p`. An
/// empty field plays nothing; a field that names no legal move of `p` leads
/// nowhere, and so does a move for which the move counter has no room.
pub open spec fn played(p: Board, field: Seq<char>) -> Option<Board> {
    if field.len() == 0 {
        Some(p)
    } else {
        match listed_move(p, field) {
            Some(m) => if legal_moves(p).contains(m) && p.full_move < u32::MAX {
                Some(apply_move(p, m))
            } else {
                None
            },
            None => None,
        }
    }
}

/// The position after the moves that `fields` name are played on `b`, one
/// after the other.
pub open spec fn replayed(b: Board, fields: Seq<Seq<char>>) -> Option<Board>
    decreases fields.len(),
{
    if fields.len() == 0 {
        Some(b)
    } else {
        match replayed(b, fields.drop_last()) {
            Some(p) => played(p, fields.last()),
            None => None,
        }
    }
}

/// The position that a `position` request sets up: the start position
/// where the request says `startpos`, else the board notation between
/// `fen` and `moves` (or the end); then the moves after `moves`, if any,
/// played on it.
pub open spec fn position_of(input: Seq<char>) -> Option<Board> {
    let moves_at = find(input, "moves"@);
    let base = if find(input, "startpos"@) is Some {
        Some(start_position())
    } else {
        let end = match moves_at {
            Some(i) => i,
            None => input.len() as int,
        };
        match find(input, "fen"@) {
            Some(f) => if f + 4 <= end {
                board_of_fen(input.subrange(f + 4, end))
            } else {
                None
            },
            None => None,
        }
    };
    match (base, moves_at) {
        (Some(b), Some(i)) => replayed(b, split(input.subrange(i + 5, input.len() as int))),
        (Some(b), None) => Some(b),
        _ => None,
    }
}

/// Whether two texts are the same.
pub fn same_text(a: &Vec<char>, b: &Vec<char>) -> (r: bool)
    ensures
        r == (a@ == b@),
{
    if a.len() != b.len() {
        return false;
    }
    let mut i: usize = 0;
    while i < a.len()
        invariant
            i <= a.len(),
            a.len() == b.len(),
            forall|k: int| 0 <= k < i ==> a@[k] == b@[k],
        decreases a.len() - i,
    {
        if a[i] != b[i] {
            return false;
        }
        i += 1;
    }
    assert(a@ =~= b@);
    true
}

/// The fields of `text`.
pub fn split_fields(text: &Vec<char>) -> (fields: Vec<Vec<char>>)
    ensures
        texts(fields@) == split(text@),
{
    let mut fields: Vec<Vec<char>> = Vec::new();
    let mut current: Vec<char> = Vec::new();
    let mut i: usize = 0;
    while i < text.len()
        invariant
            i <= text.len(),
            texts(fields@).push(current@) == split(text@.take(i as int)),
        decreases text.len() - i,
    {
        proof {
            assert(text@.take(i + 1).drop_last() == text@.take(i as int));
        }
        let ghost before = texts(fields@).push(current@);
        if text[i] == ' ' {
            let ghost done = texts(fields@);
            fields.push(current);
            current = Vec::new();
            assert(texts(fields@) == before);
        } else {
            current.push(text[i]);
            assert(texts(fields@).push(current@) == before.update(
                before.len() - 1,
                before.last().push(text@[i as int]),
            ));
        }
        i += 1;
    }
    assert(text@.take(i as int) == text@);
    let ghost before = texts(fields@).push(current@);
    fields.push(current);
    assert(texts(fields@) == before);
    fields
}

/// The first place in `hay` where `needle` stands.
pub fn find_text(hay: &Vec<char>, needle: &Vec<char>) -> (r: Option<usize>)
    ensures
        (r is Some) == (find(hay@, needle@) is Some),
        r is Some ==> find(hay@, needle@) == Some(r->0 as int),
        r is Some ==> r->0 + needle@.len() <= hay@.len(),
{
    if needle.len() > hay.len() {
        return None;
    }
    let last = hay.len() - needle.len();
    let mut from: usize = 0;
    while from <= last
        invariant
            from <= last + 1,
            last == hay.len() - needle.len(),
            find(hay@, needle@) == find_from(hay@, needle@, from as int),
        decreases last + 1 - from,
    {
        let mut k: usize = 0;
        while k < needle.len() && hay[from + k] == needle[k]
            invariant
                k <= needle.len(),
                from + needle.len() <= hay.len(),
                forall|j: int| 0 <= j < k ==> hay@[from + j] == needle@[j],
            decreases needle.len() - k,
        {
            k += 1;
        }
        if k == needle.len() {
            assert(hay@.subrange(from as int, from + needle@.len()) =~= needle@);
            return Some(from);
        }
        assert(hay@.subrange(from as int, from + needle@.len())[k as int] != needle@[k as int]);
        from += 1;
    }
    None
}

/// The first of `fields` that is `key`.
pub fn find_field(fields: &Vec<Vec<char>>, key: &str) -> (r: Option<usize>)
    ensures
        (r is Some) == (field_from(texts(fields@), key@, 0) is Some),
        r is Some ==> field_from(texts(fields@), key@, 0) == Some(r->0 as int),
        r is Some ==> r->0 < fields@.len(),
{
    let key_text = chars_of(key);
    let mut i: usize = 0;
    while i < fields.len()
        invariant
            i <= fields.len(),
            key_text@ == key@,
            field_from(texts(fields@), key@, 0) == field_from(texts(fields@), key@, i as int),
        decreases fields.len() - i,
    {
        if same_text(&fields[i], &key_text) {
            return Some(i);
        }
        i += 1;
    }
    None
}

/// The number after the field `key`: `Ok` of nothing where no field is
/// `key`, `Err` where what follows the field is no number.
pub fn read_argument(fields: &Vec<Vec<char>>, key: &str) -> (r: Result<Option<u32>, ()>)
    ensures
        r matches Ok(v) ==> argument(texts(fields@), key@) == Some(v),
        r is Err ==> argument(texts(fields@), key@) is None,
{
    match find_field(fields, key) {
        None => Ok(None),
        Some(i) => {
            let n = fields.len();
            if i + 1 < n {
                match read_number(&fields[i + 1], 0xffff_ffff) {
                    Some(v) => Ok(Some(v as u32)),
                    None => Err(()),
                }
            } else {
                Err(())
            }
        },
    }
}

impl GoInfo {
    /// What the `go` request `input` asks for, or nothing where a keyword
    /// of it lacks its number.
    pub fn parse(input: &str) -> (r: Option<GoInfo>)
        ensures
            r == go_info_of(input@),
    {
        let fields = split_fields(&chars_of(input));
        let wtime = read_argument(&fields, "wtime");
        let btime = read_argument(&fields, "btime");
        let winc = read_argument(&fields, "winc");
        let binc = read_argument(&fields, "binc");
        let moves_to_go = read_argument(&fields, "movestogo");
        let depth = read_argument(&fields, "depth");
        let nodes = read_argument(&fields, "nodes");
        let mate = read_argument(&fields, "mate");
        let movetime = read_argument(&fields, "movetime");
        let infinite = find_field(&fields, "infinite").is_some();
        match (wtime, btime, winc, binc, moves_to_go, depth, nodes, mate, movetime) {
            (
                Ok(wtime),
                Ok(btime),
                Ok(winc),
                Ok(binc),
                Ok(moves_to_go),
                Ok(depth),
                Ok(nodes),
                Ok(mate),
                Ok(movetime),
            ) => Some(
                GoInfo {
                    wtime,
                    btime,
                    winc,
                    binc,
                    moves_to_go,
                    depth,
                    nodes,
                    mate,
                    movetime,
                    infinite,
                },
            ),
            _ => None,
        }
    }

    /// What the `go` request `input` asks for.
    pub fn new(input: String) -> (info: GoInfo)
        requires
            go_info_of(input@) is Some,
        ensures
            Some(info) == go_info_of(input@),
    {
        match GoInfo::parse(input.as_str()) {
            Some(info) => info,
            None => GoInfo {
                wtime: None,
                btime: None,
                winc: None,
                binc: None,
                moves_to_go: None,
                depth: None,
                nodes: None,
                mate: None,
                movetime: None,
                infinite: false,
            },
        }
    }
}

/// The move that `field` names on `board`.
pub fn read_listed_move(board: &Board, field: &Vec<char>) -> (r: Option<Move>)
    ensures
        r == listed_move(*board, field@),
{
    let pass = chars_of("0000");
    proof {
        reveal_strlit("0000");
        assert(pass@ =~= pass_text());
    }
    if same_text(field, &pass) {
        Some(Move { null: true, from: 0, to: 0, capture_square: 0 })
    } else {
        read_move(field, board.other_pieces())
    }
}

/// Plays the move that `field` names on `board`. Returns whether the field
/// was empty or named a legal move; if not, `board` is as it was.
pub fn play_field(board: &mut Board, field: &Vec<char>) -> (ok: bool)
    requires
        old(board).wf(),
    ensures
        ok == (played(*old(board), field@) is Some),
        ok ==> Some(*final(board)) == played(*old(board), field@),
        !ok ==> *final(board) == *old(board),
        final(board).wf(),
{
    if field.len() == 0 {
        return true;
    }
    match read_listed_move(board, field) {
        Some(m) => {
            let moves = generate_moves(board);
            if contains_move(&moves, &m) && board.full_move < u32::MAX {
                proof {
                    let k = choose|k: int|
                        0 <= k < legal_moves(*board).len() && legal_moves(*board)[k] == m;
                    lemma_legal_move_round_trip(*board, k);
                }
                make_move(board, &m);
                true
            } else {
                false
            }
        },
        None => false,
    }
}

/// The position that the `position` request `text` sets up.
pub fn read_position(text: &Vec<char>) -> (r: Option<Board>)
    ensures
        r == position_of(text@),
        r matches Some(b) ==> b.wf(),
{
    proof {
        reveal_strlit("moves");
        reveal_strlit("fen");
    }
    let moves_at = find_text(text, &chars_of("moves"));
    let base = if find_text(text, &chars_of("startpos")).is_some() {
        Some(Board::startpos())
    } else {
        let end = match moves_at {
            Some(i) => i,
            None => text.len(),
        };
        match find_text(text, &chars_of("fen")) {
            Some(f) => {
                proof {
                    reveal_strlit("fen");
                }
                if end >= 4 && f <= end - 4 {
                    read_board(&slice_of(text, f + 4, end))
                } else {
                    None
                }
            },
            None => None,
        }
    };
    match (base, moves_at) {
        (Some(base), Some(at)) => {
            proof {
                reveal_strlit("moves");
            }
            let n = text.len();
            let fields = split_fields(&slice_of(text, at + 5, n));
            let mut board = base;
            let mut i: usize = 0;
            while i < fields.len()
                invariant
                    i <= fields.len(),
                    board.wf(),
                    position_of(text@) == replayed(base, texts(fields@)),
                    Some(board) == replayed(base, texts(fields@).take(i as int)),
                decreases fields.len() - i,
            {
                proof {
                    assert(texts(fields@).take(i + 1).drop_last() == texts(fields@).take(
                        i as int,
                    ));
                }
                if !play_field(&mut board, &fields[i]) {
                    proof {
                        lemma_replay_fails(base, texts(fields@), i + 1);
                    }
                    return None;
                }
                i += 1;
            }
            assert(texts(fields@).take(i as int) == texts(fields@));
            Some(board)
        },
        (Some(base), None) => Some(base),
        _ => None,
    }
}

/// A move list with a move that cannot be played leads nowhere.
proof fn lemma_replay_fails(b: Board, fields: Seq<Seq<char>>, n: int)
    requires
        0 <= n <= fields.len(),
        replayed(b, fields.take(n)) is None,
    ensures
        replayed(b, fields) is None,
    decreases fields.len() - n,
{
    if n < fields.len() {
        assert(fields.take(n + 1).drop_last() == fields.take(n));
        lemma_replay_fails(b, fields, n + 1);
    } else {
        assert(fields.take(n) == fields);
    }
}

impl Search {
    /// Sets up the position of the `position` request `input` and takes
    /// the side to move as the side of the search. Returns whether the
    /// request describes a position; if not, nothing changes.
    pub fn try_set_position(&mut self, input: &str) -> (ok: bool)
        ensures
            ok == (position_of(input@) is Some),
            ok ==> Some(final(self).board) == position_of(input@) && final(self).my_side
                == final(self).board.side_to_move && final(self).board.wf(),
            !ok ==> final(self).board == old(self).board && final(self).my_side == old(
                self,
            ).my_side,
            final(self).shared == old(self).shared,
            final(self).table@ == old(self).table@,
            final(self).stack_storage@ == old(self).stack_storage@,
    {
        match read_position(&chars_of(input)) {
            Some(board) => {
                self.board = board;
                self.my_side = board.side_to_move;
                true
            },
            None => false,
        }
    }

    /// Sets up the position of the `position` request `input` and takes
    /// the side to move as the side of the search.
    pub fn set_position(&mut self, input: String)
        requires
            position_of(input@) is Some,
        ensures
            Some(final(self).board) == position_of(input@),
            final(self).board.wf(),
            final(self).my_side == final(self).board.side_to_move,
            final(self).shared == old(self).shared,
            final(self).table@ == old(self).table@,
            final(self).stack_storage@ == old(self).stack_storage@,
    {
        self.try_set_position(input.as_str());
    }
}

} // verus!
