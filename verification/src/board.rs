//! The position: the stones of both sides, the blocked squares, the side to
//! move and the two move counters.

use vstd::prelude::*;
use vstd::std_specs::cmp::PartialEqSpecImpl;
use crate::bits::{lemma_commute, neighbours, popcount, within_board, BOARD_MASK};
use crate::movegen::singles;

verus! {

/// A set of squares, one bit each.
pub type BitBoard = u64;

/// Half moves without a capture after which a game is drawn.
pub const HALF_MOVE_LIMIT: u8 = 100;

#[derive(Clone, Copy, PartialEq, Eq, Debug, Hash, Structural)]
pub enum Side {
    Black,
    White,
}

/// How a position stands for the side to move.
#[derive(Clone, Copy, PartialEq, Eq, Debug, Hash, Structural)]
pub enum Status {
    Winner,
    Loser,
    Draw,
    Ongoing,
}

impl Side {
    /// The other side.
    pub open spec fn flip(self) -> Side {
        match self {
            Side::Black => Side::White,
            Side::White => Side::Black,
        }
    }

    /// The other side.
    pub fn not(self) -> (r: Side)
        ensures
            r == self.flip(),
    {
        match self {
            Side::Black => Side::White,
            Side::White => Side::Black,
        }
    }

    /// The side that a token of the board notation names: `x` is Black, `o`
    /// is White, anything else names no side.
    pub fn from_token(token: char) -> (r: Option<Side>)
        ensures
            r == side_of_token(token),
    {
        if token == 'x' {
            Some(Side::Black)
        } else if token == 'o' {
            Some(Side::White)
        } else {
            None
        }
    }

    /// 0 for Black, 1 for White.
    pub fn index(self) -> (r: usize)
        ensures
            r == (if self == Side::Black { 0usize } else { 1usize }),
    {
        match self {
            Side::Black => 0,
            Side::White => 1,
        }
    }

    pub fn as_bool(&self) -> (r: bool)
        ensures
            r == (*self == Side::White),
    {
        match self {
            Side::Black => false,
            Side::White => true,
        }
    }

    pub fn toi32(&self) -> (r: i32)
        ensures
            r == (if *self == Side::White { 1i32 } else { -1i32 }),
    {
        match self {
            Side::Black => -1,
            Side::White => 1,
        }
    }
}

/// The side named by a token of the board notation.
pub open spec fn side_of_token(token: char) -> Option<Side> {
    if token == 'x' {
        Some(Side::Black)
    } else if token == 'o' {
        Some(Side::White)
    } else {
        None
    }
}

#[derive(Clone, Copy, Eq, Debug, Hash)]
pub struct Board {
    /// The permanently blocked squares.
    pub blockers: BitBoard,
    /// The stones of Black, then those of White.
    pub boards: [BitBoard; 2],
    pub side_to_move: Side,
    /// Plies since the last capture.
    pub half_move: u8,
    pub full_move: u32,
}

impl PartialEq for Board {
    fn eq(&self, other: &Board) -> (r: bool) {
        let r = self.blockers == other.blockers && self.boards[0] == other.boards[0]
            && self.boards[1] == other.boards[1] && self.side_to_move == other.side_to_move
            && self.half_move == other.half_move && self.full_move == other.full_move;
        proof {
            if r {
                assert(self.boards =~= other.boards);
            }
        }
        r
    }
}

impl PartialEqSpecImpl for Board {
    open spec fn obeys_eq_spec() -> bool {
        true
    }

    open spec fn eq_spec(&self, other: &Board) -> bool {
        *self == *other
    }
}

/// Two positions with the same stones, blocked squares, side to move and
/// counters are the same position.
pub proof fn lemma_same_position(a: Board, b: Board)
    requires
        a.blockers == b.blockers,
        a.boards[0] == b.boards[0],
        a.boards[1] == b.boards[1],
        a.side_to_move == b.side_to_move,
        a.half_move == b.half_move,
        a.full_move == b.full_move,
    ensures
        a == b,
{
    assert(a.boards =~= b.boards);
}

impl Board {
    /// The three masks lie within the board and no square is in two of them.
    pub open spec fn wf(self) -> bool {
        &&& within_board(self.boards[0])
        &&& within_board(self.boards[1])
        &&& within_board(self.blockers)
        &&& self.boards[0] & self.boards[1] == 0
        &&& self.boards[0] & self.blockers == 0
        &&& self.boards[1] & self.blockers == 0
    }

    /// Whether the position is well formed.
    pub fn well_formed(&self) -> (r: bool)
        ensures
            r == self.wf(),
    {
        self.boards[0] & !BOARD_MASK == 0 && self.boards[1] & !BOARD_MASK == 0 && self.blockers
            & !BOARD_MASK == 0 && self.boards[0] & self.boards[1] == 0 && self.boards[0] & self.blockers == 0
            && self.boards[1] & self.blockers == 0
    }

    /// The stones of one side.
    pub open spec fn stones(self, side: Side) -> BitBoard {
        match side {
            Side::Black => self.boards[0],
            Side::White => self.boards[1],
        }
    }

    /// The stones of the side to move.
    pub open spec fn own(self) -> BitBoard {
        self.stones(self.side_to_move)
    }

    /// The stones of the side that is not to move.
    pub open spec fn theirs(self) -> BitBoard {
        self.stones(self.side_to_move.flip())
    }

    /// Every square that holds a stone or is blocked.
    pub open spec fn occupied(self) -> BitBoard {
        self.boards[0] | self.boards[1] | self.blockers
    }

    /// Whether some stone, of either side, has an empty square within two
    /// steps.
    pub open spec fn has_room(self) -> bool {
        neighbours(neighbours(self.boards[0] | self.boards[1])) & !self.occupied() != 0
    }

    /// The game is over when a side has no stone left, when the half-move
    /// clock has run out, or when no stone of either side can move.
    pub open spec fn is_over(self) -> bool {
        self.own() == 0 || self.theirs() == 0 || self.half_move >= HALF_MOVE_LIMIT
            || !self.has_room()
    }

    /// The result for the side to move. A side without stones has lost; then
    /// the half-move clock draws; and on a board without room the side with
    /// more stones wins, the side to move losing a tie.
    pub open spec fn outcome(self) -> Status {
        if self.own() == 0 {
            Status::Loser
        } else if self.theirs() == 0 {
            Status::Winner
        } else if self.half_move >= HALF_MOVE_LIMIT {
            Status::Draw
        } else if self.has_room() {
            Status::Ongoing
        } else if popcount(self.own()) > popcount(self.theirs()) {
            Status::Winner
        } else {
            Status::Loser
        }
    }

    pub fn current_pieces(&self) -> (r: u64)
        ensures
            r == self.own(),
    {
        match self.side_to_move {
            Side::Black => self.boards[0],
            Side::White => self.boards[1],
        }
    }

    pub fn other_pieces(&self) -> (r: u64)
        ensures
            r == self.theirs(),
    {
        match self.side_to_move {
            Side::Black => self.boards[1],
            Side::White => self.boards[0],
        }
    }

    /// Every square that a stone cannot land on.
    pub fn blockers(&self) -> (r: u64)
        ensures
            r == self.occupied(),
    {
        self.boards[0] | self.boards[1] | self.blockers
    }

    /// The complement of [`Board::blockers`]; the bits off the board count
    /// as empty here.
    pub fn empty(&self) -> (r: u64)
        ensures
            r == !self.occupied(),
    {
        !self.blockers()
    }

    /// The key under which a position is cached: the squares that hold a
    /// stone of either side.
    pub fn hash(&self) -> (r: u64)
        ensures
            r == self.hash_key(),
    {
        self.boards[0] | self.boards[1]
    }

    pub open spec fn hash_key(self) -> u64 {
        self.boards[0] | self.boards[1]
    }

    pub fn game_over(&self) -> (r: bool)
        ensures
            r == self.is_over(),
    {
        let both = self.current_pieces() | self.other_pieces();
        let reach = singles(singles(both));
        assert(both == self.boards[0] | self.boards[1]) by {
            lemma_commute(self.boards[0], self.boards[1]);
        }
        if self.current_pieces() == 0 {
            return true;
        }
        if self.other_pieces() == 0 {
            return true;
        }
        if self.half_move >= HALF_MOVE_LIMIT {
            return true;
        }
        if reach & self.empty() != 0 {
            return false;
        }
        true
    }

    pub fn status(&self) -> (r: Status)
        ensures
            r == self.outcome(),
            (r == Status::Ongoing) == !self.is_over(),
    {
        let both = self.current_pieces() | self.other_pieces();
        let reach = singles(singles(both));
        assert(both == self.boards[0] | self.boards[1]) by {
            lemma_commute(self.boards[0], self.boards[1]);
        }
        if self.current_pieces() == 0 {
            return Status::Loser;
        }
        if self.other_pieces() == 0 {
            return Status::Winner;
        }
        if self.half_move >= HALF_MOVE_LIMIT {
            return Status::Draw;
        }
        if reach & self.empty() != 0 {
            return Status::Ongoing;
        }
        if self.current_pieces().count_ones() > self.other_pieces().count_ones() {
            Status::Winner
        } else {
            Status::Loser
        }
    }
}

/// A game is over exactly when its result is no longer open.
pub proof fn lemma_over_has_a_result(b: Board)
    ensures
        b.is_over() <==> b.outcome() != Status::Ongoing,
{
}

} // verus!
