//! The search: iterative deepening over an alpha-beta search in negamax
//! form, with a transposition table and a killer move to order the moves.

use std::sync::{Arc, Mutex};
use std::time::Instant;
use vstd::prelude::*;
use crate::board::{Board, Side, Status};
use crate::eval::Eval;
use crate::fen::start_position;
use crate::handles::{
    after_millis, millis_since, not_before, now, set_stop, stop_requested, Shared,
};
use crate::move_app::{apply_move, make_move, unmake_move};
use crate::movegen::{generate_moves, legal_moves, Move};
use crate::movepicker::{contains_move, lemma_ordered_keeps_moves, ordered, MovePicker};
use crate::rules::{lemma_generated_move_has_text, lemma_legal_move_round_trip};
use crate::table::{found, Entry, NodeType, Table};
use crate::value::{
    lemma_best_is_attained, lemma_best_is_upper, lemma_leaf_bounded, lemma_reply_bounded,
    leaf_score, minimax, reply_score, WINDOW, WIN_SCORE,
};

verus! {

/// The slots of the transposition table of a new search.
pub const TABLE_SLOTS: usize = 2_000_000;

/// The number of depths for which a search keeps a killer move and a best
/// move; a search goes less deep than this.
pub const MAX_DEPTH: u8 = 200;

/// What a `go` request asks for: the clocks and increments of both sides in
/// milliseconds, and the limits of the search.
pub struct GoInfo {
    pub wtime: Option<u32>,
    pub btime: Option<u32>,
    pub winc: Option<u32>,
    pub binc: Option<u32>,
    pub moves_to_go: Option<u32>,
    pub depth: Option<u32>,
    pub nodes: Option<u32>,
    pub mate: Option<u32>,
    pub movetime: Option<u32>,
    pub infinite: bool,
}

/// The one limit under which a search runs.
#[derive(Clone, Copy, PartialEq, Eq, Debug, Structural)]
pub enum Budget {
    Nodes(u64),
    Depth(u8),
    Millis(u64),
    Infinite,
}

/// The time for one move of a side with `my_time` left on its clock
/// against `other_time`: a tenth of its own time, and, where the other side
/// has used less time and so has more left, three quarters of what the
/// other side has more.
pub open spec fn time_share(my_time: u32, other_time: u32) -> int {
    if other_time > my_time {
        ((other_time - my_time) * 3) / 4 + my_time / 10
    } else {
        my_time as int / 10
    }
}

/// The highest depth that a depth budget can name.
pub const DEPTH_LIMIT: u32 = 255;

impl GoInfo {
    /// Whether the request names a limit: a node, depth or time budget, an
    /// endless search, or both clocks.
    pub open spec fn resolvable(self) -> bool {
        self.nodes is Some || self.depth is Some || self.movetime is Some || self.infinite || (
        self.btime is Some && self.wtime is Some)
    }

    /// The limit that the request sets for `side`: the node budget before
    /// the depth budget, that before the time for the move, that before the
    /// endless search, and last a share of the clock. A depth above
    /// [`DEPTH_LIMIT`] counts as that.
    pub open spec fn budget_for(self, side: Side) -> Option<Budget> {
        if self.nodes is Some {
            Some(Budget::Nodes(self.nodes->0 as u64))
        } else if self.depth is Some {
            Some(
                Budget::Depth(
                    if self.depth->0 > DEPTH_LIMIT {
                        DEPTH_LIMIT as u8
                    } else {
                        self.depth->0 as u8
                    },
                ),
            )
        } else if self.movetime is Some {
            Some(Budget::Millis(self.movetime->0 as u64))
        } else if self.infinite {
            Some(Budget::Infinite)
        } else if self.btime is Some && self.wtime is Some {
            Some(
                Budget::Millis(
                    match side {
                        Side::Black => time_share(self.btime->0, self.wtime->0),
                        Side::White => time_share(self.wtime->0, self.btime->0),
                    } as u64,
                ),
            )
        } else {
            None
        }
    }

    /// The depth budget of the request for `side`, where that is its
    /// limit.
    pub open spec fn depth_budget(self, side: Side) -> Option<u8> {
        match self.budget_for(side) {
            Some(Budget::Depth(limit)) => Some(limit),
            _ => None,
        }
    }

    /// The limit that the request sets for `side`, if it sets one.
    pub fn budget(&self, side: Side) -> (r: Option<Budget>)
        ensures
            r == self.budget_for(side),
            r is Some <==> self.resolvable(),
    {
        if let Some(nodes) = self.nodes {
            Some(Budget::Nodes(nodes as u64))
        } else if let Some(depth) = self.depth {
            Some(
                Budget::Depth(
                    if depth > DEPTH_LIMIT {
                        DEPTH_LIMIT as u8
                    } else {
                        depth as u8
                    },
                ),
            )
        } else if let Some(movetime) = self.movetime {
            Some(Budget::Millis(movetime as u64))
        } else if self.infinite {
            Some(Budget::Infinite)
        } else {
            match (self.btime, self.wtime) {
                (Some(btime), Some(wtime)) => {
                    let (my_time, other_time) = match side {
                        Side::Black => (btime, wtime),
                        Side::White => (wtime, btime),
                    };
                    let time_left: u64 = if other_time > my_time {
                        ((other_time - my_time) as u64 * 3) / 4 + (my_time / 10) as u64
                    } else {
                        (my_time / 10) as u64
                    };
                    Some(Budget::Millis(time_left))
                },
                _ => None,
            }
        }
    }
}

/// What a search reports of one depth.
#[derive(Clone, Copy, Debug)]
pub struct DepthReport {
    pub depth: u8,
    pub score: i32,
    pub nodes: u64,
    /// Milliseconds since the search began.
    pub millis: u128,
    pub tt_hits: u64,
    pub cutoffs: u64,
}

/// The outcome of a search: the move to play, the depth of the search that
/// found it, the reports of all depths searched, and whether a stop request
/// or an aborted depth ended it.
pub struct Found {
    pub best_move: Move,
    pub depth: u8,
    pub reports: Vec<DepthReport>,
    pub stopped: bool,
}

/// What a search does after a depth.
#[derive(Clone, Copy, PartialEq, Eq, Debug, Structural)]
pub struct Decision {
    /// The move of the depth, where it becomes the move to play.
    pub adopt: Option<Move>,
    /// Whether the next depth is searched.
    pub go_on: bool,
    /// Whether a stop request or an aborted depth ends the search.
    pub stopped: bool,
}

/// What follows the search of `depth`, which has `best` as its best move:
/// where the limit is reached, a stop is requested or the depth was
/// aborted, the search ends, and the move of the depth does not count; else
/// that move becomes the move to play and the next depth is searched. The
/// move of depth 1 counts in either case.
pub open spec fn decided(
    depth: u8,
    limit_reached: bool,
    stop: bool,
    aborted: bool,
    best: Option<Move>,
) -> Decision {
    let ended = limit_reached || stop || aborted;
    Decision {
        adopt: if depth == 1 || !ended {
            best
        } else {
            None
        },
        go_on: !ended && best is Some,
        stopped: stop || aborted,
    }
}

/// What follows the search of a depth: see [`decided`].
pub fn decide(depth: u8, limit_reached: bool, stop: bool, aborted: bool, best: Option<Move>) -> (d:
    Decision)
    ensures
        d == decided(depth, limit_reached, stop, aborted, best),
{
    let ended = limit_reached || stop || aborted;
    Decision {
        adopt: if depth == 1 || !ended {
            best
        } else {
            None
        },
        go_on: !ended && best.is_some(),
        stopped: stop || aborted,
    }
}

/// The number of depths that a search under `budget` reports, and the
/// depth whose move it returns, when no stop request and no aborted depth
/// ends it: under a depth budget it searches the depths up to the budget
/// and returns the move of the depth before; an endless search goes on to
/// the last depth. Under a budget of nodes or of time the counter and the
/// clock decide.
pub open spec fn unstopped(budget: Budget) -> Option<(int, int)> {
    match budget {
        Budget::Depth(limit) => if limit == 1 {
            Some((1int, 1int))
        } else if 2 <= limit < MAX_DEPTH {
            Some((limit as int, limit - 1))
        } else if limit >= MAX_DEPTH {
            Some((MAX_DEPTH - 1, MAX_DEPTH - 1))
        } else {
            None
        },
        Budget::Infinite => Some((MAX_DEPTH - 1, MAX_DEPTH - 1)),
        _ => None,
    }
}

/// The counters of a search.
pub struct SearchInfo {
    /// Moves tried.
    pub nodes: u64,
    /// Positions whose table entry gave a move to try first.
    pub tt_hits: u64,
    /// Positions left early because a move was too good.
    pub cutoffs: u64,
    /// Whether a position was left unsearched because the end condition was
    /// met or a stop was requested.
    pub aborted: bool,
}

impl SearchInfo {
    pub fn new() -> (info: SearchInfo)
        ensures
            info.nodes == 0,
            info.tt_hits == 0,
            info.cutoffs == 0,
            !info.aborted,
    {
        SearchInfo { nodes: 0, tt_hits: 0, cutoffs: 0, aborted: false }
    }

    pub fn reset(&mut self)
        ensures
            final(self).nodes == 0,
            final(self).tt_hits == 0,
            final(self).cutoffs == 0,
            !final(self).aborted,
    {
        self.nodes = 0;
        self.tt_hits = 0;
        self.cutoffs = 0;
        self.aborted = false;
    }
}

/// What a search remembers for one remaining depth.
#[derive(Clone, Copy)]
pub struct SearchData {
    /// The move that last cut a position of this depth short.
    pub killer_move: Option<Move>,
    /// The best move of the position of this depth searched last.
    pub pv_move: Option<Move>,
}

/// The limits of a search by the clock: when it is to end, and how deep it
/// goes.
pub struct Controller {
    pub end_time: Instant,
    pub max_depth: u8,
}

impl Controller {
    /// The end condition of a search under these limits: its end time.
    pub fn end_condition(self) -> (end: EndCondition)
        ensures
            end == EndCondition::Time(self.end_time),
    {
        EndCondition::Time(self.end_time)
    }
}

/// When a search is to end.
pub enum EndCondition {
    /// When the clock reaches this moment.
    Time(Instant),
    /// When this many moves were tried.
    Nodes(u64),
    /// When this depth was searched.
    Depth(u8),
    /// When it is stopped.
    Infinite,
}

impl EndCondition {
    /// The end condition of a search by the clock: the moment `deadline`,
    /// or none where the clock cannot hold the moment.
    pub fn until(deadline: Option<Instant>) -> (end: EndCondition)
        ensures
            end == match deadline {
                Some(end_time) => EndCondition::Time(end_time),
                None => EndCondition::Infinite,
            },
    {
        match deadline {
            Some(end_time) => EndCondition::Time(end_time),
            None => EndCondition::Infinite,
        }
    }

    /// Whether a search that has tried `nodes` moves and finished `depth`
    /// is to end. For a time limit the clock decides.
    pub fn met(&self, nodes: u64, depth: u8) -> (r: bool)
        ensures
            match *self {
                EndCondition::Time(_) => true,
                EndCondition::Nodes(limit) => r == (nodes >= limit),
                EndCondition::Depth(limit) => r == (depth == limit),
                EndCondition::Infinite => !r,
            },
    {
        match self {
            EndCondition::Time(end_time) => not_before(&now(), end_time),
            EndCondition::Nodes(node_count) => nodes >= *node_count,
            EndCondition::Depth(depth_to_reach) => depth == *depth_to_reach,
            EndCondition::Infinite => false,
        }
    }
}

pub struct Search {
    pub search_info: SearchInfo,
    pub shared: Arc<Mutex<Shared>>,
    pub table: Table,
    pub board: Board,
    pub my_side: Side,
    pub stack_storage: Vec<SearchData>,
    pub eval: Eval,
}

/// What a score `score`, found in the window from `alpha` to `beta`, says
/// of the true score `value`: inside the window it is the true score, at or
/// below `alpha` the true score is no higher, at or above `beta` no lower.
pub open spec fn within_window(score: int, alpha: int, beta: int, value: int) -> bool {
    &&& score <= alpha ==> value <= score
    &&& alpha < score < beta ==> value == score
    &&& score >= beta ==> value >= score
}

/// Whether a search that has tried `nodes` moves is over before it looks at
/// a position, whatever the clock and the stop flag say: its node budget is
/// spent, or its depth budget is none.
pub open spec fn spent(end: EndCondition, nodes: u64) -> bool {
    match end {
        EndCondition::Nodes(limit) => nodes >= limit,
        EndCondition::Depth(limit) => limit == 0,
        _ => false,
    }
}

/// A search has left everything as it was, but for the mark that it was
/// aborted.
pub open spec fn only_aborted(before: Search, after: Search) -> bool {
    &&& after.search_info.aborted
    &&& after.search_info.nodes == before.search_info.nodes
    &&& after.search_info.tt_hits == before.search_info.tt_hits
    &&& after.search_info.cutoffs == before.search_info.cutoffs
    &&& after.table@ == before.table@
    &&& after.stack_storage@ == before.stack_storage@
}

/// A search has left its counters, the table and the stack as they were.
pub open spec fn left_alone(before: Search, after: Search) -> bool {
    &&& after.search_info == before.search_info
    &&& after.table@ == before.table@
    &&& after.stack_storage@ == before.stack_storage@
}

/// What a search that was not halted at its position has done there. A
/// position that is not searched further, at depth 0 or in a finished game,
/// scores as a leaf, and counters, table and stack stay as they were. At any
/// other position at least one move was tried and counted; the best move is
/// a legal one and stands in the stack at `depth`; the table holds move,
/// score, depth and kind for the position, whatever its slot held; and the
/// killer move of `depth` is the best move where that scored `beta` or more,
/// else the killer move of before.
pub open spec fn searched(
    before: Search,
    after: Search,
    alpha: i32,
    beta: i32,
    depth: u8,
    score: i32,
) -> bool {
    let b = before.board;
    if depth == 0 || b.is_over() {
        score == leaf_score(b) && left_alone(before, after)
    } else {
        &&& after.recorded(b, depth, score, alpha, beta)
        &&& after.principal(depth) matches Some(m) && legal_moves(b).contains(m)
        &&& after.search_info.nodes > before.search_info.nodes || before.search_info.nodes
            == u64::MAX
        &&& after.stack_storage@[depth as int].killer_move == if score >= beta || alpha >= beta {
            after.principal(depth)
        } else {
            before.stack_storage@[depth as int].killer_move
        }
    }
}

/// What a score found in the window from `alpha` to `beta` is recorded as:
/// an upper bound where it has not passed `alpha`, a lower bound where it
/// has reached `beta`, else exact.
pub open spec fn classified(score: int, alpha: int, beta: int) -> NodeType {
    if score <= alpha {
        NodeType::Upper
    } else if score >= beta {
        NodeType::Lower
    } else {
        NodeType::Exact
    }
}

/// What a search of `depth` leaves as it found it: the position, the sizes
/// of table and stack, and what the stack holds for greater depths. A
/// search never clears the mark of an aborted search, and its counters
/// never go down.
pub open spec fn kept_by_search(before: Search, after: Search, depth: u8) -> bool {
    &&& after.board == before.board
    &&& after.my_side == before.my_side
    &&& after.shared == before.shared
    &&& after.table@.len() == before.table@.len()
    &&& after.stack_storage@.len() == before.stack_storage@.len()
    &&& forall|j: int|
        depth < j < before.stack_storage@.len() ==> after.stack_storage@[j]
            == before.stack_storage@[j]
    &&& before.search_info.aborted ==> after.search_info.aborted
    &&& before.search_info.nodes <= after.search_info.nodes
    &&& before.search_info.tt_hits <= after.search_info.tt_hits
    &&& before.search_info.cutoffs <= after.search_info.cutoffs
}

/// What is known while the moves `order` are tried on `b`, after the first
/// `i` of them, in a search that was not cut short (`cut`) by a score of
/// `beta` or more: none of them is worth more than `best`; and `best`, where
/// it lies above `alpha`, is what `best_move` is worth, or a lower bound of
/// that where it has reached `beta`.
pub open spec fn tried(
    b: Board,
    order: Seq<Move>,
    i: int,
    depth: nat,
    alpha: int,
    beta: int,
    best: int,
    best_move: Move,
    cut: bool,
) -> bool {
    &&& !cut ==> forall|j: int| 0 <= j < i ==> reply_score(b, #[trigger] order[j], depth) <= best
    &&& alpha < best < beta ==> reply_score(b, best_move, depth) == best
    &&& best >= beta ==> reply_score(b, best_move, depth) >= best
}

/// One more move tried: what [`tried`] says goes on to hold when move `i`
/// has come back with `reply` from a search in the negated window.
proof fn lemma_try(
    b: Board,
    order: Seq<Move>,
    i: int,
    depth: nat,
    alpha: int,
    beta: int,
    best: int,
    best_move: Move,
    reply: int,
)
    requires
        0 <= i < order.len(),
        depth > 0,
        alpha < beta,
        best < beta,
        tried(b, order, i, depth, alpha, beta, best, best_move, false),
        within_window(
            reply,
            -beta,
            -(if best > alpha {
                best
            } else {
                alpha
            }),
            minimax(apply_move(b, order[i]), (depth - 1) as nat),
        ),
    ensures
        tried(
            b,
            order,
            i + 1,
            depth,
            alpha,
            beta,
            if -reply > best {
                -reply
            } else {
                best
            },
            if -reply > best {
                order[i]
            } else {
                best_move
            },
            -reply >= beta,
        ),
{
    assert(reply_score(b, order[i], depth) == -minimax(
        apply_move(b, order[i]),
        (depth - 1) as nat,
    ));
}

/// When all moves were tried, or one has cut the search short, the best
/// score found stands to the true score as [`within_window`] says.
proof fn lemma_tried_all(
    b: Board,
    order: Seq<Move>,
    depth: nat,
    alpha: int,
    beta: int,
    best: int,
    best_move: Move,
    cut: bool,
)
    requires
        depth > 0,
        !b.is_over(),
        alpha < beta,
        cut == (best >= beta),
        legal_moves(b).contains(best_move),
        forall|m: Move| order.contains(m) <==> legal_moves(b).contains(m),
        tried(b, order, order.len() as int, depth, alpha, beta, best, best_move, cut),
    ensures
        within_window(best, alpha, beta, minimax(b, depth)),
{
    let legal = legal_moves(b);
    assert forall|k: int| 0 <= k < legal.len() implies reply_score(b, #[trigger] legal[k], depth)
        >= i32::MIN by {
        lemma_reply_bounded(b, legal[k], depth);
    }
    let top = lemma_best_is_attained(b, legal, depth);
    lemma_best_is_upper(b, legal, depth, best_move);
    if !cut {
        assert(order.contains(top));
        let j = choose|j: int| 0 <= j < order.len() && order[j] == top;
        assert(reply_score(b, order[j], depth) <= best);
    }
}

/// `n + 1`, or `n` where that is the largest number.
fn bump(n: u64) -> (r: u64)
    ensures
        r == if n < u64::MAX {
            n + 1
        } else {
            n as int
        },
{
    if n < u64::MAX {
        n + 1
    } else {
        n
    }
}

impl Search {
    /// The position is well formed, and table and stack are not empty.
    pub open spec fn wf(self) -> bool {
        self.board.wf() && self.table@.len() > 0 && self.stack_storage@.len() > 0
    }

    /// The table holds for `b` what a search of `depth` in the window from
    /// `alpha` to `beta` found: the best move, which the stack holds for
    /// `depth`, the score and its kind.
    pub open spec fn recorded(self, b: Board, depth: u8, score: i32, alpha: i32, beta: i32) -> bool {
        self.principal(depth) matches Some(m) && found(self.table@, b.hash_key()) == Some(
            Entry {
                hash: b.hash_key(),
                hash_move: m,
                score,
                depth,
                node_type: classified(score as int, alpha as int, beta as int),
            },
        )
    }

    /// The best move that the search has recorded for `depth`.
    pub open spec fn principal(self, depth: u8) -> Option<Move> {
        self.stack_storage@[depth as int].pv_move
    }

    /// A search on the start position with an empty table of
    /// [`TABLE_SLOTS`] slots.
    pub fn new(shared: Arc<Mutex<Shared>>) -> (search: Search)
        ensures
            search.wf(),
            search.board == start_position(),
            search.my_side == Side::Black,
            search.shared == shared,
            search.table@ == Seq::new(TABLE_SLOTS as nat, |i: int| None::<Entry>),
            search.stack_storage@ == Seq::new(
                MAX_DEPTH as nat,
                |i: int| SearchData { killer_move: None, pv_move: None },
            ),
            !search.search_info.aborted,
    {
        Search::with_table(shared, TABLE_SLOTS)
    }

    /// A search on the start position with an empty table of `slots`
    /// slots.
    pub fn with_table(shared: Arc<Mutex<Shared>>, slots: usize) -> (search: Search)
        requires
            slots > 0,
        ensures
            search.wf(),
            search.board == start_position(),
            search.my_side == Side::Black,
            search.shared == shared,
            search.table@ == Seq::new(slots as nat, |i: int| None::<Entry>),
            search.stack_storage@ == Seq::new(
                MAX_DEPTH as nat,
                |i: int| SearchData { killer_move: None, pv_move: None },
            ),
            !search.search_info.aborted,
    {
        let mut stack_storage: Vec<SearchData> = Vec::new();
        let mut i: u8 = 0;
        while i < MAX_DEPTH
            invariant
                i <= MAX_DEPTH,
                stack_storage@ == Seq::new(
                    i as nat,
                    |i: int| SearchData { killer_move: None, pv_move: None },
                ),
            decreases MAX_DEPTH - i,
        {
            stack_storage.push(SearchData { killer_move: None, pv_move: None });
            i += 1;
            assert(stack_storage@ =~= Seq::new(
                i as nat,
                |i: int| SearchData { killer_move: None, pv_move: None },
            ));
        }
        Search {
            stack_storage,
            search_info: SearchInfo::new(),
            table: Table::new(slots),
            shared,
            board: Board::startpos(),
            my_side: Side::Black,
            eval: Eval::new(),
        }
    }

    /// Takes `board` as the position to search, and its side to move as the
    /// side of the search.
    pub fn set_position_direct(&mut self, board: &Board)
        ensures
            final(self).board == *board,
            final(self).my_side == board.side_to_move,
            final(self).shared == old(self).shared,
            final(self).table@ == old(self).table@,
            final(self).stack_storage@ == old(self).stack_storage@,
            final(self).search_info == old(self).search_info,
    {
        self.board = *board;
        self.my_side = board.side_to_move;
    }

    /// Empties the table and forgets the killer and best moves.
    pub fn setup_newgame(&mut self)
        ensures
            final(self).board == old(self).board,
            final(self).my_side == old(self).my_side,
            final(self).shared == old(self).shared,
            final(self).table@ == Seq::new(old(self).table@.len(), |i: int| None::<Entry>),
            final(self).stack_storage@ == Seq::new(
                old(self).stack_storage@.len(),
                |i: int| SearchData { killer_move: None, pv_move: None },
            ),
            final(self).search_info == old(self).search_info,
    {
        self.table.reset();
        let n = self.stack_storage.len();
        let mut i: usize = 0;
        while i < n
            invariant
                i <= n,
                n == self.stack_storage@.len(),
                self.board == old(self).board,
                self.my_side == old(self).my_side,
                self.shared == old(self).shared,
                self.search_info == old(self).search_info,
                self.table@ == Seq::new(old(self).table@.len(), |i: int| None::<Entry>),
                forall|k: int|
                    0 <= k < i ==> self.stack_storage@[k] == (SearchData {
                        killer_move: None,
                        pv_move: None,
                    }),
            decreases n - i,
        {
            self.stack_storage[i] = SearchData { killer_move: None, pv_move: None };
            i += 1;
        }
        assert(self.stack_storage@ == Seq::new(
            n as nat,
            |i: int| SearchData { killer_move: None, pv_move: None },
        ));
    }

    /// The end condition for `budget`, a time budget counting from now. A
    /// moment that the clock cannot hold never comes.
    pub fn end_condition(budget: Budget) -> (end: EndCondition)
        ensures
            match budget {
                Budget::Nodes(n) => end == EndCondition::Nodes(n),
                Budget::Depth(d) => end == EndCondition::Depth(d),
                Budget::Millis(_) => end is Time || end is Infinite,
                Budget::Infinite => end is Infinite,
            },
    {
        match budget {
            Budget::Nodes(n) => EndCondition::Nodes(n),
            Budget::Depth(d) => EndCondition::Depth(d),
            Budget::Millis(millis) => EndCondition::until(after_millis(&now(), millis)),
            Budget::Infinite => EndCondition::Infinite,
        }
    }

    fn report(&self, depth: u8, score: i32, start: &Instant) -> (r: DepthReport)
        ensures
            r.depth == depth,
            r.score == score,
            r.nodes == self.search_info.nodes,
            r.tt_hits == self.search_info.tt_hits,
            r.cutoffs == self.search_info.cutoffs,
    {
        DepthReport {
            depth,
            score,
            nodes: self.search_info.nodes,
            millis: millis_since(start),
            tt_hits: self.search_info.tt_hits,
            cutoffs: self.search_info.cutoffs,
        }
    }

    /// Finds the move to play in the position, which must not be a finished
    /// game. Searches depth 1, then depth 2 and so on in the full window,
    /// under the limit that `info` sets for the side of the search: after
    /// each depth, if the limit is reached, a stop is requested or the
    /// depth was aborted, the stop flag is cleared and the search ends with
    /// the move of the depth before; else the move of this depth becomes
    /// the move to play (see [`decided`]). Depth 1 is searched to its end
    /// whatever the limit and the stop flag say, and its move always
    /// counts: the move returned is a legal move, and the best at the depth
    /// returned. A search that no stop request and no aborted depth has
    /// ended has searched what its budget says (see [`unstopped`]).
    pub fn find_best_move(&mut self, info: &GoInfo) -> (found: Found)
        requires
            old(self).wf(),
            info.resolvable(),
            !old(self).board.is_over(),
            old(self).stack_storage@.len() >= MAX_DEPTH,
            old(self).board.full_move + MAX_DEPTH <= u32::MAX,
        ensures
            final(self).wf(),
            final(self).board == old(self).board,
            final(self).my_side == old(self).my_side,
            final(self).shared == old(self).shared,
            final(self).table@.len() == old(self).table@.len(),
            final(self).stack_storage@.len() == old(self).stack_storage@.len(),
            legal_moves(old(self).board).contains(found.best_move),
            found.best_move.has_text(),
            1 <= found.depth < MAX_DEPTH,
            reply_score(old(self).board, found.best_move, found.depth as nat) == minimax(
                old(self).board,
                found.depth as nat,
            ),
            found.depth <= found.reports@.len() <= found.depth + 1,
            forall|k: int|
                0 <= k < found.reports@.len() ==> (#[trigger] found.reports@[k]).depth == k + 1,
            forall|k: int|
                0 <= k < found.depth ==> (#[trigger] found.reports@[k]).score == minimax(
                    old(self).board,
                    (k + 1) as nat,
                ),
            info.depth_budget(old(self).my_side) matches Some(limit) ==> limit >= 1
                ==> found.reports@.len() <= limit && (found.depth < limit || limit == 1),
            info.budget_for(old(self).my_side) == Some(Budget::Nodes(0)) ==> found.depth == 1
                && found.reports@.len() == 1,
            !found.stopped ==> (unstopped(info.budget_for(old(self).my_side)->0) matches Some(plan)
                ==> found.reports@.len() == plan.0 && found.depth == plan.1),
    {
        let end_cond = match info.budget(self.my_side) {
            Some(budget) => Search::end_condition(budget),
            None => EndCondition::Infinite,
        };
        let t0 = now();
        let ghost b = self.board;
        let ghost budget = info.budget_for(self.my_side);
        self.search_info.reset();
        let mut reports: Vec<DepthReport> = Vec::new();

        let score = self.search(&end_cond, false, -WINDOW, WINDOW, 1);
        reports.push(self.report(1, score, &t0));
        let limit_reached = end_cond.met(self.search_info.nodes, 1);
        let first = decide(
            1,
            limit_reached,
            stop_requested(&self.shared),
            self.search_info.aborted,
            self.stack_storage[1].pv_move,
        );
        let mut bestmove = match first.adopt {
            Some(m) => m,
            None => Move { null: true, from: 0, to: 0, capture_square: 0 },
        };
        let mut adopted: u8 = 1;
        let mut done = !first.go_on;
        let mut stopped = first.stopped;
        if done {
            set_stop(&self.shared, false);
        }
        let mut depth: u8 = 2;
        while depth < MAX_DEPTH && !done
            invariant
                2 <= depth <= MAX_DEPTH,
                self.wf(),
                self.board == b,
                b == old(self).board,
                !b.is_over(),
                self.my_side == old(self).my_side,
                self.shared == old(self).shared,
                self.table@.len() == old(self).table@.len(),
                self.stack_storage@.len() == old(self).stack_storage@.len(),
                self.stack_storage@.len() >= MAX_DEPTH,
                b.full_move + MAX_DEPTH <= u32::MAX,
                !done ==> !self.search_info.aborted && !stopped,
                budget is Some,
                budget == Some(Budget::Infinite) ==> end_cond is Infinite,
                !stopped && done ==> (unstopped(budget->0) matches Some(plan) ==> reports@.len()
                    == plan.0 && adopted == plan.1),
                legal_moves(b).contains(bestmove),
                1 <= adopted < depth,
                !done ==> adopted == depth - 1,
                reply_score(b, bestmove, adopted as nat) == minimax(b, adopted as nat),
                adopted <= reports@.len() <= adopted + 1,
                !done ==> reports@.len() == depth - 1,
                budget matches Some(Budget::Depth(limit)) ==> end_cond == EndCondition::Depth(
                    limit,
                ) && (limit >= 1 ==> reports@.len() <= limit && (adopted < limit || limit == 1) && (
                !done ==> depth <= limit)),
                budget == Some(Budget::Nodes(0)) ==> done && adopted == 1 && reports@.len() == 1,
                forall|k: int| 0 <= k < reports@.len() ==> (#[trigger] reports@[k]).depth == k + 1,
                forall|k: int|
                    0 <= k < adopted ==> (#[trigger] reports@[k]).score == minimax(
                        b,
                        (k + 1) as nat,
                    ),
            decreases MAX_DEPTH - depth, !done as int,
        {
            let score = self.search(&end_cond, true, -WINDOW, WINDOW, depth);
            reports.push(self.report(depth, score, &t0));
            let limit_reached = end_cond.met(self.search_info.nodes, depth);
            let next = decide(
                depth,
                limit_reached,
                stop_requested(&self.shared),
                self.search_info.aborted,
                self.stack_storage[depth as usize].pv_move,
            );
            stopped = next.stopped;
            if next.go_on {
                match next.adopt {
                    Some(m) => {
                        bestmove = m;
                        adopted = depth;
                    },
                    None => {},
                }
                depth += 1;
            } else {
                set_stop(&self.shared, false);
                done = true;
            }
        }
        proof {
            let k = choose|k: int| 0 <= k < legal_moves(b).len() && legal_moves(b)[k] == bestmove;
            lemma_generated_move_has_text(b, k);
        }
        Found { best_move: bestmove, depth: adopted, reports, stopped }
    }

    /// The score of the position when it is not searched further.
    fn leaf(&self) -> (score: i32)
        ensures
            score == leaf_score(self.board),
            -WIN_SCORE <= score <= WIN_SCORE,
    {
        proof {
            lemma_leaf_bounded(self.board);
        }
        match self.board.status() {
            Status::Draw => 0,
            Status::Winner => WIN_SCORE,
            Status::Loser => -WIN_SCORE,
            Status::Ongoing => self.eval.evaluate(&self.board),
        }
    }

    /// The move that the table holds for the position, where it is one of
    /// `moves`.
    fn table_move(&self, moves: &Vec<Move>) -> (hint: Option<Move>)
        requires
            self.table@.len() > 0,
        ensures
            hint == match found(self.table@, self.board.hash_key()) {
                Some(entry) => if moves@.contains(entry.hash_move) {
                    Some(entry.hash_move)
                } else {
                    None
                },
                None => None,
            },
    {
        match self.table.probe(&self.board) {
            Some(entry) => {
                if contains_move(moves, &entry.hash_move) {
                    Some(entry.hash_move)
                } else {
                    None
                }
            },
            None => None,
        }
    }

    /// The killer move of `depth`, where it is one of `moves` and not the
    /// table's move.
    fn killer_move(&self, moves: &Vec<Move>, table_move: Option<Move>, depth: u8) -> (hint: Option<
        Move,
    >)
        requires
            depth < self.stack_storage@.len(),
        ensures
            hint == match self.stack_storage@[depth as int].killer_move {
                Some(killer) => if table_move != Some(killer) && moves@.contains(killer) {
                    Some(killer)
                } else {
                    None
                },
                None => None,
            },
    {
        match self.stack_storage[depth as usize].killer_move {
            Some(killer_entry) => {
                let same = match table_move {
                    Some(tt_move) => tt_move == killer_entry,
                    None => false,
                };
                if !same && contains_move(moves, &killer_entry) {
                    Some(killer_entry)
                } else {
                    None
                }
            },
            None => None,
        }
    }

    /// The move that the table gives to try first on the position: the
    /// move of the entry recorded for the hash of the position, where that
    /// is a legal move. An entry recorded for another hash gives none.
    pub open spec fn table_hint(self) -> Option<Move> {
        match found(self.table@, self.board.hash_key()) {
            Some(entry) => if legal_moves(self.board).contains(entry.hash_move) {
                Some(entry.hash_move)
            } else {
                None
            },
            None => None,
        }
    }

    /// The killer move to try first on the position at `depth`: the killer
    /// move of that depth, where it is a legal move and not the move that
    /// the table gives.
    pub open spec fn killer_hint(self, depth: u8) -> Option<Move> {
        match self.stack_storage@[depth as int].killer_move {
            Some(killer) => if self.table_hint() != Some(killer) && legal_moves(
                self.board,
            ).contains(killer) {
                Some(killer)
            } else {
                None
            },
            None => None,
        }
    }

    /// The order in which the legal moves of the position are tried at
    /// `depth`.
    pub open spec fn trial_order(self, depth: u8) -> Seq<Move> {
        ordered(legal_moves(self.board), self.table_hint(), self.killer_hint(depth))
    }

    /// The legal moves of the position in the order in which a search of
    /// `depth` tries them, and whether the table gave a move to try first.
    pub fn candidates(&self, depth: u8) -> (r: (Vec<Move>, bool))
        requires
            self.table@.len() > 0,
            depth < self.stack_storage@.len(),
        ensures
            r.0@ == self.trial_order(depth),
            r.1 == self.table_hint() is Some,
    {
        let moves = generate_moves(&self.board);
        let tt_move = self.table_move(&moves);
        let killer_move = self.killer_move(&moves, tt_move, depth);
        let movepicker = MovePicker::new(moves, tt_move, killer_move);
        (movepicker.sort(), tt_move.is_some())
    }

    /// Searches the position `depth` plies deep in the window from `alpha`
    /// to `beta` and returns its score for the side to move. Asks the end
    /// condition and the stop flag first and hands what they say to
    /// [`Search::visit`]: a position reached when the end condition is met
    /// or a stop is requested counts 0, and the search is marked as
    /// aborted; of the score of an aborted search nothing is known. The score of any other search is the true
    /// score if that lies inside the window, and a bound on it otherwise
    /// (see [`within_window`]); the best move is left in the stack at
    /// `depth`, and move, score and depth are written into the table, over
    /// what the slot of the position held. A move that scores `beta` or more
    /// ends the search of the position and becomes the killer move of
    /// `depth`.
    pub fn negamax(&mut self, end_condition: &EndCondition, alpha: i32, beta: i32, depth: u8) -> (score:
        i32)
        requires
            old(self).wf(),
            depth < old(self).stack_storage@.len(),
            old(self).board.full_move + depth <= u32::MAX,
            i32::MIN < alpha,
            i32::MIN < beta,
        ensures
            final(self).wf(),
            kept_by_search(*old(self), *final(self), depth),
            -WIN_SCORE <= score <= WIN_SCORE,
            spent(*end_condition, old(self).search_info.nodes) ==> score == 0 && only_aborted(
                *old(self),
                *final(self),
            ),
            (score == 0 && only_aborted(*old(self), *final(self))) || searched(
                *old(self),
                *final(self),
                alpha,
                beta,
                depth,
                score,
            ),
            !final(self).search_info.aborted && alpha < beta ==> within_window(
                score as int,
                alpha as int,
                beta as int,
                minimax(old(self).board, depth as nat),
            ),
            !final(self).search_info.aborted && depth > 0 && !old(self).board.is_over() ==> {
                &&& final(self).principal(depth) matches Some(m)
                &&& legal_moves(old(self).board).contains(m)
                &&& alpha < score < beta ==> reply_score(old(self).board, m, depth as nat)
                    == score
            },
            !final(self).search_info.aborted && depth > 0 && !old(self).board.is_over()
                ==> final(self).recorded(old(self).board, depth, score, alpha, beta),
            !final(self).search_info.aborted && depth > 0 && !old(self).board.is_over()
                ==> final(self).stack_storage@[depth as int].killer_move == if score >= beta
                || alpha >= beta {
                final(self).principal(depth)
            } else {
                old(self).stack_storage@[depth as int].killer_move
            },
    {
        let halted = end_condition.met(self.search_info.nodes, 0) || stop_requested(&self.shared);
        self.visit(halted, end_condition, true, alpha, beta, depth)
    }

    /// [`Search::negamax`], which asks for the end condition and the stop
    /// flag only where `polls` is set. Without it no search is halted, and
    /// the search does what [`searched`] says.
    pub fn search(
        &mut self,
        end_condition: &EndCondition,
        polls: bool,
        alpha: i32,
        beta: i32,
        depth: u8,
    ) -> (score: i32)
        requires
            old(self).wf(),
            depth < old(self).stack_storage@.len(),
            old(self).board.full_move + depth <= u32::MAX,
            i32::MIN < alpha,
            i32::MIN < beta,
        ensures
            final(self).wf(),
            kept_by_search(*old(self), *final(self), depth),
            -WIN_SCORE <= score <= WIN_SCORE,
            !polls ==> final(self).search_info.aborted == old(self).search_info.aborted,
            polls && spent(*end_condition, old(self).search_info.nodes) ==> score == 0
                && only_aborted(*old(self), *final(self)),
            (polls && score == 0 && only_aborted(*old(self), *final(self))) || searched(
                *old(self),
                *final(self),
                alpha,
                beta,
                depth,
                score,
            ),
            !final(self).search_info.aborted && alpha < beta ==> within_window(
                score as int,
                alpha as int,
                beta as int,
                minimax(old(self).board, depth as nat),
            ),
            !final(self).search_info.aborted && depth > 0 && !old(self).board.is_over() ==> {
                &&& final(self).principal(depth) matches Some(m)
                &&& legal_moves(old(self).board).contains(m)
                &&& alpha < score < beta ==> reply_score(old(self).board, m, depth as nat)
                    == score
            },
            !final(self).search_info.aborted && depth > 0 && !old(self).board.is_over()
                ==> final(self).recorded(old(self).board, depth, score, alpha, beta),
            !final(self).search_info.aborted && depth > 0 && !old(self).board.is_over()
                ==> final(self).stack_storage@[depth as int].killer_move == if score >= beta
                || alpha >= beta {
                final(self).principal(depth)
            } else {
                old(self).stack_storage@[depth as int].killer_move
            },
        decreases depth, 1nat,
    {
        let halted = polls && (end_condition.met(self.search_info.nodes, 0) || stop_requested(
            &self.shared,
        ));
        self.visit(halted, end_condition, polls, alpha, beta, depth)
    }

    /// Searches the position as [`Search::negamax`] does, `halted` telling
    /// what the end condition and the stop flag said when they were asked
    /// on arrival: a halted search counts the position 0, marks the search
    /// as aborted and does nothing else; any other does what [`searched`]
    /// says. The positions below ask for themselves, where `polls` is set.
    pub fn visit(
        &mut self,
        halted: bool,
        end_condition: &EndCondition,
        polls: bool,
        alpha: i32,
        beta: i32,
        depth: u8,
    ) -> (score: i32)
        requires
            old(self).wf(),
            depth < old(self).stack_storage@.len(),
            old(self).board.full_move + depth <= u32::MAX,
            i32::MIN < alpha,
            i32::MIN < beta,
        ensures
            final(self).wf(),
            kept_by_search(*old(self), *final(self), depth),
            -WIN_SCORE <= score <= WIN_SCORE,
            halted ==> score == 0 && only_aborted(*old(self), *final(self)),
            !halted ==> searched(*old(self), *final(self), alpha, beta, depth, score),
            !halted && !polls ==> final(self).search_info.aborted == old(self).search_info.aborted,
            !final(self).search_info.aborted && alpha < beta ==> within_window(
                score as int,
                alpha as int,
                beta as int,
                minimax(old(self).board, depth as nat),
            ),
            !final(self).search_info.aborted && depth > 0 && !old(self).board.is_over() ==> {
                &&& final(self).principal(depth) matches Some(m)
                &&& alpha < score < beta ==> reply_score(old(self).board, m, depth as nat)
                    == score
            },
        decreases depth, 0nat,
    {
        if halted {
            self.search_info.aborted = true;
            return 0;
        }
        if depth == 0 || self.board.game_over() {
            return self.leaf();
        }
        let ghost b = self.board;
        let ghost d = depth as nat;
        let a0 = alpha;
        let mut alpha = alpha;
        let mut best_score: i32 = i32::MIN;
        let mut best_move = Move { null: false, from: 0, to: 0, capture_square: 0 };

        let ghost tt_move = self.table_hint();
        let ghost killer_move = self.killer_hint(depth);
        let (new_moves, hit) = self.candidates(depth);
        if hit {
            self.search_info.tt_hits = bump(self.search_info.tt_hits);
        }
        let ghost legal = legal_moves(b);
        assert(new_moves@ == ordered(legal, tt_move, killer_move));
        proof {
            lemma_ordered_keeps_moves(legal, tt_move, killer_move, legal[0]);
            assert(legal.contains(legal[0]));
            assert(new_moves@.len() > 0);
        }

        let mut cut = false;
        let mut i: usize = 0;
        while i < new_moves.len() && !cut
            invariant
                i <= new_moves.len(),
                b == old(self).board,
                d == depth,
                d > 0,
                !b.is_over(),
                legal == legal_moves(b),
                new_moves@ == ordered(legal, tt_move, killer_move),
                new_moves@.len() > 0,
                self.wf(),
                kept_by_search(*old(self), *self, depth),
                depth < self.stack_storage@.len(),
                b.full_move + depth <= u32::MAX,
                !polls ==> self.search_info.aborted == old(self).search_info.aborted,
                i > 0 ==> self.search_info.nodes > old(self).search_info.nodes || old(
                    self,
                ).search_info.nodes == u64::MAX,
                i32::MIN < alpha,
                i32::MIN < beta,
                i32::MIN < a0,
                alpha == if best_score > a0 {
                    best_score
                } else {
                    a0
                },
                cut ==> alpha >= beta,
                i > 0 && !cut ==> alpha < beta,
                cut ==> self.stack_storage@[depth as int].killer_move == Some(best_move),
                !cut ==> self.stack_storage@[depth as int].killer_move == old(
                    self,
                ).stack_storage@[depth as int].killer_move,
                i == 0 ==> best_score == i32::MIN && !cut,
                i > 0 ==> -WIN_SCORE <= best_score <= WIN_SCORE,
                i > 0 ==> self.principal(depth) == Some(best_move) && legal.contains(best_move),
                !self.search_info.aborted && a0 < beta ==> tried(
                    b,
                    new_moves@,
                    i as int,
                    d,
                    a0 as int,
                    beta as int,
                    best_score as int,
                    best_move,
                    cut,
                ),
            decreases new_moves.len() - i,
        {
            let mov = new_moves[i];
            let ghost before = *self;
            proof {
                lemma_ordered_keeps_moves(legal, tt_move, killer_move, mov);
                assert(new_moves@.contains(mov));
                let k = choose|k: int| 0 <= k < legal.len() && legal[k] == mov;
                lemma_legal_move_round_trip(b, k);
                lemma_reply_bounded(b, mov, d);
            }
            self.search_info.nodes = bump(self.search_info.nodes);
            let delta = make_move(&mut self.board, &mov);
            let reply = self.search(end_condition, polls, -beta, -alpha, depth - 1);
            let score = -reply;
            unmake_move(&mut self.board, &mov, delta);
            assert(self.board == b);
            proof {
                if !self.search_info.aborted && a0 < beta {
                    lemma_try(
                        b,
                        new_moves@,
                        i as int,
                        d,
                        a0 as int,
                        beta as int,
                        best_score as int,
                        best_move,
                        reply as int,
                    );
                }
            }

            if score > best_score {
                best_score = score;
                best_move = mov;
                let mut data = self.stack_storage[depth as usize];
                data.pv_move = Some(mov);
                self.stack_storage[depth as usize] = data;
                if score > alpha {
                    alpha = score;
                }
            }
            if alpha >= beta {
                let mut data = self.stack_storage[depth as usize];
                data.killer_move = Some(mov);
                self.stack_storage[depth as usize] = data;
                self.search_info.cutoffs = bump(self.search_info.cutoffs);
                cut = true;
            }
            i += 1;
        }

        let node_type = if best_score <= a0 {
            NodeType::Upper
        } else if best_score >= beta {
            NodeType::Lower
        } else {
            NodeType::Exact
        };
        self.table.store(
            &self.board,
            Entry::new(self.board.hash(), best_move, best_score, depth, node_type),
        );
        proof {
            assert(legal.len() > 0);
            assert(self.recorded(b, depth, best_score, a0, beta));
            if !self.search_info.aborted && a0 < beta {
                assert forall|m: Move| new_moves@.contains(m) <==> legal.contains(m) by {
                    lemma_ordered_keeps_moves(legal, tt_move, killer_move, m);
                }
                lemma_tried_all(
                    b,
                    new_moves@,
                    d,
                    a0 as int,
                    beta as int,
                    best_score as int,
                    best_move,
                    cut,
                );
            }
        }
        best_score
    }
}

} // verus!
