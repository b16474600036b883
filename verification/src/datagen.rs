//! Self-play: a worker that lets two searches play games from a book of
//! openings, and the collector of the finished games.

use std::sync::mpsc::{Receiver, Sender};
use std::sync::{Arc, Mutex};
use rand::seq::SliceRandom;
use vstd::prelude::*;
use crate::board::{Board, Side, Status};
use crate::handles::{lock_counter, locked_value, new_lock, set_locked_value, share, Shared};
use crate::move_app::{apply_move, make_move};
use crate::movegen::{legal_moves, Move};
use crate::rules::lemma_legal_move_round_trip;
use crate::search::{GoInfo, Search, MAX_DEPTH};
use crate::value::{minimax, reply_score};

verus! {

/// The plies after which an unfinished game is given up.
pub const PLY_CAP: usize = 700;

/// The depth limit of the searches of a self-play game.
pub const SELF_PLAY_DEPTH: u32 = 6;

/// The highest full-move number with which an opening can start, so that
/// the counter has room for a whole game and its searches.
pub const OPENING_MOVE_LIMIT: u32 = 0xffff_f000;

/// A finished game: where it started, the moves played, and how it ended
/// for the side to move at the end.
pub struct Game {
    pub start: Board,
    pub moves: Vec<Move>,
    pub status: Status,
}

/// The finished games of a run.
pub struct Data {
    pub boards: Vec<Game>,
}

/// The opening book: positions from which games start.
#[derive(Clone)]
pub struct Openings {
    pub openings: Vec<Board>,
}

/// The position after `moves` were played from `start`.
pub open spec fn position_after(start: Board, moves: Seq<Move>) -> Board
    decreases moves.len(),
{
    if moves.len() == 0 {
        start
    } else {
        apply_move(position_after(start, moves.drop_last()), moves.last())
    }
}

/// The positions that `moves` lead through from `start`, one after each
/// move.
pub open spec fn line(start: Board, moves: Seq<Move>) -> Seq<Board> {
    Seq::new(moves.len(), |i: int| position_after(start, moves.take(i + 1)))
}

/// How often `p` is among `positions`.
pub open spec fn occurrences(positions: Seq<Board>, p: Board) -> nat
    decreases positions.len(),
{
    if positions.len() == 0 {
        0
    } else {
        occurrences(positions.drop_last(), p) + if positions.last() == p {
            1nat
        } else {
            0nat
        }
    }
}

/// `m` is a legal move on `p`, and the best one at some depth.
pub open spec fn well_played(p: Board, m: Move) -> bool {
    legal_moves(p).contains(m) && exists|d: nat|
        1 <= d < MAX_DEPTH && #[trigger] reply_score(p, m, d) == minimax(p, d)
}

/// Each of `moves` was well played on the position that the moves before
/// it led to from `start`.
pub open spec fn well_played_line(start: Board, moves: Seq<Move>) -> bool {
    forall|i: int|
        0 <= i < moves.len() ==> well_played(
            position_after(start, moves.take(i)),
            #[trigger] moves[i],
        )
}

/// What a record of a game says: every move was well played; and the game
/// ended as a draw with the position reached for the third time, or ended
/// because its last position is final, with the result of that position.
pub open spec fn is_record(start: Board, moves: Seq<Move>, status: Status) -> bool {
    let end = position_after(start, moves);
    &&& well_played_line(start, moves)
    &&& moves.len() <= PLY_CAP
    &&& if occurrences(line(start, moves), end) >= 3 {
        status == Status::Draw
    } else {
        end.is_over() && status == end.outcome()
    }
}

/// What a game that was given up had come to: [`PLY_CAP`] moves, every one
/// well played, and a position that is not final and has not come up for
/// the third time.
pub open spec fn is_given_up(start: Board, moves: Seq<Move>) -> bool {
    let end = position_after(start, moves);
    &&& well_played_line(start, moves)
    &&& moves.len() == PLY_CAP
    &&& !end.is_over()
    &&& occurrences(line(start, moves), end) < 3
}

/// An opening that a worker can play from: a well-formed position with
/// room in its move counter.
pub open spec fn playable(b: Board) -> bool {
    b.wf() && b.full_move <= OPENING_MOVE_LIMIT
}

/// The length of a game in positions: one more than its moves.
pub open spec fn game_length(g: Game) -> nat {
    g.moves@.len() + 1
}

/// The positions of all of `games`.
pub open spec fn total_length(games: Seq<Game>) -> nat
    decreases games.len(),
{
    if games.len() == 0 {
        0
    } else {
        total_length(games.drop_last()) + game_length(games.last())
    }
}

/// What the inspection of a set of games reports.
#[derive(Clone, Copy, PartialEq, Eq, Debug, Structural)]
pub struct Summary {
    pub games: usize,
    /// The positions of all games.
    pub positions: u128,
    /// The length of the shortest game, in positions.
    pub shortest: u128,
    /// The length of the longest game, in positions.
    pub longest: u128,
}

/// `summary` reports the first `n` of `games`, of which there is at least
/// one: their number, their positions, and the lengths of a shortest and a
/// longest one.
pub open spec fn summarises(summary: Summary, games: Seq<Game>, n: int) -> bool {
    &&& summary.games == n
    &&& summary.positions == total_length(games.take(n))
    &&& forall|i: int| 0 <= i < n ==> summary.shortest <= game_length(#[trigger] games[i])
    &&& forall|i: int| 0 <= i < n ==> summary.longest >= game_length(#[trigger] games[i])
    &&& exists|i: int| 0 <= i < n && summary.shortest == game_length(#[trigger] games[i])
    &&& exists|i: int| 0 <= i < n && summary.longest == game_length(#[trigger] games[i])
}

impl Data {
    /// What there is to report of the games: nothing where there is no
    /// game.
    pub fn summary(&self) -> (r: Option<Summary>)
        ensures
            r is None <==> self.boards@.len() == 0,
            r matches Some(s) ==> summarises(s, self.boards@, self.boards@.len() as int),
            r matches Some(s) ==> s.shortest >= 1,
    {
        let n = self.boards.len();
        if n == 0 {
            return None;
        }
        let first: u128 = self.boards[0].moves.len() as u128 + 1;
        let mut summary = Summary { games: 1, positions: first, shortest: first, longest: first };
        proof {
            let one = self.boards@.take(1);
            assert(one.drop_last() =~= Seq::<Game>::empty());
            assert(one.last() == self.boards@[0]);
            assert(total_length(one.drop_last()) == 0);
            assert(total_length(one) == game_length(self.boards@[0]));
        }
        let mut i: usize = 1;
        while i < n
            invariant
                1 <= i <= n,
                n == self.boards@.len(),
                summarises(summary, self.boards@, i as int),
                summary.positions <= i * 0x1_0000_0000_0000_0000,
            decreases n - i,
        {
            let length: u128 = self.boards[i].moves.len() as u128 + 1;
            proof {
                assert(self.boards@.take(i + 1).drop_last() == self.boards@.take(i as int));
                assert((i + 1) * 0x1_0000_0000_0000_0000 <= 0xffff_ffff_ffff_ffff
                    * 0x1_0000_0000_0000_0000) by (nonlinear_arith)
                    requires
                        i + 1 <= 0xffff_ffff_ffff_ffff,
                ;
                assert((i + 1) * 0x1_0000_0000_0000_0000 == i * 0x1_0000_0000_0000_0000
                    + 0x1_0000_0000_0000_0000) by (nonlinear_arith);
            }
            let ghost before = summary;
            summary.games = i + 1;
            summary.positions = summary.positions + length;
            if length < summary.shortest {
                summary.shortest = length;
            }
            if length > summary.longest {
                summary.longest = length;
            }
            proof {
                let lo = choose|k: int|
                    0 <= k < i && before.shortest == game_length(#[trigger] self.boards@[k]);
                let hi = choose|k: int|
                    0 <= k < i && before.longest == game_length(#[trigger] self.boards@[k]);
                if length < before.shortest {
                    assert(summary.shortest == game_length(self.boards@[i as int]));
                } else {
                    assert(summary.shortest == game_length(self.boards@[lo]));
                }
                if length > before.longest {
                    assert(summary.longest == game_length(self.boards@[i as int]));
                } else {
                    assert(summary.longest == game_length(self.boards@[hi]));
                }
            }
            i += 1;
        }
        Some(summary)
    }
}

/// Shuffles the openings in place, with `SliceRandom::shuffle` and the
/// generator of the thread, `rand::thread_rng`. The shuffle swaps elements
/// and does nothing else: the openings are the same, in an order that
/// chance decides.
#[verifier::external_body]
fn shuffle_boards(boards: &mut Vec<Board>)
    ensures
        final(boards)@.to_multiset() == old(boards)@.to_multiset(),
{
    boards.shuffle(&mut rand::thread_rng());
}

/// Sends a game into the channel, with `Sender::send`. Returns whether the
/// channel took it: it does not when its receiver is gone.
#[verifier::external_body]
fn send_game(pipe: &Sender<Game>, game: Game) -> (sent: bool) {
    pipe.send(game).is_ok()
}

/// Waits for the next game of the channel, with `Receiver::recv`. There is
/// none when every sender is gone and the channel is empty.
#[verifier::external_body]
fn receive_game(pipe: &Receiver<Game>) -> (game: Option<Game>) {
    pipe.recv().ok()
}

/// Takes the next game out of the channel if one is there, with
/// `Receiver::try_recv`, and does not wait for one.
#[verifier::external_body]
fn take_game(pipe: &Receiver<Game>) -> (game: Option<Game>) {
    pipe.try_recv().ok()
}

/// How many games are still to be played, read under the lock.
pub fn games_left(counter: &Arc<Mutex<u32>>) -> (left: u32) {
    let guard = lock_counter(counter);
    locked_value(&guard)
}

/// Hands in a finished game: if a game is still wanted, sends it into
/// `pipe` and counts it, both under the lock of the counter, so that no
/// more games are sent than were wanted. Returns whether the channel is
/// still open.
pub fn hand_in(counter: &Arc<Mutex<u32>>, pipe: &Sender<Game>, game: Game) -> (alive: bool) {
    let mut guard = lock_counter(counter);
    let left = locked_value(&guard);
    let offered = if wanted(left) {
        Some(send_game(pipe, game))
    } else {
        None
    };
    let (next, alive) = settle(left, offered);
    set_locked_value(&mut guard, next);
    alive
}

/// Whether a game is still wanted when the counter stands at `left`.
pub fn wanted(left: u32) -> (r: bool)
    ensures
        r == (left > 0),
{
    left > 0
}

/// What becomes of a counter at `left` when a finished game is handed in,
/// and whether the worker goes on. `offered` tells whether the game was
/// offered to the channel, and whether the channel took it. A game that the
/// channel took is counted. Where the channel did not take it, the counter
/// stays and the worker ends. Where the game was not offered, because none
/// was wanted, the counter stays and the worker goes on, to find the
/// counter at 0. A counter at 0 stays there.
pub open spec fn settled(left: u32, offered: Option<bool>) -> (u32, bool) {
    match offered {
        Some(sent) => if sent {
            (
                if left > 0 {
                    (left - 1) as u32
                } else {
                    0u32
                },
                true,
            )
        } else {
            (left, false)
        },
        None => (left, true),
    }
}

/// The counter after a finished game was handed in, and whether the worker
/// goes on.
pub fn settle(left: u32, offered: Option<bool>) -> (r: (u32, bool))
    ensures
        r == settled(left, offered),
{
    match offered {
        Some(true) => (
            if left > 0 {
                left - 1
            } else {
                0
            },
            true,
        ),
        Some(false) => (left, false),
        None => (left, true),
    }
}

/// How often `p` is among `positions`.
pub fn count_position(positions: &Vec<Board>, p: &Board) -> (count: usize)
    ensures
        count == occurrences(positions@, *p),
{
    let mut count: usize = 0;
    let mut i: usize = 0;
    while i < positions.len()
        invariant
            i <= positions.len(),
            count <= i,
            count == occurrences(positions@.take(i as int), *p),
        decreases positions.len() - i,
    {
        proof {
            assert(positions@.take(i + 1).drop_last() == positions@.take(i as int));
        }
        if positions[i] == *p {
            count += 1;
        }
        i += 1;
    }
    assert(positions@.take(i as int) == positions@);
    count
}

/// A line that is well played stays so with one more well-played move.
proof fn lemma_line_grows(start: Board, moves: Seq<Move>, m: Move)
    requires
        well_played_line(start, moves),
        well_played(position_after(start, moves), m),
    ensures
        well_played_line(start, moves.push(m)),
        position_after(start, moves.push(m)) == apply_move(position_after(start, moves), m),
        line(start, moves.push(m)) == line(start, moves).push(
            apply_move(position_after(start, moves), m),
        ),
{
    let longer = moves.push(m);
    assert(longer.drop_last() == moves);
    assert forall|i: int| 0 <= i < longer.len() implies well_played(
        position_after(start, longer.take(i)),
        #[trigger] longer[i],
    ) by {
        if i < moves.len() {
            assert(longer.take(i) == moves.take(i));
            assert(longer[i] == moves[i]);
        } else {
            assert(longer.take(i) == moves);
        }
    }
    assert forall|i: int| 0 <= i < longer.len() implies #[trigger] line(start, longer)[i] == line(
        start,
        moves,
    ).push(apply_move(position_after(start, moves), m))[i] by {
        if i < moves.len() {
            assert(longer.take(i + 1) == moves.take(i + 1));
        } else {
            assert(longer.take(i + 1) == longer);
        }
    }
    assert(line(start, longer) =~= line(start, moves).push(
        apply_move(position_after(start, moves), m),
    ));
}

/// A worker of self-play: two searches that play each other, and its own
/// copy of the opening book.
pub struct Runner {
    pub searcher1: Search,
    pub searcher2: Search,
    pub openings: Openings,
}

impl Runner {
    /// Both searches are ready to search any depth.
    pub open spec fn ready(self) -> bool {
        &&& self.searcher1.wf()
        &&& self.searcher2.wf()
        &&& self.searcher1.stack_storage@.len() >= MAX_DEPTH
        &&& self.searcher2.stack_storage@.len() >= MAX_DEPTH
    }

    /// The searches are ready, and the book holds an opening, and only
    /// openings that can be played from.
    pub open spec fn wf(self) -> bool {
        &&& self.ready()
        &&& self.openings.openings@.len() > 0
        &&& forall|i: int|
            0 <= i < self.openings.openings@.len() ==> playable(
                #[trigger] self.openings.openings@[i],
            )
    }

    /// Whether a worker can play from `board`.
    pub fn can_play(board: &Board) -> (r: bool)
        requires
            board.wf(),
        ensures
            r == playable(*board),
    {
        board.full_move <= OPENING_MOVE_LIMIT
    }

    /// A worker with two new searches that share one stop flag.
    pub fn new(openings: Openings) -> (runner: Runner)
        ensures
            runner.ready(),
            runner.openings == openings,
    {
        let val = Arc::new(new_lock(Shared { stop: false }));
        Runner { searcher1: Search::new(share(&val)), searcher2: Search::new(val), openings }
    }

    /// The search that plays `side` in a game: the first search has Black
    /// where `picker` is set, White where it is not.
    pub open spec fn first_plays(picker: bool, side: Side) -> bool {
        picker == (side == Side::Black)
    }

    /// The opening of game number `game` from a book of `book` openings,
    /// and whether the first search has Black in it: the openings come in
    /// turn, and the searches change sides with every pass through the
    /// book.
    pub fn schedule(game: usize, book: usize) -> (r: (usize, bool))
        requires
            book > 0,
        ensures
            r.0 == game % book,
            r.1 == ((game / book) % 2 == 0),
    {
        (game % book, (game / book) % 2 == 0)
    }

    /// Plays one game from `start`, each side searching under the limit of
    /// `go_info`. The game ends when its position is final, or as a draw
    /// when a position has come up for the third time. A game that is not
    /// over after [`PLY_CAP`] plies is given up, and nothing is returned.
    pub fn play_game(&mut self, start: Board, picker: bool, go_info: &GoInfo) -> (game: Option<
        Game,
    >)
        requires
            old(self).ready(),
            playable(start),
            go_info.resolvable(),
        ensures
            final(self).ready(),
            final(self).openings == old(self).openings,
            game matches Some(g) ==> g.start == start && is_record(start, g.moves@, g.status),
            game is None ==> exists|moves: Seq<Move>| is_given_up(start, moves),
    {
        let mut moves: Vec<Move> = Vec::new();
        let mut seen: Vec<Board> = Vec::new();
        let mut game_state = start;
        let mut x: usize = 0;
        let mut draw = false;
        let mut running = game_state.status() == Status::Ongoing;
        assert(line(start, moves@) =~= seen@);
        while running
            invariant
                self.ready(),
                self.openings == old(self).openings,
                go_info.resolvable(),
                playable(start),
                x <= PLY_CAP,
                moves@.len() == x,
                seen@ == line(start, moves@),
                game_state == position_after(start, moves@),
                game_state.wf(),
                game_state.full_move <= start.full_move + x,
                well_played_line(start, moves@),
                running ==> !draw && !game_state.is_over(),
                !running && !draw ==> game_state.is_over(),
                draw <==> occurrences(seen@, game_state) >= 3,
            decreases PLY_CAP - x,
        {
            if x == PLY_CAP {
                assert(is_given_up(start, moves@));
                return None;
            }
            x += 1;
            let first = picker == (game_state.side_to_move == Side::Black);
            assert(first == Runner::first_plays(picker, game_state.side_to_move));
            let found = if first {
                self.searcher1.set_position_direct(&game_state);
                self.searcher1.find_best_move(go_info)
            } else {
                self.searcher2.set_position_direct(&game_state);
                self.searcher2.find_best_move(go_info)
            };
            let best_move = found.best_move;
            proof {
                let p = game_state;
                assert(reply_score(p, best_move, found.depth as nat) == minimax(
                    p,
                    found.depth as nat,
                ));
                assert(well_played(p, best_move));
                lemma_line_grows(start, moves@, best_move);
                let k = choose|k: int|
                    0 <= k < legal_moves(p).len() && legal_moves(p)[k] == best_move;
                lemma_legal_move_round_trip(p, k);
            }
            make_move(&mut game_state, &best_move);
            seen.push(game_state);
            moves.push(best_move);
            if count_position(&seen, &game_state) >= 3 {
                draw = true;
                running = false;
            } else {
                running = game_state.status() == Status::Ongoing;
            }
        }
        let status = if draw {
            Status::Draw
        } else {
            game_state.status()
        };
        Some(Game { start, moves, status })
    }

    /// Plays games until none is left to play: shuffles the book, then
    /// takes the openings in turn, the two searches changing sides with
    /// every pass through the book. Each game that was played to its end is
    /// sent into `send_pipe` and counted in `num_games_left`, both under
    /// the lock of the counter; a game that was given up is neither. The
    /// worker ends when the counter is at 0 or the channel has lost its
    /// receiver.
    pub fn start(&mut self, _id: usize, num_games_left: Arc<Mutex<u32>>, send_pipe: Sender<Game>)
        requires
            old(self).wf(),
        ensures
            final(self).wf(),
            final(self).openings.openings@.to_multiset() == old(
                self,
            ).openings.openings@.to_multiset(),
    {
        let go_info = GoInfo {
            wtime: None,
            btime: None,
            winc: None,
            binc: None,
            moves_to_go: None,
            depth: Some(SELF_PLAY_DEPTH),
            nodes: None,
            mate: None,
            movetime: None,
            infinite: false,
        };
        self.start_with(&go_info, num_games_left, send_pipe);
    }

    /// [`Runner::start`] with searches under the limit of `go_info`.
    pub fn start_with(
        &mut self,
        go_info: &GoInfo,
        num_games_left: Arc<Mutex<u32>>,
        send_pipe: Sender<Game>,
    )
        requires
            old(self).wf(),
            go_info.resolvable(),
        ensures
            final(self).wf(),
            final(self).openings.openings@.to_multiset() == old(
                self,
            ).openings.openings@.to_multiset(),
    {
        let ghost book = self.openings.openings@;
        shuffle_boards(&mut self.openings.openings);
        proof {
            book.to_multiset_ensures();
            self.openings.openings@.to_multiset_ensures();
            assert forall|i: int| 0 <= i < self.openings.openings@.len() implies playable(
                #[trigger] self.openings.openings@[i],
            ) by {
                let o = self.openings.openings@[i];
                assert(self.openings.openings@.contains(o));
                assert(book.to_multiset().count(o) > 0);
                assert(book.contains(o));
            }
            assert(self.openings.openings@.len() > 0) by {
                assert(book.contains(book[0]));
                assert(self.openings.openings@.to_multiset().count(book[0]) > 0);
                assert(self.openings.openings@.contains(book[0]));
            }
        }
        let mut current_opening: usize = 0;
        let mut alive = true;
        while alive && current_opening < usize::MAX && games_left(&num_games_left) != 0
            invariant
                self.wf(),
                go_info.resolvable(),
                self.openings.openings@.to_multiset() == book.to_multiset(),
            decreases usize::MAX - current_opening,
        {
            match self.play_next(current_opening, go_info) {
                Some(game) => {
                    alive = hand_in(&num_games_left, &send_pipe, game);
                },
                None => {},
            }
            current_opening += 1;
        }
    }

    /// The opening from which game number `game` of a worker starts: the
    /// openings of its book in turn, from the first again after the last.
    pub open spec fn opening_of(self, game: usize) -> Board {
        self.openings.openings@[game as int % self.openings.openings@.len() as int]
    }

    /// Plays game number `game` of the worker: forgets what both searches
    /// have learnt, and plays from the opening whose turn it is, the first
    /// search having Black in every other pass through the book. Returns
    /// the record of the game, or nothing where the game was given up.
    pub fn play_next(&mut self, game: usize, go_info: &GoInfo) -> (played: Option<Game>)
        requires
            old(self).wf(),
            go_info.resolvable(),
        ensures
            final(self).wf(),
            final(self).openings == old(self).openings,
            played matches Some(g) ==> g.start == old(self).opening_of(game) && is_record(
                g.start,
                g.moves@,
                g.status,
            ),
            played is None ==> exists|moves: Seq<Move>|
                is_given_up(old(self).opening_of(game), moves),
    {
        let (opening, picker) = Runner::schedule(game, self.openings.openings.len());
        let start = self.openings.openings[opening];
        self.searcher1.setup_newgame();
        self.searcher2.setup_newgame();
        self.play_game(start, picker, go_info)
    }
}

/// The collector of the finished games.
pub struct DataCollector {
    data: Data,
}

impl DataCollector {
    /// The games collected so far.
    pub closed spec fn games(self) -> Seq<Game> {
        self.data.boards@
    }

    pub fn new() -> (collector: DataCollector)
        ensures
            collector.games() == Seq::<Game>::empty(),
    {
        DataCollector { data: Data { boards: Vec::new() } }
    }

    /// Collects the games that come out of `reciever` until none is left
    /// to play, or until the channel has lost every sender, and then those
    /// that the channel still holds. No game that was collected before is
    /// lost.
    pub fn run(&mut self, num_games_left: Arc<Mutex<u32>>, reciever: Receiver<Game>)
        ensures
            old(self).games().is_prefix_of(final(self).games()),
    {
        let mut alive = true;
        while alive && self.data.boards.len() < usize::MAX && games_left(&num_games_left) != 0
            invariant
                old(self).games().is_prefix_of(self.games()),
            decreases usize::MAX - self.data.boards@.len(), alive as int,
        {
            alive = self.collect(receive_game(&reciever));
        }
        let mut more = true;
        while more && self.data.boards.len() < usize::MAX
            invariant
                old(self).games().is_prefix_of(self.games()),
            decreases usize::MAX - self.data.boards@.len(), more as int,
        {
            more = self.collect(take_game(&reciever));
        }
    }

    /// Takes in what came out of the channel: a game is added behind the
    /// games collected so far. Returns whether there was a game.
    pub fn collect(&mut self, received: Option<Game>) -> (more: bool)
        ensures
            more == received is Some,
            final(self).games() == match received {
                Some(game) => old(self).games().push(game),
                None => old(self).games(),
            },
    {
        match received {
            Some(game) => {
                self.data.boards.push(game);
                true
            },
            None => false,
        }
    }

    /// The games collected.
    pub fn data(&self) -> (data: &Data)
        ensures
            data.boards@ == self.games(),
    {
        &self.data
    }
}

} // verus!
