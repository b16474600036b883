use std::sync::mpsc::channel;
use std::sync::{Arc, Mutex};

use sea_baxx::board::{Board, Status};
use sea_baxx::datagen::{
    count_position, games_left, hand_in, settle, wanted, Data, DataCollector, Game, Openings,
    Runner,
};
use sea_baxx::generator::Book;
use sea_baxx::handles::Shared;
use sea_baxx::move_app::make_move;
use sea_baxx::movegen::{generate_moves, Move};
use sea_baxx::search::{GoInfo, Search};

fn board(fen: &str) -> Board {
    Board::new(fen.to_string())
}

fn go(depth: u32) -> GoInfo {
    GoInfo {
        wtime: None,
        btime: None,
        winc: None,
        binc: None,
        moves_to_go: None,
        depth: Some(depth),
        nodes: None,
        mate: None,
        movetime: None,
        infinite: false,
    }
}

fn runner(openings: Vec<Board>) -> Runner {
    let shared = Arc::new(Mutex::new(Shared { stop: false }));
    Runner {
        searcher1: Search::with_table(shared.clone(), 4099),
        searcher2: Search::with_table(shared, 4099),
        openings: Openings { openings },
    }
}

/// Replays a record and checks that every move was legal and that the game
/// ended as the record says.
fn check_record(game: &Game) {
    let mut position = game.start;
    let mut seen: Vec<Board> = vec![];
    for (i, m) in game.moves.iter().enumerate() {
        assert!(!position.game_over());
        assert!(generate_moves(&position).contains(m));
        make_move(&mut position, m);
        seen.push(position);
        let times = seen.iter().filter(|p| **p == position).count();
        if i + 1 < game.moves.len() {
            assert!(times < 3);
        }
    }
    assert!(game.moves.len() <= 700);
    let times = seen.iter().filter(|p| **p == position).count();
    if times >= 3 {
        assert_eq!(game.status, Status::Draw);
    } else {
        assert!(position.game_over());
        assert_eq!(game.status, position.status());
    }
}

fn game_of(moves: usize) -> Game {
    Game {
        start: Board::startpos(),
        moves: vec![Move { null: true, from: 0, to: 0, capture_square: 0 }; moves],
        status: Status::Draw,
    }
}

#[test]
fn a_game_is_played_to_its_end() {
    let start = board("x5o/7/7/7/7/7/o5x x 0 1");
    let mut r = runner(vec![start]);
    let game = r.play_game(start, true, &go(3)).unwrap();
    assert_eq!(game.start, start);
    assert!(game.moves.len() >= 1);
    check_record(&game);
    let other = r.play_game(start, false, &go(2)).unwrap();
    check_record(&other);
}

#[test]
fn a_finished_opening_gives_a_game_without_moves() {
    let start = board("6o/7/2o4/3o3/4o2/7/o6 o 0 1");
    let mut r = runner(vec![start]);
    let game = r.play_game(start, true, &go(2)).unwrap();
    assert_eq!(game.moves.len(), 0);
    assert_eq!(game.status, Status::Winner);
}

#[test]
fn a_game_that_only_repeats_is_drawn_or_given_up() {
    // two stones that can only jump to and fro behind walls
    let start = board("x1-4/--4o/7/7/7/7/7 x 0 1");
    let mut r = runner(vec![start]);
    match r.play_game(start, true, &go(2)) {
        Some(game) => check_record(&game),
        None => {}
    }
}

#[test]
fn a_worker_plays_the_games_that_are_left() {
    let start = board("x5o/7/7/7/7/7/o5x x 0 1");
    let counter = Arc::new(Mutex::new(10u32));
    let (send, recv) = channel::<Game>();
    let mut first = runner(vec![start]);
    let mut second = runner(vec![start]);
    first.start_with(&go(2), counter.clone(), send.clone());
    second.start_with(&go(2), counter.clone(), send);
    assert_eq!(games_left(&counter), 0);
    let games: Vec<Game> = recv.iter().collect();
    assert_eq!(games.len(), 10);
    for game in &games {
        assert_eq!(game.start, start);
        check_record(game);
    }
    let data = Data { boards: games };
    let summary = data.summary().unwrap();
    assert_eq!(summary.games, 10);
    assert!(summary.shortest >= 1);
    assert!(summary.shortest <= summary.longest);
}

#[test]
fn a_worker_ends_when_the_channel_is_closed() {
    let start = board("x5o/7/7/7/7/7/o5x x 0 1");
    let counter = Arc::new(Mutex::new(5u32));
    let (send, recv) = channel::<Game>();
    drop(recv);
    let mut worker = runner(vec![start]);
    worker.start_with(&go(2), counter.clone(), send);
    assert_eq!(games_left(&counter), 5);
}

#[test]
fn a_worker_with_nothing_left_plays_nothing() {
    let start = board("x5o/7/7/7/7/7/o5x x 0 1");
    let counter = Arc::new(Mutex::new(0u32));
    let (send, recv) = channel::<Game>();
    let mut worker = runner(vec![start]);
    worker.start(0, counter, send);
    assert_eq!(recv.iter().count(), 0);
}

#[test]
fn the_book_is_shuffled_and_kept() {
    let mut openings = vec![];
    for rank in 0..7 {
        for file in 0..7 {
            let mut b = Board::startpos();
            b.blockers = 1u64 << (8 * rank + file);
            b.boards[0] &= !b.blockers;
            b.boards[1] &= !b.blockers;
            openings.push(b);
        }
    }
    let counter = Arc::new(Mutex::new(0u32));
    let (send, _recv) = channel::<Game>();
    let mut worker = runner(openings.clone());
    worker.start_with(&go(1), counter, send);
    let shuffled = worker.openings.openings.clone();
    assert_ne!(shuffled, openings);
    let key = |b: &Board| (b.blockers, b.boards[0], b.boards[1]);
    let mut a: Vec<_> = shuffled.iter().map(key).collect();
    let mut b: Vec<_> = openings.iter().map(key).collect();
    a.sort();
    b.sort();
    assert_eq!(a, b);
}

#[test]
fn the_searches_of_a_new_worker_share_their_stop_flag() {
    let r = Runner::new(Openings { openings: vec![Board::startpos()] });
    assert_eq!(r.openings.openings, vec![Board::startpos()]);
    assert!(!r.searcher2.shared.lock().unwrap().stop);
    r.searcher1.shared.lock().unwrap().stop = true;
    assert!(r.searcher2.shared.lock().unwrap().stop);
    assert!(Runner::can_play(&Board::startpos()));
    let mut late = Board::startpos();
    late.full_move = u32::MAX - 10;
    assert!(!Runner::can_play(&late));
}

#[test]
fn positions_are_counted() {
    let a = board("x5o/7/7/7/7/7/o5x x 0 1");
    let b = board("x5o/7/7/7/7/7/o5x x 1 1");
    let seen = vec![a, b, a, a, b];
    assert_eq!(count_position(&seen, &a), 3);
    assert_eq!(count_position(&seen, &b), 2);
    assert_eq!(count_position(&seen, &board("x5o/7/7/7/7/7/o5x o 0 1")), 0);
    assert_eq!(count_position(&vec![], &a), 0);
}

#[test]
fn the_collector_takes_what_the_channel_holds() {
    let counter = Arc::new(Mutex::new(3u32));
    let (send, recv) = channel::<Game>();
    for moves in [4, 0, 9] {
        send.send(game_of(moves)).unwrap();
    }
    drop(send);
    let mut collector = DataCollector::new();
    assert_eq!(collector.data().boards.len(), 0);
    collector.run(counter, recv);
    let lengths: Vec<usize> = collector.data().boards.iter().map(|g| g.moves.len()).collect();
    assert_eq!(lengths, vec![4, 0, 9]);
}

#[test]
fn the_collector_does_not_wait_when_no_game_is_left() {
    let counter = Arc::new(Mutex::new(0u32));
    let (send, recv) = channel::<Game>();
    send.send(game_of(1)).unwrap();
    send.send(game_of(2)).unwrap();
    let mut collector = DataCollector::new();
    collector.run(counter, recv);
    // what was sent before the counter came to 0 is still collected
    assert_eq!(collector.data().boards.len(), 2);
    drop(send);
}

#[test]
fn no_more_games_are_handed_in_than_wanted() {
    let counter = Arc::new(Mutex::new(2u32));
    let (send, recv) = channel::<Game>();
    assert!(hand_in(&counter, &send, game_of(1)));
    assert!(hand_in(&counter, &send, game_of(2)));
    assert!(hand_in(&counter, &send, game_of(3)));
    assert_eq!(games_left(&counter), 0);
    drop(send);
    let lengths: Vec<usize> = recv.iter().map(|g| g.moves.len()).collect();
    assert_eq!(lengths, vec![1, 2]);
    let counter = Arc::new(Mutex::new(2u32));
    let (send, recv) = channel::<Game>();
    drop(recv);
    assert!(!hand_in(&counter, &send, game_of(1)));
    assert_eq!(games_left(&counter), 2);
}

#[test]
fn summary_of_games() {
    assert_eq!(Data { boards: vec![] }.summary(), None);
    let data = Data { boards: vec![game_of(4), game_of(0), game_of(9), game_of(2)] };
    let summary = data.summary().unwrap();
    assert_eq!(summary.games, 4);
    assert_eq!(summary.positions, 19);
    assert_eq!(summary.shortest, 1);
    assert_eq!(summary.longest, 10);
    let one = Data { boards: vec![game_of(6)] }.summary().unwrap();
    assert_eq!((one.games, one.positions, one.shortest, one.longest), (1, 7, 7, 7));
}

#[test]
fn jobs_of_a_book() {
    let a = board("x5o/7/7/7/7/7/o5x x 0 1");
    let b = board("x5o/7/7/7/7/7/o5x o 0 1");
    let c = board("7/7/7/2x1o2/7/7/7 x 0 1");
    let mut book = Book { book: vec![a, b, c], index: 0 };
    let job = book.generate_job(5);
    assert_eq!(job.starting_boards, vec![a, b, c, a, b]);
    assert_eq!(book.index, 5);
    // the index has passed the job size: the next job is empty
    let job = book.generate_job(5);
    assert_eq!(job.starting_boards, vec![]);
    assert_eq!(book.index, 10);
    let job = book.generate_job(12);
    assert_eq!(job.starting_boards, vec![b, c]);
    assert_eq!(book.index, 22);
    assert_eq!(book.book, vec![a, b, c]);
}

#[test]
fn the_searches_change_sides_with_every_pass_through_the_book() {
    assert_eq!(Runner::schedule(0, 3), (0, true));
    assert_eq!(Runner::schedule(2, 3), (2, true));
    assert_eq!(Runner::schedule(3, 3), (0, false));
    assert_eq!(Runner::schedule(5, 3), (2, false));
    assert_eq!(Runner::schedule(6, 3), (0, true));
    assert_eq!(Runner::schedule(7, 1), (0, false));
}

#[test]
fn a_game_that_was_sent_is_counted() {
    assert_eq!(settle(5, Some(true)), (4, true));
    assert_eq!(settle(1, Some(true)), (0, true));
    assert_eq!(settle(0, Some(true)), (0, true));
    assert_eq!(settle(5, Some(false)), (5, false));
    assert_eq!(settle(u32::MAX, Some(true)), (u32::MAX - 1, true));
    // a game that is not wanted is not offered
    assert_eq!(settle(0, None), (0, true));
    assert_eq!(settle(3, None), (3, true));
    assert!(wanted(1));
    assert!(wanted(u32::MAX));
    assert!(!wanted(0));
}

#[test]
fn a_received_game_goes_behind_the_others() {
    let mut collector = DataCollector::new();
    assert!(collector.collect(Some(game_of(3))));
    assert!(collector.collect(Some(game_of(1))));
    assert!(!collector.collect(None));
    assert!(collector.collect(Some(game_of(7))));
    let lengths: Vec<usize> = collector.data().boards.iter().map(|g| g.moves.len()).collect();
    assert_eq!(lengths, vec![3, 1, 7]);
}

#[test]
fn the_openings_of_the_book_come_in_turn() {
    let a = board("x5o/7/7/7/7/7/o5x x 0 1");
    let b = board("7/7/7/2x1o2/7/7/7 x 0 1");
    let c = board("6o/7/2o4/3o3/4o2/7/o6 o 0 1");
    let mut r = runner(vec![a, b, c]);
    for (game, start) in [(0, a), (1, b), (2, c), (3, a), (4, b), (5, c), (7, b)] {
        let played = r.play_next(game, &go(2)).unwrap();
        assert_eq!(played.start, start);
        check_record(&played);
        assert_eq!(r.openings.openings, vec![a, b, c]);
    }
    // what a search has learnt in one game is forgotten before the next
    let played = r.play_next(0, &go(3)).unwrap();
    let mut last = played.start;
    for m in &played.moves[..played.moves.len() - 1] {
        make_move(&mut last, m);
    }
    assert!(r.searcher1.table.probe(&last).is_some() || r.searcher2.table.probe(&last).is_some());
    r.play_next(2, &go(2)).unwrap();
    assert!(r.searcher1.table.probe(&last).is_none());
    assert!(r.searcher2.table.probe(&last).is_none());
}
