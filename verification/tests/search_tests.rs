use std::sync::{Arc, Mutex};

use sea_baxx::board::{Board, Side, Status};
use sea_baxx::eval::Eval;
use sea_baxx::handles::Shared;
use sea_baxx::move_app::{make_move, unmake_move};
use sea_baxx::movegen::{generate_moves, Move};
use sea_baxx::movepicker::{contains_move, key_of, MovePicker};
use sea_baxx::notation::an_to_bb;
use sea_baxx::search::{
    decide, Budget, Decision, EndCondition, GoInfo, Search, SearchInfo,
};
use sea_baxx::table::{Entry, NodeType, Table};

fn board(fen: &str) -> Board {
    Board::new(fen.to_string())
}

fn square(name: &str) -> u64 {
    an_to_bb(name.to_string())
}

fn shared() -> Arc<Mutex<Shared>> {
    Arc::new(Mutex::new(Shared { stop: false }))
}

fn search_on(b: Board) -> Search {
    let mut search = Search::with_table(shared(), 1009);
    search.set_position_direct(&b);
    search
}

fn go() -> GoInfo {
    GoInfo {
        wtime: None,
        btime: None,
        winc: None,
        binc: None,
        moves_to_go: None,
        depth: None,
        nodes: None,
        mate: None,
        movetime: None,
        infinite: false,
    }
}

fn leaf(b: &Board) -> i32 {
    match b.status() {
        Status::Draw => 0,
        Status::Winner => 1000,
        Status::Loser => -1000,
        Status::Ongoing => Eval::new().evaluate(b),
    }
}

/// The score of `b` for the side to move by plain search of every line.
fn plain(b: &mut Board, depth: u8) -> i32 {
    if depth == 0 || b.game_over() {
        return leaf(b);
    }
    let mut best = i32::MIN;
    for m in generate_moves(b) {
        let delta = make_move(b, &m);
        let score = -plain(b, depth - 1);
        unmake_move(b, &m, delta);
        best = best.max(score);
    }
    best
}

/// The score of `b` as `side` sees it: the best for `side` where it moves,
/// the worst for it where the other side does.
fn seen_by(b: &mut Board, depth: u8, side: Side) -> i32 {
    if depth == 0 || b.game_over() {
        return if b.side_to_move == side { leaf(b) } else { -leaf(b) };
    }
    let own = b.side_to_move == side;
    let mut best = if own { i32::MIN } else { i32::MAX };
    for m in generate_moves(b) {
        let delta = make_move(b, &m);
        let score = seen_by(b, depth - 1, side);
        unmake_move(b, &m, delta);
        best = if own { best.max(score) } else { best.min(score) };
    }
    best
}

fn positions() -> Vec<Board> {
    vec![
        board("x5o/7/7/7/7/7/o5x x 0 1"),
        board("x5o/7/2-1-2/7/2-1-2/7/o5x o 0 1"),
        board("7/7/7/2x1o2/7/7/7 x 0 1"),
        board("7/7/7/7/-------/-------/x5o o 0 1"),
        board("6o/7/7/7/---4/---4/x--4 x 0 1"),
        board("xxxxxxx/xxxxxxx/xxxxxxx/xxx1ooo/ooooooo/ooooooo/ooooooo o 5 9"),
        board("xxxxxxx/xxxxxxx/xxxxxx1/xxx1ooo/ooooooo/oooooo1/ooooooo x 5 9"),
        board("x5o/7/7/7/7/7/o5x x 98 1"),
        board("6o/7/2o4/3o3/4o2/7/o6 o 0 1"),
    ]
}

#[test]
fn evaluation_counts_stones() {
    let eval = Eval::new();
    assert_eq!(eval.evaluate(&board("x5o/7/7/7/7/7/o5x x 0 1")), 0);
    assert_eq!(eval.evaluate(&board("xxx4/7/7/7/7/7/o5x x 0 1")), 3);
    assert_eq!(eval.evaluate(&board("xxx4/7/7/7/7/7/o5x o 0 1")), -3);
    assert_eq!(eval.evaluate(&board("7/7/7/7/ooooooo/ooooooo/xxxxxxx o 0 1")), 7);
}

#[test]
fn a_new_table_is_empty() {
    let table = Table::new(17);
    assert_eq!(table.capacity(), 17);
    for b in positions() {
        assert_eq!(*table.index(&b), None);
        assert_eq!(table.probe(&b), None);
    }
    assert_eq!(Table::new(0).capacity(), 0);
}

#[test]
fn an_entry_is_found_by_its_position() {
    let mut table = Table::new(17);
    let b = board("x5o/7/7/7/7/7/o5x x 0 1");
    let m = generate_moves(&b)[3];
    let entry = Entry::new(b.hash(), m, 12, 4, NodeType::Exact);
    assert_eq!(entry.hash, b.hash());
    assert_eq!(entry.hash_move, m);
    assert_eq!(entry.score, 12);
    assert_eq!(entry.depth, 4);
    assert_eq!(entry.node_type, NodeType::Exact);
    table.store(&b, entry);
    assert_eq!(table.probe(&b), Some(entry));
    assert_eq!(*table.index(&b), Some(entry));
    table.reset();
    assert_eq!(table.capacity(), 17);
    assert_eq!(table.probe(&b), None);
}

#[test]
fn a_colliding_position_is_a_miss() {
    // two sets of stones whose hashes differ by the number of slots
    let a = board("7/7/7/7/7/7/xo5 x 0 1");
    let b = board("7/7/7/7/7/7/o1x1o2 x 0 1");
    assert_eq!(a.hash(), 3);
    assert_eq!(b.hash(), 21);
    let mut table = Table::new(18);
    let m = Move { null: true, from: 0, to: 0, capture_square: 0 };
    let entry = Entry::new(a.hash(), m, 1, 1, NodeType::Lower);
    table.store(&a, entry);
    assert_eq!(*table.index(&b), Some(entry));
    assert_eq!(table.probe(&b), None);
    assert_eq!(table.probe(&a), Some(entry));
    // the later writer takes the slot, whatever it holds
    let other = Entry::new(b.hash(), m, -5, 0, NodeType::Upper);
    table.store(&b, other);
    assert_eq!(table.probe(&a), None);
    assert_eq!(table.probe(&b), Some(other));
}

#[test]
fn a_write_leaves_other_slots_alone() {
    let a = board("7/7/7/7/7/7/xo5 x 0 1");
    let b = board("7/7/7/7/7/7/o1x1o2 x 0 1");
    let mut table = Table::new(17);
    let m = Move { null: true, from: 0, to: 0, capture_square: 0 };
    let first = Entry::new(a.hash(), m, 1, 1, NodeType::Lower);
    let second = Entry::new(b.hash(), m, 2, 2, NodeType::Exact);
    table.store(&a, first);
    table.store(&b, second);
    assert_eq!(table.probe(&a), Some(first));
    assert_eq!(table.probe(&b), Some(second));
}

#[test]
fn sort_keys() {
    let quiet = Move { null: false, from: 0, to: 1, capture_square: 0 };
    assert_eq!(key_of(&quiet), 8);
    let jump = Move { null: false, from: 4, to: 1, capture_square: 0 };
    assert_eq!(key_of(&jump), 16);
    let three = Move { null: false, from: 0, to: 1, capture_square: 0x302 };
    assert_eq!(key_of(&three), 5);
    let jump_eight = Move { null: false, from: 4, to: 1 << 27, capture_square: 0x1c141c0000 };
    assert_eq!(key_of(&jump_eight), 8);
    let all = Move { null: false, from: 0, to: 1, capture_square: u64::MAX };
    assert_eq!(key_of(&all), -56);
}

#[test]
fn moves_are_tried_by_captures_then_placements_first() {
    let q1 = Move { null: false, from: 0, to: 1 << 1, capture_square: 0 };
    let q2 = Move { null: false, from: 0, to: 1 << 2, capture_square: 0 };
    let j1 = Move { null: false, from: 1, to: 1 << 3, capture_square: 0 };
    let c1 = Move { null: false, from: 0, to: 1 << 4, capture_square: 1 << 5 };
    let jc2 = Move { null: false, from: 1, to: 1 << 9, capture_square: 3 << 16 };
    let jc1 = Move { null: false, from: 1, to: 1 << 10, capture_square: 1 << 17 };
    let c2 = Move { null: false, from: 0, to: 1 << 11, capture_square: 3 << 18 };
    let moves = vec![q1, j1, q2, jc1, c1, jc2, c2];
    let order = MovePicker::new(moves.clone(), None, None).sort();
    assert_eq!(order, vec![c2, c1, q1, q2, jc2, jc1, j1]);
    // the killer goes first, the hash move second, and neither comes again
    let order = MovePicker::new(moves.clone(), Some(q2), Some(j1)).sort();
    assert_eq!(order, vec![j1, q2, c2, c1, q1, jc2, jc1]);
    // a killer that is the hash move counts once, as the hash move
    let order = MovePicker::new(moves.clone(), Some(q2), Some(q2)).sort();
    assert_eq!(order, vec![q2, c2, c1, q1, jc2, jc1, j1]);
    // hints that are no moves of the list are left out
    let stranger = Move { null: false, from: 0, to: 1 << 40, capture_square: 0 };
    let order = MovePicker::new(moves.clone(), Some(stranger), Some(stranger)).sort();
    assert_eq!(order, vec![c2, c1, q1, q2, jc2, jc1, j1]);
    let order = MovePicker::new(moves.clone(), None, Some(c1)).sort();
    assert_eq!(order, vec![c1, c2, q1, q2, jc2, jc1, j1]);
    assert_eq!(MovePicker::new(vec![], Some(q1), Some(q2)).sort(), vec![]);
    assert!(contains_move(&moves, &jc1));
    assert!(!contains_move(&moves, &stranger));
}

#[test]
fn ordering_keeps_the_moves() {
    for b in positions() {
        let moves = generate_moves(&b);
        let hash = moves.last().copied();
        let killer = moves.first().copied();
        let mut order = MovePicker::new(moves.clone(), hash, killer).sort();
        let mut expected = moves.clone();
        order.sort();
        expected.sort();
        assert_eq!(order, expected);
    }
}

#[test]
fn end_conditions() {
    assert!(!EndCondition::Infinite.met(u64::MAX, 255));
    assert!(EndCondition::Nodes(10).met(10, 0));
    assert!(EndCondition::Nodes(10).met(11, 0));
    assert!(!EndCondition::Nodes(10).met(9, 0));
    assert!(EndCondition::Nodes(0).met(0, 0));
    assert!(EndCondition::Depth(3).met(0, 3));
    assert!(!EndCondition::Depth(3).met(0, 2));
    assert!(!EndCondition::Depth(3).met(0, 4));
    let now = std::time::Instant::now();
    assert!(EndCondition::Time(now).met(0, 0));
    let later = now + std::time::Duration::from_secs(3600);
    assert!(!EndCondition::Time(later).met(0, 0));
}

#[test]
fn counters_reset() {
    let mut info = SearchInfo::new();
    assert_eq!((info.nodes, info.tt_hits, info.cutoffs, info.aborted), (0, 0, 0, false));
    info.nodes = 5;
    info.tt_hits = 6;
    info.cutoffs = 7;
    info.aborted = true;
    info.reset();
    assert_eq!((info.nodes, info.tt_hits, info.cutoffs, info.aborted), (0, 0, 0, false));
}

#[test]
fn budgets_in_their_order() {
    let mut info = go();
    assert_eq!(info.budget(Side::Black), None);
    info.wtime = Some(10_000);
    assert_eq!(info.budget(Side::Black), None);
    info.btime = Some(4_000);
    // White has 6000 more left than Black: Black takes three quarters of
    // that and a tenth of its own clock
    assert_eq!(info.budget(Side::Black), Some(Budget::Millis(4_900)));
    // White has more left than Black: a tenth of its clock
    assert_eq!(info.budget(Side::White), Some(Budget::Millis(1_000)));
    info.btime = Some(10_000);
    assert_eq!(info.budget(Side::White), Some(Budget::Millis(1_000)));
    assert_eq!(info.budget(Side::Black), Some(Budget::Millis(1_000)));
    info.btime = Some(10_002);
    assert_eq!(info.budget(Side::White), Some(Budget::Millis(1_001)));
    assert_eq!(info.budget(Side::Black), Some(Budget::Millis(1_000)));
    info.wtime = Some(u32::MAX);
    info.btime = Some(0);
    assert_eq!(info.budget(Side::Black), Some(Budget::Millis(3_221_225_471)));
    assert_eq!(info.budget(Side::White), Some(Budget::Millis(429_496_729)));
    info.infinite = true;
    assert_eq!(info.budget(Side::White), Some(Budget::Infinite));
    info.movetime = Some(250);
    assert_eq!(info.budget(Side::White), Some(Budget::Millis(250)));
    info.depth = Some(260);
    assert_eq!(info.budget(Side::White), Some(Budget::Depth(255)));
    info.depth = Some(256);
    assert_eq!(info.budget(Side::White), Some(Budget::Depth(255)));
    info.depth = Some(u32::MAX);
    assert_eq!(info.budget(Side::White), Some(Budget::Depth(255)));
    info.depth = Some(255);
    assert_eq!(info.budget(Side::White), Some(Budget::Depth(255)));
    info.depth = Some(7);
    assert_eq!(info.budget(Side::White), Some(Budget::Depth(7)));
    info.depth = Some(0);
    assert_eq!(info.budget(Side::White), Some(Budget::Depth(0)));
    info.nodes = Some(99);
    assert_eq!(info.budget(Side::White), Some(Budget::Nodes(99)));
}

#[test]
fn a_search_in_the_full_window_finds_the_true_score() {
    for b in positions() {
        for depth in 0..4u8 {
            let mut search = search_on(b);
            let score = search.negamax(&EndCondition::Infinite, -100_000, 100_000, depth);
            let mut copy = b;
            assert_eq!(score, plain(&mut copy, depth));
            assert_eq!(search.board, b);
            assert!(!search.search_info.aborted);
            if depth > 0 && !b.game_over() {
                let best = search.stack_storage[depth as usize].pv_move.unwrap();
                assert!(generate_moves(&b).contains(&best));
                let mut after = b;
                make_move(&mut after, &best);
                assert_eq!(-plain(&mut after, depth - 1), score);
            }
        }
    }
}

#[test]
fn a_second_search_with_a_filled_table_finds_the_same_score() {
    for b in positions() {
        let mut search = search_on(b);
        for depth in 1..4u8 {
            let first = search.negamax(&EndCondition::Infinite, -100_000, 100_000, depth);
            let second = search.negamax(&EndCondition::Infinite, -100_000, 100_000, depth);
            assert_eq!(first, second);
        }
    }
}

#[test]
fn a_narrow_window_bounds_the_true_score() {
    for b in positions() {
        let mut copy = b;
        let value = plain(&mut copy, 3);
        for (alpha, beta) in [(-1, 1), (-5, -2), (2, 5), (-1000, 0), (0, 1000), (-3, 4)] {
            let mut search = search_on(b);
            let score = search.negamax(&EndCondition::Infinite, alpha, beta, 3);
            if score <= alpha {
                assert!(value <= score);
            } else if score >= beta {
                assert!(value >= score);
            } else {
                assert_eq!(value, score);
            }
        }
    }
}

#[test]
fn the_two_sides_see_opposite_scores() {
    for b in positions() {
        for depth in 0..4u8 {
            let mut copy = b;
            let black = seen_by(&mut copy, depth, Side::Black);
            let white = seen_by(&mut copy, depth, Side::White);
            assert_eq!(black, -white);
            let own = seen_by(&mut copy, depth, b.side_to_move);
            let mut search = search_on(b);
            assert_eq!(search.negamax(&EndCondition::Infinite, -100_000, 100_000, depth), own);
        }
    }
}

#[test]
fn a_met_end_condition_aborts_the_search() {
    let b = board("x5o/7/7/7/7/7/o5x x 0 1");
    let mut search = search_on(b);
    assert_eq!(search.negamax(&EndCondition::Nodes(0), -100_000, 100_000, 3), 0);
    assert!(search.search_info.aborted);
    assert_eq!(search.search_info.nodes, 0);
    let mut search = search_on(b);
    search.negamax(&EndCondition::Nodes(5), -100_000, 100_000, 3);
    assert!(search.search_info.aborted);
    assert_eq!(search.board, b);
    // without polls the same search runs to its end
    let mut search = search_on(b);
    let score = search.search(&EndCondition::Nodes(0), false, -100_000, 100_000, 3);
    assert!(!search.search_info.aborted);
    let mut copy = b;
    assert_eq!(score, plain(&mut copy, 3));
}

#[test]
fn a_stop_request_aborts_the_search() {
    let b = board("x5o/7/7/7/7/7/o5x x 0 1");
    let mut search = search_on(b);
    search.shared.lock().unwrap().stop = true;
    assert_eq!(search.negamax(&EndCondition::Infinite, -100_000, 100_000, 2), 0);
    assert!(search.search_info.aborted);
}

#[test]
fn a_depth_budget_ends_the_search_one_depth_earlier() {
    let b = board("x5o/7/7/7/7/7/o5x x 0 1");
    let mut search = search_on(b);
    let mut info = go();
    info.depth = Some(3);
    let found = search.find_best_move(&info);
    assert_eq!(found.depth, 2);
    assert_eq!(found.reports.len(), 3);
    assert!(generate_moves(&b).contains(&found.best_move));
    for (k, report) in found.reports.iter().enumerate() {
        assert_eq!(report.depth as usize, k + 1);
        let mut copy = b;
        assert_eq!(report.score, plain(&mut copy, report.depth));
    }
    assert!(found.reports[0].nodes <= found.reports[1].nodes);
    let mut after = b;
    make_move(&mut after, &found.best_move);
    let mut copy = b;
    assert_eq!(-plain(&mut after, 1), plain(&mut copy, 2));
    assert_eq!(search.board, b);
}

#[test]
fn depth_one_always_counts() {
    let b = board("7/7/7/2x1o2/7/7/7 x 0 1");
    let mut info = go();
    info.depth = Some(1);
    let mut search = search_on(b);
    let found = search.find_best_move(&info);
    assert_eq!(found.depth, 1);
    assert_eq!(found.reports.len(), 1);
    // the capture wins the game
    assert_eq!(found.best_move.capture_square, square("e4"));
    assert_eq!(found.reports[0].score, 1000);

    // a node budget that is spent before the first move
    let mut info = go();
    info.nodes = Some(0);
    let mut search = search_on(b);
    let found = search.find_best_move(&info);
    assert_eq!(found.depth, 1);
    assert_eq!(found.reports.len(), 1);
    assert_eq!(found.best_move.capture_square, square("e4"));

    // a stop that was requested before the search began
    let mut info = go();
    info.infinite = true;
    let mut search = search_on(b);
    search.shared.lock().unwrap().stop = true;
    let found = search.find_best_move(&info);
    assert_eq!(found.depth, 1);
    assert_eq!(found.best_move.capture_square, square("e4"));
    // the stop flag is cleared when the search ends
    assert!(!search.shared.lock().unwrap().stop);
}

#[test]
fn a_node_budget_keeps_the_last_finished_depth() {
    let b = board("x5o/7/7/7/7/7/o5x x 0 1");
    let mut info = go();
    info.nodes = Some(400);
    let mut search = search_on(b);
    let found = search.find_best_move(&info);
    assert!(generate_moves(&b).contains(&found.best_move));
    assert!(found.depth >= 1);
    assert!(found.reports.len() == found.depth as usize + 1);
    let mut after = b;
    make_move(&mut after, &found.best_move);
    let mut copy = b;
    assert_eq!(-plain(&mut after, found.depth - 1), plain(&mut copy, found.depth));
}

#[test]
fn a_time_budget_ends_the_search() {
    let b = board("x5o/7/7/7/7/7/o5x x 0 1");
    let mut info = go();
    info.movetime = Some(30);
    let mut search = search_on(b);
    let found = search.find_best_move(&info);
    assert!(generate_moves(&b).contains(&found.best_move));
    assert!(found.depth >= 1);
}

#[test]
fn a_new_game_clears_table_and_stack() {
    let b = board("x5o/7/7/7/7/7/o5x x 0 1");
    let mut search = search_on(b);
    search.negamax(&EndCondition::Infinite, -100_000, 100_000, 3);
    assert!(search.table.probe(&b).is_some());
    assert!(search.stack_storage[3].pv_move.is_some());
    search.setup_newgame();
    assert_eq!(search.table.probe(&b), None);
    assert_eq!(search.table.capacity(), 1009);
    assert_eq!(search.stack_storage.len(), 200);
    assert!(search
        .stack_storage
        .iter()
        .all(|d| d.pv_move.is_none() && d.killer_move.is_none()));
    assert_eq!(search.board, b);
}

#[test]
fn a_search_records_its_result_in_the_table() {
    let b = board("7/7/7/2x1o2/7/7/7 x 0 1");
    let mut search = search_on(b);
    let score = search.negamax(&EndCondition::Infinite, -100_000, 100_000, 2);
    let entry = search.table.probe(&b).unwrap();
    assert_eq!(entry.hash, b.hash());
    assert_eq!(entry.score, score);
    assert_eq!(entry.depth, 2);
    assert_eq!(entry.node_type, NodeType::Exact);
    assert_eq!(Some(entry.hash_move), search.stack_storage[2].pv_move);
    let mut search = search_on(b);
    let low = search.negamax(&EndCondition::Infinite, 1000, 2000, 2);
    assert!(low <= 1000);
    assert_eq!(search.table.probe(&b).unwrap().node_type, NodeType::Upper);
    let mut search = search_on(b);
    let high = search.negamax(&EndCondition::Infinite, -2000, -1000, 2);
    assert!(high >= -1000);
    assert_eq!(search.table.probe(&b).unwrap().node_type, NodeType::Lower);
    assert!(search.search_info.cutoffs > 0);
}

#[test]
fn a_new_search_has_the_full_table() {
    let search = Search::new(shared());
    assert_eq!(search.table.capacity(), 2_000_000);
    assert_eq!(search.stack_storage.len(), 200);
    assert_eq!(search.board, Board::startpos());
    assert_eq!(search.my_side, Side::Black);
}

#[test]
fn moves_without_a_hint_are_tried_by_ascending_key() {
    for b in positions() {
        let moves = generate_moves(&b);
        let order = MovePicker::new(moves, None, None).sort();
        assert!(order.windows(2).all(|w| key_of(&w[0]) <= key_of(&w[1])));
    }
}

#[test]
fn a_controller_ends_a_search_by_the_clock() {
    let end_time = std::time::Instant::now();
    let controller = sea_baxx::search::Controller { end_time, max_depth: 4 };
    match controller.end_condition() {
        EndCondition::Time(t) => assert_eq!(t, end_time),
        _ => panic!("not a time limit"),
    }
}

#[test]
fn a_move_that_is_too_good_becomes_the_killer() {
    let b = board("x5o/7/7/7/7/7/o5x x 0 1");
    let mut search = search_on(b);
    let score = search.negamax(&EndCondition::Infinite, -2000, -1000, 2);
    assert!(score >= -1000);
    assert!(search.stack_storage[2].killer_move.is_some());
    assert_eq!(search.stack_storage[2].killer_move, search.stack_storage[2].pv_move);
    // in the full window no move is too good, and the killer stays
    let mut search = search_on(b);
    let before = Move { null: false, from: 0, to: 1 << 20, capture_square: 0 };
    search.stack_storage[2].killer_move = Some(before);
    search.negamax(&EndCondition::Infinite, -100_000, 100_000, 2);
    assert_eq!(search.stack_storage[2].killer_move, Some(before));
}

#[test]
fn what_follows_a_depth() {
    let m = Move { null: false, from: 0, to: 1 << 20, capture_square: 0 };
    let on = Decision { adopt: Some(m), go_on: true, stopped: false };
    assert_eq!(decide(1, false, false, false, Some(m)), on);
    assert_eq!(decide(7, false, false, false, Some(m)), on);
    // the move of depth 1 counts even when the search ends there
    assert_eq!(
        decide(1, true, false, false, Some(m)),
        Decision { adopt: Some(m), go_on: false, stopped: false }
    );
    assert_eq!(
        decide(1, false, true, false, Some(m)),
        Decision { adopt: Some(m), go_on: false, stopped: true }
    );
    // the move of a later depth does not
    assert_eq!(
        decide(2, true, false, false, Some(m)),
        Decision { adopt: None, go_on: false, stopped: false }
    );
    assert_eq!(
        decide(2, false, true, false, Some(m)),
        Decision { adopt: None, go_on: false, stopped: true }
    );
    assert_eq!(
        decide(9, false, false, true, Some(m)),
        Decision { adopt: None, go_on: false, stopped: true }
    );
    assert_eq!(
        decide(9, true, true, true, Some(m)),
        Decision { adopt: None, go_on: false, stopped: true }
    );
    assert_eq!(
        decide(3, false, false, false, None),
        Decision { adopt: None, go_on: false, stopped: false }
    );
}

#[test]
fn a_depth_budget_is_searched_to_its_end_when_nobody_stops() {
    let b = board("x5o/7/7/7/7/7/o5x x 0 1");
    for limit in 1..5u32 {
        let mut info = go();
        info.depth = Some(limit);
        let mut search = search_on(b);
        let found = search.find_best_move(&info);
        assert!(!found.stopped);
        assert_eq!(found.reports.len(), limit as usize);
        assert_eq!(found.depth as u32, if limit == 1 { 1 } else { limit - 1 });
    }
    // a stop that is requested ends the search at once, and is told
    let mut info = go();
    info.depth = Some(4);
    let mut search = search_on(b);
    search.shared.lock().unwrap().stop = true;
    let found = search.find_best_move(&info);
    assert!(found.stopped);
    assert_eq!(found.reports.len(), 1);
    assert_eq!(found.depth, 1);
}

#[test]
fn a_halted_visit_only_marks_the_search() {
    let b = board("x5o/7/7/7/7/7/o5x x 0 1");
    let mut search = search_on(b);
    search.negamax(&EndCondition::Infinite, -100_000, 100_000, 2);
    let nodes = search.search_info.nodes;
    let entry = search.table.probe(&b);
    let pv = search.stack_storage[3].pv_move;
    assert!(nodes > 0);
    assert_eq!(search.visit(true, &EndCondition::Infinite, true, -100_000, 100_000, 3), 0);
    assert!(search.search_info.aborted);
    assert_eq!(search.search_info.nodes, nodes);
    assert_eq!(search.table.probe(&b), entry);
    assert_eq!(search.stack_storage[3].pv_move, pv);
    assert_eq!(search.board, b);
}

#[test]
fn a_leaf_scores_the_same_in_any_window() {
    for b in positions() {
        for (alpha, beta) in [(-100_000, 100_000), (500, 600), (-600, -500), (0, 1), (3, 2)] {
            for depth in [0u8, 4] {
                if depth > 0 && !b.game_over() {
                    continue;
                }
                let mut search = search_on(b);
                let other = board("7/7/7/2x1o2/7/7/7 x 0 1");
                let m = generate_moves(&other)[0];
                search.table.store(&other, Entry::new(other.hash(), m, 5, 1, NodeType::Exact));
                let score = search.visit(false, &EndCondition::Infinite, true, alpha, beta, depth);
                assert_eq!(score, leaf(&b));
                assert_eq!(search.search_info.nodes, 0);
                assert_eq!(search.search_info.tt_hits, 0);
                assert_eq!(search.search_info.cutoffs, 0);
                assert!(!search.search_info.aborted);
                assert_eq!(search.table.probe(&b).is_some(), b.hash() == other.hash());
                assert!(search.table.probe(&other).is_some());
                assert!(search.stack_storage.iter().all(|d| d.pv_move.is_none()));
                assert_eq!(search.negamax(&EndCondition::Infinite, alpha, beta, depth), score);
            }
        }
    }
}

#[test]
fn a_visit_tries_and_counts_a_move() {
    let b = board("x5o/7/7/7/7/7/o5x x 0 1");
    let mut search = search_on(b);
    let score = search.visit(false, &EndCondition::Nodes(0), true, -100_000, 100_000, 2);
    // every position below was halted by the spent budget and counts 0
    assert_eq!(score, 0);
    assert!(search.search_info.aborted);
    assert_eq!(search.search_info.nodes, 16);
    let entry = search.table.probe(&b).unwrap();
    assert_eq!(Some(entry.hash_move), search.stack_storage[2].pv_move);
    assert!(generate_moves(&b).contains(&entry.hash_move));
}

#[test]
fn a_deadline_is_a_time_limit() {
    let now = std::time::Instant::now();
    match EndCondition::until(Some(now)) {
        EndCondition::Time(t) => assert_eq!(t, now),
        _ => panic!("not a time limit"),
    }
    assert!(matches!(EndCondition::until(None), EndCondition::Infinite));
}

#[test]
fn an_entry_of_another_position_gives_no_move_to_try_first() {
    // two positions that share a slot of a table of 18 slots
    let a = board("7/7/7/7/7/7/xo5 x 0 1");
    let b = board("7/7/7/7/7/7/o1x1o2 x 0 1");
    let mut search = Search::with_table(shared(), 18);
    search.set_position_direct(&b);
    let plain_order = MovePicker::new(generate_moves(&b), None, None).sort();
    // a move that is legal on `b`, recorded for `a`
    let m = *plain_order.last().unwrap();
    search.table.store(&a, Entry::new(a.hash(), m, 1, 1, NodeType::Exact));
    assert!(search.table.index(&b).is_some());
    let (order, hit) = search.candidates(2);
    assert!(!hit);
    assert_eq!(order, plain_order);
    search.negamax(&EndCondition::Infinite, -100_000, 100_000, 1);
    assert_eq!(search.search_info.tt_hits, 0);
    assert_eq!(search.table.probe(&b).unwrap().hash, b.hash());
    // recorded for `b` itself it is tried first, and the hit is counted
    search.setup_newgame();
    search.search_info.reset();
    search.table.store(&b, Entry::new(b.hash(), m, 1, 1, NodeType::Exact));
    let (order, hit) = search.candidates(2);
    assert!(hit);
    assert_eq!(order[0], m);
    search.negamax(&EndCondition::Infinite, -100_000, 100_000, 1);
    assert_eq!(search.search_info.tt_hits, 1);
}
