use std::sync::{Arc, Mutex};

use sea_baxx::board::{Board, Side};
use sea_baxx::handles::Shared;
use sea_baxx::movegen::generate_moves;
use sea_baxx::move_app::make_move;
use sea_baxx::protocol::{find_text, split_fields};
use sea_baxx::search::{GoInfo, Search};

fn search() -> Search {
    Search::with_table(Arc::new(Mutex::new(Shared { stop: false })), 101)
}

fn chars(s: &str) -> Vec<char> {
    s.chars().collect()
}

#[test]
fn fields_of_a_text() {
    let fields: Vec<String> = split_fields(&chars("go  depth 5 "))
        .iter()
        .map(|f| f.iter().collect())
        .collect();
    assert_eq!(fields, vec!["go", "", "depth", "5", ""]);
    assert_eq!(split_fields(&chars("")), vec![Vec::<char>::new()]);
}

#[test]
fn first_place_of_a_text() {
    assert_eq!(find_text(&chars("position fen x moves"), &chars("fen")), Some(9));
    assert_eq!(find_text(&chars("aaab"), &chars("ab")), Some(2));
    assert_eq!(find_text(&chars("abab"), &chars("ab")), Some(0));
    assert_eq!(find_text(&chars("abab"), &chars("ba")), Some(1));
    assert_eq!(find_text(&chars("abab"), &chars("bb")), None);
    assert_eq!(find_text(&chars("ab"), &chars("abc")), None);
    assert_eq!(find_text(&chars("ab"), &chars("")), Some(0));
}

#[test]
fn limits_of_a_go_request() {
    let info = GoInfo::new(" wtime 1000 btime 2000 winc 10 binc 20 movestogo 30".to_string());
    assert_eq!(info.wtime, Some(1000));
    assert_eq!(info.btime, Some(2000));
    assert_eq!(info.winc, Some(10));
    assert_eq!(info.binc, Some(20));
    assert_eq!(info.moves_to_go, Some(30));
    assert_eq!(info.depth, None);
    assert_eq!(info.nodes, None);
    assert_eq!(info.mate, None);
    assert_eq!(info.movetime, None);
    assert!(!info.infinite);
    let info = GoInfo::new(" depth 6 nodes 4294967295 mate 2 movetime 100 infinite".to_string());
    assert_eq!(info.depth, Some(6));
    assert_eq!(info.nodes, Some(4294967295));
    assert_eq!(info.mate, Some(2));
    assert_eq!(info.movetime, Some(100));
    assert!(info.infinite);
    let info = GoInfo::new("".to_string());
    assert_eq!(info.depth, None);
    assert!(!info.infinite);
    // the first of two equal keywords counts
    assert_eq!(GoInfo::new("depth 3 depth 4".to_string()).depth, Some(3));
}

#[test]
fn a_keyword_without_its_number_is_refused() {
    assert!(GoInfo::parse("depth").is_none());
    assert!(GoInfo::parse("depth six").is_none());
    assert!(GoInfo::parse("depth  6").is_none());
    assert!(GoInfo::parse("nodes 4294967296").is_none());
    assert!(GoInfo::parse("wtime -5").is_none());
    assert!(GoInfo::parse("depth 6 movetime").is_none());
    assert!(GoInfo::parse("depth 6").is_some());
    assert!(GoInfo::parse("ponder").is_some());
}

#[test]
fn the_start_position_is_set_up() {
    let mut s = search();
    s.set_position("fen 7/7/7/2x1o2/7/7/7 o 0 1".to_string());
    assert_eq!(s.board, Board::new("7/7/7/2x1o2/7/7/7 o 0 1".to_string()));
    assert_eq!(s.my_side, Side::White);
    s.set_position("startpos".to_string());
    assert_eq!(s.board, Board::startpos());
    assert_eq!(s.my_side, Side::Black);
}

#[test]
fn the_moves_of_a_request_are_played() {
    let mut s = search();
    s.set_position("startpos moves f1 a1c3 g1e3".to_string());
    let mut expected = Board::startpos();
    for text in ["f1", "a1c3", "g1e3"] {
        let m = generate_moves(&expected)
            .into_iter()
            .find(|m| m.to_string() == text)
            .unwrap();
        make_move(&mut expected, &m);
    }
    assert_eq!(s.board, expected);
    assert_eq!(s.my_side, Side::White);
    assert_eq!(s.board.full_move, 2);

    let mut s = search();
    s.set_position("fen 7/7/7/2x1o2/7/7/7 x 0 1 moves d4".to_string());
    assert_eq!(s.board.boards[1], 0);
    assert_eq!(s.board.boards[0].count_ones(), 3);
    assert_eq!(s.board.half_move, 0);

    // a pass where the side to move has no other move
    let mut s = search();
    s.set_position("fen 6o/7/7/7/---4/---4/x--4 x 0 1 moves 0000 g7g5".to_string());
    assert_eq!(s.board.side_to_move, Side::Black);
    assert_eq!(s.board.boards[1].count_ones(), 1);
    assert_eq!(s.board.half_move, 2);
}

#[test]
fn a_request_that_sets_up_nothing_changes_nothing() {
    let mut s = search();
    let before = s.board;
    // neither a start position nor a board
    assert!(!s.try_set_position("moves f1"));
    assert!(!s.try_set_position(""));
    // a board that is malformed
    assert!(!s.try_set_position("fen 7/7/7/2x1o2/7/7 x 0 1"));
    // a move that is not legal
    assert!(!s.try_set_position("startpos moves a1"));
    assert!(!s.try_set_position("startpos moves f1 f1"));
    assert!(!s.try_set_position("startpos moves 0000"));
    assert!(!s.try_set_position("startpos moves g1d1"));
    // a move that is no move
    assert!(!s.try_set_position("startpos moves castle"));
    // `moves` before `fen`
    assert!(!s.try_set_position("moves fen 7/7/7/2x1o2/7/7/7 x 0 1"));
    assert_eq!(s.board, before);
    assert_eq!(s.my_side, Side::Black);
    assert!(s.try_set_position("startpos moves f1"));
    assert!(s.try_set_position("startpos moves"));
    assert_eq!(s.board, before);
}
