use std::str::FromStr;

use chess::{Board, Square};
use tungsten::board::Move;
use tungsten::search::Search;
use tungsten::{SCORE_BLACK_WIN, SCORE_WHITE_WIN};

fn mv(source: Square, dest: Square) -> Move {
    Move::new(source.to_int(), dest.to_int(), None)
}

#[test]
fn draw_kings() {
    let board = Board::from_str("3k4/8/8/8/8/8/8/3K4 w - - 0 1").expect("We should have a board");
    let searcher = Search::new(&board);
    let (score, _) = searcher.alpha_beta(1);
    assert_eq!(score, 0, "This should be a draw")
}

#[test]
fn white_mate_one() {
    let board = Board::from_str("3k4/Q7/3K4/8/8/8/8/8 w - - 0 1").expect("We should have a board");
    let searcher = Search::new(&board);
    let (score, best_move) = searcher.alpha_beta(1);
    assert!(score > 0, "White should be winning");
    assert_eq!(best_move, Some(mv(Square::A7, Square::D7)));
}

#[test]
fn black_prevent_extend_mate() {
    let board = Board::from_str("3k4/R6R/8/5n2/8/8/8/7K b - - 0 1").expect("We should have a board");
    let searcher = Search::new(&board);
    let (score, best_move) = searcher.alpha_beta(2);
    assert!(score > 0, "White should be winning");
    assert_eq!(best_move, Some(mv(Square::F5, Square::G3)), "Best move should be to extend checkmate");
}

#[test]
fn white_mate_one_scores_forced_win() {
    let board = Board::from_str("3k4/Q7/3K4/8/8/8/8/8 w - - 0 1").unwrap();
    assert_eq!(Search::new(&board).alpha_beta(1).0, SCORE_WHITE_WIN);
}

#[test]
fn checkmated_root_has_no_move() {
    let board = Board::from_str("3k4/3Q4/3K4/8/8/8/8/8 b - - 0 1").unwrap();
    assert_eq!(Search::new(&board).alpha_beta(3), (SCORE_WHITE_WIN, None));
}

#[test]
fn black_mates_in_one() {
    let board = Board::from_str("8/8/8/8/8/3k4/q7/3K4 b - - 0 1").unwrap();
    let (score, best_move) = Search::new(&board).alpha_beta(1);
    assert_eq!(score, SCORE_BLACK_WIN);
    assert!(best_move.is_some());
}

#[test]
fn stalemated_root_is_a_draw() {
    let board = Board::from_str("7k/5Q2/6K1/8/8/8/8/8 b - - 0 1").unwrap();
    assert_eq!(Search::new(&board).alpha_beta(2), (0, None));
}

#[test]
fn depth_zero_returns_evaluation() {
    let board = Board::from_str("4k3/8/8/8/8/8/8/3BK3 w - - 0 1").unwrap();
    assert_eq!(Search::new(&board).alpha_beta(0), (350, None));
}

#[test]
fn one_ply_picks_free_queen() {
    let board = Board::from_str("4k3/8/8/3q4/8/8/8/3RK3 w - - 0 1").unwrap();
    let (score, best_move) = Search::new(&board).alpha_beta(1);
    assert_eq!(score, 500);
    assert_eq!(best_move, Some(mv(Square::D1, Square::D5)));
}
