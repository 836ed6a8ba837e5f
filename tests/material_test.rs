use std::str::FromStr;

use chess::Board;
use tungsten::board::PieceKind;
use tungsten::material::{get_material, get_material_score, get_piece_worth};
use tungsten::Evaluator;

#[test]
fn material_eq() {
    let board = Board::from_str("3r2k1/2q5/8/8/1K5Q/8/8/1R6 w - - 0 1").expect("We should have a board");
    let evaluator = Evaluator::new(board);
    assert_eq!(evaluator.evaluate(), 0, "These should be equal")
}

#[test]
fn material_diff() {
    let board = Board::from_str("3r2k1/2q5/8/8/1K6/8/8/1R6 w - - 0 1").expect("We should have a board");
    let evaluator = Evaluator::new(board);
    assert_ne!(evaluator.evaluate(), 0, "These should be different");
    assert_eq!(evaluator.evaluate() as f64 / 100.0, -9.0, "These should be different");
}

#[test]
fn piece_worths() {
    assert_eq!(get_piece_worth(&PieceKind::Pawn), 100);
    assert_eq!(get_piece_worth(&PieceKind::Knight), 300);
    assert_eq!(get_piece_worth(&PieceKind::Bishop), 350);
    assert_eq!(get_piece_worth(&PieceKind::Rook), 500);
    assert_eq!(get_piece_worth(&PieceKind::Queen), 900);
    assert_eq!(get_piece_worth(&PieceKind::King), 0);
}

#[test]
fn starting_position_is_balanced() {
    let board = Board::default();
    assert_eq!(get_material(&board), (4000, 4000));
    assert_eq!(get_material_score(&board), 0);
    assert_eq!(Evaluator::new(board).evaluate(), 0);
}

#[test]
fn extra_bishop_for_white() {
    let board = Board::from_str("4k3/8/8/8/8/8/8/3BK3 w - - 0 1").unwrap();
    assert_eq!(get_material(&board), (350, 0));
    assert_eq!(Evaluator::new(board).evaluate(), 350);
}

#[test]
fn extra_rook_and_pawn_for_black() {
    let board = Board::from_str("r3k3/p7/8/8/8/8/8/4K3 b - - 0 1").unwrap();
    assert_eq!(get_material(&board), (0, 600));
    assert_eq!(Evaluator::new(board).evaluate(), -600);
}
