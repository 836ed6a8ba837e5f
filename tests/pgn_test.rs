use std::str::FromStr;

use chess::{Board, Square};
use tungsten::board::{Move, PieceKind};
use tungsten::pgn::{to_algebraic, to_pgn, NotationError};

fn mv(source: Square, dest: Square) -> Move {
    Move::new(source.to_int(), dest.to_int(), None)
}

fn san(fen: &str, m: Move) -> String {
    let board = Board::from_str(fen).unwrap();
    to_algebraic(&board, &m).unwrap()
}

#[test]
fn pawn_push() {
    assert_eq!(san("rnbqkbnr/pppppppp/8/8/8/8/PPPPPPPP/RNBQKBNR w KQkq - 0 1", mv(Square::E2, Square::E4)), "e4");
}

#[test]
fn knight_move() {
    assert_eq!(san("rnbqkbnr/pppppppp/8/8/8/8/PPPPPPPP/RNBQKBNR w KQkq - 0 1", mv(Square::G1, Square::F3)), "Nf3");
}

#[test]
fn rooks_on_one_rank_take_the_file() {
    assert_eq!(san("1k6/8/8/8/8/8/8/R4R1K w - - 0 1", mv(Square::A1, Square::C1)), "Rac1");
}

#[test]
fn rooks_on_one_file_take_the_rank() {
    assert_eq!(san("7k/8/8/R7/8/8/8/R6K w - - 0 1", mv(Square::A1, Square::A3)), "R1a3");
}

#[test]
fn knights_apart_take_the_file() {
    assert_eq!(san("7k/8/8/8/8/8/8/1N3N1K w - - 0 1", mv(Square::B1, Square::D2)), "Nbd2");
}

#[test]
fn lone_piece_has_no_disambiguation() {
    assert_eq!(san("7k/8/8/8/8/8/8/1N5K w - - 0 1", mv(Square::B1, Square::D2)), "Nd2");
}

#[test]
fn pawn_capture_names_its_file() {
    assert_eq!(san("4k3/8/8/3p4/4P3/8/8/4K3 w - - 0 1", mv(Square::E4, Square::D5)), "exd5");
}

#[test]
fn en_passant_is_a_capture() {
    assert_eq!(san("4k3/8/8/3pP3/8/8/8/4K3 w - d6 0 1", mv(Square::E5, Square::D6)), "exd6");
}

#[test]
fn piece_capture() {
    assert_eq!(san("4k3/8/8/3q4/8/8/8/3RK3 w - - 0 1", mv(Square::D1, Square::D5)), "Rxd5");
}

#[test]
fn promotion_names_the_piece() {
    let m = Move::new(Square::A7.to_int(), Square::A8.to_int(), Some(PieceKind::Queen));
    assert_eq!(san("8/P6k/8/8/8/8/8/K7 w - - 0 1", m), "a8=Q");
}

#[test]
fn castling_both_ways() {
    let fen = "r3k2r/8/8/8/8/8/8/R3K2R w KQkq - 0 1";
    assert_eq!(san(fen, mv(Square::E1, Square::G1)), "O-O");
    assert_eq!(san(fen, mv(Square::E1, Square::C1)), "O-O-O");
}

#[test]
fn mate_and_check_suffixes() {
    assert_eq!(san("3k4/Q7/3K4/8/8/8/8/8 w - - 0 1", mv(Square::A7, Square::D7)), "Qd7#");
    assert_eq!(san("3k4/R6R/8/5n2/8/8/8/7K b - - 0 1", mv(Square::F5, Square::G3)), "Ng3+");
}

#[test]
fn opening_movetext() {
    let board = Board::default();
    let moves = vec![
        mv(Square::E2, Square::E4),
        mv(Square::E7, Square::E5),
        mv(Square::G1, Square::F3),
        mv(Square::B8, Square::C6),
        mv(Square::F1, Square::C4),
        mv(Square::G8, Square::F6),
        mv(Square::E1, Square::G1),
    ];
    assert_eq!(to_pgn(&board, &moves).unwrap(), "1. e4 e5\n2. Nf3 Nc6\n3. Bc4 Nf6\n4. O-O");
}

#[test]
fn movetext_is_the_same_twice() {
    let board = Board::default();
    let moves = vec![mv(Square::D2, Square::D4), mv(Square::D7, Square::D5), mv(Square::C2, Square::C4)];
    let first = to_pgn(&board, &moves).unwrap();
    let second = to_pgn(&board, &moves).unwrap();
    assert_eq!(first, second);
    assert_eq!(first, "1. d4 d5\n2. c4");
}

#[test]
fn empty_movetext() {
    assert_eq!(to_pgn(&Board::default(), &vec![]).unwrap(), "");
}

#[test]
fn movetext_numbers_past_nine() {
    let board = Board::default();
    let shuffle = [
        (Square::G1, Square::F3), (Square::G8, Square::F6),
        (Square::F3, Square::G1), (Square::F6, Square::G8),
    ];
    let mut moves = Vec::new();
    for _ in 0..5 {
        for (s, d) in shuffle.iter() {
            moves.push(mv(*s, *d));
        }
    }
    let text = to_pgn(&board, &moves).unwrap();
    assert!(text.ends_with("\n9. Nf3 Nf6\n10. Ng1 Ng8"), "{}", text);
}

#[test]
fn black_first_movetext() {
    let board = Board::from_str("3k4/R6R/8/5n2/8/8/8/7K b - - 0 1").unwrap();
    assert_eq!(to_pgn(&board, &vec![mv(Square::F5, Square::G3)]).unwrap(), "1. Ng3+");
}

#[test]
fn empty_source_square_is_reported() {
    let board = Board::default();
    let result = to_algebraic(&board, &mv(Square::E4, Square::E5));
    assert_eq!(result, Err(NotationError::SourcePieceMissing));
}

#[test]
fn black_first_line_break_follows_black_move() {
    let board = Board::from_str("3k4/R6R/8/5n2/8/8/8/7K b - - 0 1").unwrap();
    let moves = vec![mv(Square::F5, Square::G3), mv(Square::H1, Square::G1), mv(Square::G3, Square::F5)];
    assert_eq!(to_pgn(&board, &moves).unwrap(), "1. Ng3+\nKg1 2. Nf5");
}
