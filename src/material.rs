//! Material count: the weighted sum of the pieces of each side.

use vstd::prelude::*;
use crate::board::{PieceKind, Side, color_on, color_on_of, piece_on, piece_on_of};

verus! {

/// Piece weights in centipawns.
pub const PAWN_WORTH: i64 = 100;
pub const KNIGHT_WORTH: i64 = 300;
pub const BISHOP_WORTH: i64 = 350;
pub const ROOK_WORTH: i64 = 500;
pub const QUEEN_WORTH: i64 = 900;

/// The heaviest weight a single piece carries.
pub const MAX_PIECE_WORTH: i64 = 900;

/// White's and black's material, in that order.
pub type MaterialResult = (i64, i64);

pub open spec fn worth(k: PieceKind) -> int {
    match k {
        PieceKind::Pawn => PAWN_WORTH as int,
        PieceKind::Knight => KNIGHT_WORTH as int,
        PieceKind::Bishop => BISHOP_WORTH as int,
        PieceKind::Rook => ROOK_WORTH as int,
        PieceKind::Queen => QUEEN_WORTH as int,
        PieceKind::King => 0,
    }
}

/// What the piece on `sq` adds to the material of `side`.
pub open spec fn square_worth(b: chess::Board, side: Side, sq: u8) -> int {
    match (piece_on_of(b, sq), color_on_of(b, sq)) {
        (Some(k), Some(c)) => if c == side { worth(k) } else { 0 },
        _ => 0,
    }
}

/// The material of `side` on the squares numbered below `n`.
pub open spec fn side_material(b: chess::Board, side: Side, n: nat) -> int
    decreases n,
{
    if n == 0 {
        0
    } else {
        side_material(b, side, (n - 1) as nat) + square_worth(b, side, (n - 1) as u8)
    }
}

/// The material of `side` on the whole board.
pub open spec fn material_of(b: chess::Board, side: Side) -> int {
    side_material(b, side, 64)
}

/// White's material minus black's.
pub open spec fn material_balance(b: chess::Board) -> int {
    material_of(b, Side::White) - material_of(b, Side::Black)
}

pub proof fn lemma_side_material_bounds(b: chess::Board, side: Side, n: nat)
    ensures
        0 <= side_material(b, side, n) <= MAX_PIECE_WORTH * n,
    decreases n,
{
    if n > 0 {
        lemma_side_material_bounds(b, side, (n - 1) as nat);
    }
}

pub fn get_piece_worth(piece: &PieceKind) -> (r: i64)
    ensures
        r == worth(*piece),
        0 <= r <= MAX_PIECE_WORTH,
{
    match piece {
        PieceKind::Pawn => PAWN_WORTH,
        PieceKind::Knight => KNIGHT_WORTH,
        PieceKind::Bishop => BISHOP_WORTH,
        PieceKind::Rook => ROOK_WORTH,
        PieceKind::Queen => QUEEN_WORTH,
        PieceKind::King => 0,
    }
}

/// Scans every square and adds the weight of each piece to its side's sum.
pub fn get_material(board: &chess::Board) -> (r: MaterialResult)
    ensures
        r.0 == material_of(*board, Side::White),
        r.1 == material_of(*board, Side::Black),
{
    let mut w: i64 = 0;
    let mut b: i64 = 0;
    let mut square: u8 = 0;
    while square < 64
        invariant
            square <= 64,
            w == side_material(*board, Side::White, square as nat),
            b == side_material(*board, Side::Black, square as nat),
        decreases 64 - square,
    {
        proof {
            lemma_side_material_bounds(*board, Side::White, square as nat);
            lemma_side_material_bounds(*board, Side::Black, square as nat);
        }
        if let Some(piece) = piece_on(board, square) {
            let worth = get_piece_worth(&piece);
            if let Some(c) = color_on(board, square) {
                if c == Side::White {
                    w = w + worth;
                } else {
                    b = b + worth;
                }
            }
        }
        square = square + 1;
    }
    (w, b)
}

/// White's material minus black's.
pub fn get_material_score(board: &chess::Board) -> (r: i64)
    ensures
        r == material_balance(*board),
        -MAX_PIECE_WORTH * 64 <= r <= MAX_PIECE_WORTH * 64,
{
    proof {
        lemma_side_material_bounds(*board, Side::White, 64);
        lemma_side_material_bounds(*board, Side::Black, 64);
    }
    let (w, b) = get_material(board);
    w - b
}

} // verus!
