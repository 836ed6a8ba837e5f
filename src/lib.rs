//! Depth-limited alpha-beta search, material evaluation and algebraic move
//! notation for chess positions supplied by the `chess` crate.

pub mod board;
pub mod cli;
pub mod material;
pub mod search;
pub mod pgn;

use vstd::prelude::*;
use crate::board::Side;
use crate::material::{MAX_PIECE_WORTH, QUEEN_WORTH, get_material_score, material_balance, material_of};

verus! {

/// A score in centipawns; positive favours white.
pub type Score = i64;

pub const SCORE_DRAW: Score = 0;
/// White has a forced win: above every evaluation.
pub const SCORE_WHITE_WIN: Score = i64::MAX;
/// Black has a forced win: below every evaluation.
pub const SCORE_BLACK_WIN: Score = i64::MIN;

pub const MATERIAL_WEIGHT: Score = 1;

/// The static score of a position: the weighted sum of its feature terms.
pub open spec fn evaluation_of(b: chess::Board) -> int {
    MATERIAL_WEIGHT * material_balance(b)
}

/// The range of every static score, strictly inside the two forced-win scores.
pub open spec fn is_finite_score(s: int) -> bool {
    -MAX_PIECE_WORTH * 64 <= s <= MAX_PIECE_WORTH * 64
}

/// Scores a position without looking ahead.
pub struct Evaluator {
    pub board: chess::Board,
}

impl Evaluator {
    pub fn new(board: chess::Board) -> (r: Self)
        ensures
            r.board == board,
    {
        Self { board }
    }

    /// Returns the score of the position; a positive score means white is ahead.
    pub fn evaluate(&self) -> (r: Score)
        ensures
            r == evaluation_of(self.board),
            is_finite_score(r as int),
            SCORE_BLACK_WIN < r < SCORE_WHITE_WIN,
    {
        let mut score: Score = 0;
        score = score + MATERIAL_WEIGHT * get_material_score(&self.board);
        score
    }
}

/// A position whose two sides have equal material scores zero.
pub proof fn lemma_balanced_material_scores_zero(b: chess::Board)
    requires
        material_of(b, Side::White) == material_of(b, Side::Black),
    ensures
        evaluation_of(b) == 0,
{
}

/// A position where white has a queen's worth less material than black scores
/// minus a queen.
pub proof fn lemma_missing_queen_scores_minus_queen(b: chess::Board)
    requires
        material_of(b, Side::White) + QUEEN_WORTH == material_of(b, Side::Black),
    ensures
        evaluation_of(b) == -QUEEN_WORTH,
{
}

} // verus!
