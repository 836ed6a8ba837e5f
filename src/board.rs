//! Plain values for squares, pieces and moves, and the rules engine of the
//! `chess` crate seen through trusted items.

use vstd::prelude::*;

verus! {

#[verifier::external_type_specification]
#[verifier::external_body]
pub struct ExBoard(chess::Board);

/// The six kinds of chess pieces.
#[derive(Clone, Copy, Debug, PartialEq, Eq, Structural)]
pub enum PieceKind {
    Pawn,
    Knight,
    Bishop,
    Rook,
    Queen,
    King,
}

/// The two sides.
#[derive(Clone, Copy, Debug, PartialEq, Eq, Structural)]
pub enum Side {
    White,
    Black,
}

/// What the rules engine reports about a position.
#[derive(Clone, Copy, Debug, PartialEq, Eq, Structural)]
pub enum GameStatus {
    Ongoing,
    Stalemate,
    Checkmate,
}

/// A move from `source` to `dest`, squares numbered 0 (a1) to 63 (h8) rank by
/// rank, with an optional promotion piece.
#[derive(Clone, Copy, Debug, PartialEq, Eq, Structural)]
pub struct Move {
    pub source: u8,
    pub dest: u8,
    pub promotion: Option<PieceKind>,
}

impl PieceKind {
    /// Position in the order pawn, knight, bishop, rook, queen, king.
    pub open spec fn spec_index(self) -> usize {
        match self {
            PieceKind::Pawn => 0,
            PieceKind::Knight => 1,
            PieceKind::Bishop => 2,
            PieceKind::Rook => 3,
            PieceKind::Queen => 4,
            PieceKind::King => 5,
        }
    }

    pub fn index(&self) -> (r: usize)
        ensures
            r == self.spec_index(),
    {
        match self {
            PieceKind::Pawn => 0,
            PieceKind::Knight => 1,
            PieceKind::Bishop => 2,
            PieceKind::Rook => 3,
            PieceKind::Queen => 4,
            PieceKind::King => 5,
        }
    }

    /// The kind at position `i` of the order pawn, knight, bishop, rook,
    /// queen, king; indices past the end give the king.
    pub fn from_index(i: usize) -> (r: PieceKind)
        ensures
            i < 6 ==> r.spec_index() == i,
    {
        if i == 0 {
            PieceKind::Pawn
        } else if i == 1 {
            PieceKind::Knight
        } else if i == 2 {
            PieceKind::Bishop
        } else if i == 3 {
            PieceKind::Rook
        } else if i == 4 {
            PieceKind::Queen
        } else {
            PieceKind::King
        }
    }
}

pub open spec fn valid_square(sq: u8) -> bool {
    sq < 64
}

pub open spec fn file_of(sq: u8) -> u8 {
    sq % 8
}

pub open spec fn rank_of(sq: u8) -> u8 {
    sq / 8
}

impl Move {
    pub open spec fn is_valid(&self) -> bool {
        valid_square(self.source) && valid_square(self.dest)
    }

    pub fn new(source: u8, dest: u8, promotion: Option<PieceKind>) -> (r: Move)
        ensures
            r == (Move { source, dest, promotion }),
    {
        Move { source, dest, promotion }
    }
}

/// The legal moves of a position, in the order the move generator yields them.
pub uninterp spec fn legal_moves_of(b: chess::Board) -> Seq<Move>;

/// The position reached by playing a move.
pub uninterp spec fn after_move(b: chess::Board, m: Move) -> chess::Board;

/// Whether the side to move is in check.
pub uninterp spec fn in_check_of(b: chess::Board) -> bool;

/// Whether white is to move.
pub uninterp spec fn white_to_move_of(b: chess::Board) -> bool;

/// The kind of piece on a square, if any.
pub uninterp spec fn piece_on_of(b: chess::Board, sq: u8) -> Option<PieceKind>;

/// The side of the piece on a square, if any.
pub uninterp spec fn color_on_of(b: chess::Board, sq: u8) -> Option<Side>;

pub open spec fn is_legal(b: chess::Board, m: Move) -> bool {
    legal_moves_of(b).contains(m)
}

pub open spec fn status_of(b: chess::Board) -> GameStatus {
    if legal_moves_of(b).len() == 0 {
        if in_check_of(b) {
            GameStatus::Checkmate
        } else {
            GameStatus::Stalemate
        }
    } else {
        GameStatus::Ongoing
    }
}

/// Relies on chess::MoveGen::new_legal: the legal moves of the position, each
/// between two squares of the board and starting from an occupied square.
#[verifier::external_body]
pub(crate) fn legal_moves(b: &chess::Board) -> (r: Vec<Move>)
    ensures
        r@ == legal_moves_of(*b),
        forall|i: int|
            0 <= i < r@.len() ==> #[trigger] r@[i].is_valid() && piece_on_of(*b, r@[i].source).is_some(),
{
    chess::MoveGen::new_legal(b).map(|m| Move::new(
        m.get_source().to_int(),
        m.get_dest().to_int(),
        m.get_promotion().map(|p| PieceKind::from_index(p.to_index())),
    )).collect()
}

/// Relies on chess::Board::make_move_new: the position after a legal move.
#[verifier::external_body]
pub(crate) fn apply_move(b: &chess::Board, m: Move) -> (r: chess::Board)
    requires
        is_legal(*b, m),
    ensures
        r == after_move(*b, m),
{
    let promotion = m.promotion.map(|p| chess::ALL_PIECES[p.index()]);
    let sq = chess::ALL_SQUARES;
    b.make_move_new(chess::ChessMove::new(sq[m.source as usize], sq[m.dest as usize], promotion))
}

/// Relies on chess::Board::checkers: whether some piece gives check.
#[verifier::external_body]
pub(crate) fn in_check(b: &chess::Board) -> (r: bool)
    ensures
        r == in_check_of(*b),
{
    *b.checkers() != chess::EMPTY
}

/// Relies on chess::Board::side_to_move.
#[verifier::external_body]
pub(crate) fn white_to_move(b: &chess::Board) -> (r: bool)
    ensures
        r == white_to_move_of(*b),
{
    b.side_to_move() == chess::Color::White
}

/// Relies on chess::Board::piece_on.
#[verifier::external_body]
pub(crate) fn piece_on(b: &chess::Board, sq: u8) -> (r: Option<PieceKind>)
    requires
        valid_square(sq),
    ensures
        r == piece_on_of(*b, sq),
{
    b.piece_on(chess::ALL_SQUARES[sq as usize]).map(|p| PieceKind::from_index(p.to_index()))
}

/// Relies on chess::Board::color_on.
#[verifier::external_body]
pub(crate) fn color_on(b: &chess::Board, sq: u8) -> (r: Option<Side>)
    requires
        valid_square(sq),
    ensures
        r == color_on_of(*b, sq),
{
    match b.color_on(chess::ALL_SQUARES[sq as usize]) {
        Some(chess::Color::White) => Some(Side::White),
        Some(chess::Color::Black) => Some(Side::Black),
        None => None,
    }
}

/// Relies on chess::Board::status: checkmate or stalemate exactly when there
/// is no legal move, told apart by whether the side to move is in check.
#[verifier::external_body]
pub(crate) fn status(b: &chess::Board) -> (r: GameStatus)
    ensures
        r == status_of(*b),
{
    match b.status() {
        chess::BoardStatus::Ongoing => GameStatus::Ongoing,
        chess::BoardStatus::Stalemate => GameStatus::Stalemate,
        chess::BoardStatus::Checkmate => GameStatus::Checkmate,
    }
}

} // verus!
