//! Standard algebraic notation for moves and the numbered movetext of a game.

use vstd::prelude::*;
use vstd::string::StringExecFns;
use crate::board::{
    GameStatus, Move, PieceKind, after_move, apply_move, file_of, in_check, in_check_of,
    is_legal, legal_moves, legal_moves_of, piece_on, piece_on_of, rank_of, status, status_of,
    white_to_move, white_to_move_of,
};

verus! {

/// Why a move could not be written down.
#[derive(Clone, Copy, Debug, PartialEq, Eq, Structural)]
pub enum NotationError {
    /// The move's source square is empty in the position it is played from.
    SourcePieceMissing,
}

pub open spec fn file_char(file: u8) -> char {
    if file == 0 { 'a' }
    else if file == 1 { 'b' }
    else if file == 2 { 'c' }
    else if file == 3 { 'd' }
    else if file == 4 { 'e' }
    else if file == 5 { 'f' }
    else if file == 6 { 'g' }
    else { 'h' }
}

pub open spec fn digit_char(d: nat) -> char {
    if d == 0 { '0' }
    else if d == 1 { '1' }
    else if d == 2 { '2' }
    else if d == 3 { '3' }
    else if d == 4 { '4' }
    else if d == 5 { '5' }
    else if d == 6 { '6' }
    else if d == 7 { '7' }
    else if d == 8 { '8' }
    else { '9' }
}

/// The letter of a file, `a` to `h`.
pub open spec fn file_text(file: u8) -> Seq<char> {
    seq![file_char(file)]
}

/// The digit of a rank, `1` to `8`.
pub open spec fn rank_text(rank: u8) -> Seq<char> {
    seq![digit_char(rank as nat + 1)]
}

/// The coordinate of a square, such as `e4`.
pub open spec fn square_text(sq: u8) -> Seq<char> {
    file_text(file_of(sq)) + rank_text(rank_of(sq))
}

/// The decimal digits of a number.
pub open spec fn number_text(n: nat) -> Seq<char>
    decreases n,
{
    if n < 10 {
        seq![digit_char(n)]
    } else {
        number_text(n / 10) + seq![digit_char(n % 10)]
    }
}

/// The letter that names a piece in notation; pawns have none.
pub open spec fn piece_letter(k: PieceKind) -> Seq<char> {
    match k {
        PieceKind::Pawn => seq![],
        PieceKind::Knight => seq!['N'],
        PieceKind::Bishop => seq!['B'],
        PieceKind::Rook => seq!['R'],
        PieceKind::Queen => seq!['Q'],
        PieceKind::King => seq!['K'],
    }
}

/// Another legal move of a piece of the same kind to the same square.
pub open spec fn is_competitor(b: chess::Board, m: Move, c: Move) -> bool {
    &&& c.dest == m.dest
    &&& piece_on_of(b, c.source) == piece_on_of(b, m.source)
    &&& c.source != m.source
}

/// Some move among the first `n` of `moves` competes with `m`.
pub open spec fn any_competitor(b: chess::Board, m: Move, moves: Seq<Move>, n: int) -> bool {
    exists|k: int| 0 <= k < n && #[trigger] is_competitor(b, m, moves[k])
}

/// Some competitor among the first `n` starts on the file of `m`'s source.
pub open spec fn competitor_on_file(b: chess::Board, m: Move, moves: Seq<Move>, n: int) -> bool {
    exists|k: int|
        0 <= k < n && #[trigger] is_competitor(b, m, moves[k]) && file_of(moves[k].source)
            == file_of(m.source)
}

/// Some competitor among the first `n` starts on the rank of `m`'s source.
pub open spec fn competitor_on_rank(b: chess::Board, m: Move, moves: Seq<Move>, n: int) -> bool {
    exists|k: int|
        0 <= k < n && #[trigger] is_competitor(b, m, moves[k]) && rank_of(moves[k].source)
            == rank_of(m.source)
}

/// The file and rank text that tells `m` apart from its competitors: a rank
/// where a competitor shares the source file, a file where one shares the
/// source rank, and the file alone where neither holds.
pub open spec fn disambiguation(b: chess::Board, m: Move) -> Seq<char> {
    let moves = legal_moves_of(b);
    let n = moves.len() as int;
    if !any_competitor(b, m, moves, n) {
        seq![]
    } else {
        let rank_needed = competitor_on_file(b, m, moves, n);
        let file_needed = competitor_on_rank(b, m, moves, n) || !rank_needed;
        (if file_needed { file_text(file_of(m.source)) } else { seq![] })
            + (if rank_needed { rank_text(rank_of(m.source)) } else { seq![] })
    }
}

/// The move takes a piece: its target is occupied, or a pawn changes file.
pub open spec fn is_capture(b: chess::Board, m: Move) -> bool {
    piece_on_of(b, m.dest).is_some() || (piece_on_of(b, m.source) == Some(PieceKind::Pawn)
        && file_of(m.dest) != file_of(m.source))
}

/// The move is a castling: the king moves more than one file.
pub open spec fn is_castling(b: chess::Board, m: Move) -> bool {
    piece_on_of(b, m.source) == Some(PieceKind::King) && (file_of(m.source) > file_of(m.dest) + 1
        || file_of(m.dest) > file_of(m.source) + 1)
}

pub open spec fn promotion_text(p: Option<PieceKind>) -> Seq<char> {
    match p {
        Some(k) => seq!['='] + piece_letter(k),
        None => seq![],
    }
}

/// `#` for a mate, `+` for a check, nothing otherwise.
pub open spec fn check_suffix(after: chess::Board) -> Seq<char> {
    if status_of(after) == GameStatus::Checkmate {
        seq!['#']
    } else if status_of(after) == GameStatus::Ongoing && in_check_of(after) {
        seq!['+']
    } else {
        seq![]
    }
}

/// The algebraic notation of `m` played from `b`, whose source square holds
/// the piece `piece`.
pub open spec fn san_of(b: chess::Board, m: Move, piece: PieceKind) -> Seq<char> {
    if is_castling(b, m) {
        if file_of(m.dest) == 6 { seq!['O', '-', 'O'] } else { seq!['O', '-', 'O', '-', 'O'] }
    } else {
        piece_letter(piece)
            + (if piece != PieceKind::Pawn {
                disambiguation(b, m)
            } else if is_capture(b, m) {
                file_text(file_of(m.source))
            } else {
                seq![]
            })
            + (if is_capture(b, m) { seq!['x'] } else { seq![] })
            + square_text(m.dest)
            + promotion_text(m.promotion)
            + check_suffix(after_move(b, m))
    }
}

/// The position after the first `n` moves of `moves`.
pub open spec fn position_after(b: chess::Board, moves: Seq<Move>, n: nat) -> chess::Board
    decreases n,
{
    if n == 0 {
        b
    } else {
        after_move(position_after(b, moves, (n - 1) as nat), moves[n - 1])
    }
}

/// Each move joins two squares of the board and is legal in the position the
/// earlier ones lead to.
pub open spec fn is_legal_line(b: chess::Board, moves: Seq<Move>) -> bool {
    forall|i: int|
        0 <= i < moves.len() ==> #[trigger] is_legal(position_after(b, moves, i as nat), moves[i])
            && moves[i].is_valid()
}

/// Each move starts from an occupied square of the position it is played in.
pub open spec fn sources_occupied(b: chess::Board, moves: Seq<Move>, n: nat) -> bool {
    forall|i: int|
        0 <= i < n ==> (#[trigger] piece_on_of(position_after(b, moves, i as nat), moves[i].source)).is_some()
}

/// The text of move `i`: a move number before each white move, then its
/// notation.
pub open spec fn move_entry(b: chess::Board, moves: Seq<Move>, i: nat) -> Seq<char> {
    let pos = position_after(b, moves, i);
    let piece = piece_on_of(pos, moves[i as int].source).unwrap();
    (if i % 2 == 0 { number_text(i / 2 + 1) + seq!['.', ' '] } else { seq![] })
        + san_of(pos, moves[i as int], piece)
}

/// What follows move `i` when another comes after it: a space after a white
/// move, a line break after a black one.
pub open spec fn separator(b: chess::Board, moves: Seq<Move>, i: nat) -> Seq<char> {
    if white_to_move_of(position_after(b, moves, i)) { seq![' '] } else { seq!['\n'] }
}

/// The movetext of the first `n` moves, with no trailing whitespace.
pub open spec fn movetext(b: chess::Board, moves: Seq<Move>, n: nat) -> Seq<char>
    decreases n,
{
    if n == 0 {
        seq![]
    } else if n == 1 {
        move_entry(b, moves, 0)
    } else {
        movetext(b, moves, (n - 1) as nat) + separator(b, moves, (n - 2) as nat) + move_entry(
            b,
            moves,
            (n - 1) as nat,
        )
    }
}


/// Whether a square agrees with the file and rank that the disambiguation of
/// `m` writes down: the written file where one is written, the written rank
/// where one is written.
pub open spec fn fits_disambiguation(b: chess::Board, m: Move, sq: u8) -> bool {
    let moves = legal_moves_of(b);
    let n = moves.len() as int;
    let rank_needed = competitor_on_file(b, m, moves, n);
    let file_needed = competitor_on_rank(b, m, moves, n) || !rank_needed;
    &&& (file_needed ==> file_of(sq) == file_of(m.source))
    &&& (rank_needed ==> rank_of(sq) == rank_of(m.source))
}

/// When another legal move of the same kind of piece reaches the same square,
/// the notation of `m` carries a file or rank, that text fits `m`'s own
/// source square, and it does not fit the competitor's: reading the text back
/// names the right piece.
pub proof fn lemma_disambiguation_identifies_source(b: chess::Board, m: Move, c: Move)
    requires
        m.is_valid(),
        c.is_valid(),
        legal_moves_of(b).contains(c),
        is_competitor(b, m, c),
    ensures
        disambiguation(b, m).len() > 0,
        fits_disambiguation(b, m, m.source),
        !fits_disambiguation(b, m, c.source),
{
    let moves = legal_moves_of(b);
    let n = moves.len() as int;
    let k = choose|k: int| 0 <= k < moves.len() && moves[k] == c;
    assert(is_competitor(b, m, moves[k]));
    assert(any_competitor(b, m, moves, n));
    if file_of(c.source) == file_of(m.source) {
        assert(competitor_on_file(b, m, moves, n));
    }
    if rank_of(c.source) == rank_of(m.source) {
        assert(competitor_on_rank(b, m, moves, n));
    }
    assert(c.source == 8 * rank_of(c.source) + file_of(c.source));
    assert(m.source == 8 * rank_of(m.source) + file_of(m.source));
}

/// The shortest of the candidate texts (none, the file, the rank, both, in
/// that order) that no competitor of `m` fits.
pub open spec fn shortest_disambiguation(b: chess::Board, m: Move) -> Seq<char> {
    let moves = legal_moves_of(b);
    let n = moves.len() as int;
    if !any_competitor(b, m, moves, n) {
        seq![]
    } else if !competitor_on_file(b, m, moves, n) {
        file_text(file_of(m.source))
    } else if !competitor_on_rank(b, m, moves, n) {
        rank_text(rank_of(m.source))
    } else {
        file_text(file_of(m.source)) + rank_text(rank_of(m.source))
    }
}

/// The file-and-rank rule writes the shortest text that singles out the
/// move: nothing without competitors, else the file where it suffices, else
/// the rank where it suffices, else both.
pub proof fn lemma_disambiguation_is_shortest(b: chess::Board, m: Move)
    ensures
        disambiguation(b, m) == shortest_disambiguation(b, m),
{
    let moves = legal_moves_of(b);
    let n = moves.len() as int;
    if any_competitor(b, m, moves, n) && !competitor_on_file(b, m, moves, n) {
        assert(disambiguation(b, m) =~= file_text(file_of(m.source)));
    }
    if any_competitor(b, m, moves, n) && competitor_on_file(b, m, moves, n) && !competitor_on_rank(b, m, moves, n) {
        assert(disambiguation(b, m) =~= rank_text(rank_of(m.source)));
    }
}

/// A piece move with no competitor and no promotion is written as the piece
/// letter, an `x` for a capture, the target square and the check suffix.
pub proof fn lemma_lone_piece_notation(b: chess::Board, m: Move, piece: PieceKind)
    requires
        piece != PieceKind::Pawn,
        !is_castling(b, m),
        m.promotion is None,
        !any_competitor(b, m, legal_moves_of(b), legal_moves_of(b).len() as int),
    ensures
        san_of(b, m, piece) == piece_letter(piece) + (if is_capture(b, m) { seq!['x'] } else { seq![] })
            + square_text(m.dest) + check_suffix(after_move(b, m)),
{
    assert(disambiguation(b, m) =~= seq![]);
    assert(san_of(b, m, piece) =~= piece_letter(piece) + (if is_capture(b, m) { seq!['x'] } else { seq![] })
        + square_text(m.dest) + check_suffix(after_move(b, m)));
}

/// Movetext is a function of the starting position and the moves: two
/// renderings of the same line give the same text.
pub proof fn lemma_movetext_is_repeatable(b: chess::Board, moves: Seq<Move>, first: Seq<char>, second: Seq<char>)
    requires
        first == movetext(b, moves, moves.len()),
        second == movetext(b, moves, moves.len()),
    ensures
        first == second,
{
}

fn file_to_string(file: u8) -> (r: String)
    requires
        file < 8,
    ensures
        r@ == file_text(file),
{
        if file == 0 {
            proof { reveal_strlit("a"); }
            String::from_str("a")
        } else if file == 1 {
            proof { reveal_strlit("b"); }
            String::from_str("b")
        } else if file == 2 {
            proof { reveal_strlit("c"); }
            String::from_str("c")
        } else if file == 3 {
            proof { reveal_strlit("d"); }
            String::from_str("d")
        } else if file == 4 {
            proof { reveal_strlit("e"); }
            String::from_str("e")
        } else if file == 5 {
            proof { reveal_strlit("f"); }
            String::from_str("f")
        } else if file == 6 {
            proof { reveal_strlit("g"); }
            String::from_str("g")
        } else {
            proof { reveal_strlit("h"); }
            String::from_str("h")
        }
}

fn rank_to_string(rank: u8) -> (r: String)
    requires
        rank < 8,
    ensures
        r@ == rank_text(rank),
{
        if rank == 0 {
            proof { reveal_strlit("1"); }
            String::from_str("1")
        } else if rank == 1 {
            proof { reveal_strlit("2"); }
            String::from_str("2")
        } else if rank == 2 {
            proof { reveal_strlit("3"); }
            String::from_str("3")
        } else if rank == 3 {
            proof { reveal_strlit("4"); }
            String::from_str("4")
        } else if rank == 4 {
            proof { reveal_strlit("5"); }
            String::from_str("5")
        } else if rank == 5 {
            proof { reveal_strlit("6"); }
            String::from_str("6")
        } else if rank == 6 {
            proof { reveal_strlit("7"); }
            String::from_str("7")
        } else {
            proof { reveal_strlit("8"); }
            String::from_str("8")
        }
}

fn digit_to_string(d: usize) -> (r: String)
    requires
        d < 10,
    ensures
        r@ == seq![digit_char(d as nat)],
{
        if d == 0 {
            proof { reveal_strlit("0"); }
            String::from_str("0")
        } else if d == 1 {
            proof { reveal_strlit("1"); }
            String::from_str("1")
        } else if d == 2 {
            proof { reveal_strlit("2"); }
            String::from_str("2")
        } else if d == 3 {
            proof { reveal_strlit("3"); }
            String::from_str("3")
        } else if d == 4 {
            proof { reveal_strlit("4"); }
            String::from_str("4")
        } else if d == 5 {
            proof { reveal_strlit("5"); }
            String::from_str("5")
        } else if d == 6 {
            proof { reveal_strlit("6"); }
            String::from_str("6")
        } else if d == 7 {
            proof { reveal_strlit("7"); }
            String::from_str("7")
        } else if d == 8 {
            proof { reveal_strlit("8"); }
            String::from_str("8")
        } else {
            proof { reveal_strlit("9"); }
            String::from_str("9")
        }
}

fn piece_to_string(k: PieceKind) -> (r: String)
    ensures
        r@ == piece_letter(k),
{
    match k {
        PieceKind::Pawn => {
            proof { reveal_strlit(""); }
            String::from_str("")
        },
        PieceKind::Knight => {
            proof { reveal_strlit("N"); }
            String::from_str("N")
        },
        PieceKind::Bishop => {
            proof { reveal_strlit("B"); }
            String::from_str("B")
        },
        PieceKind::Rook => {
            proof { reveal_strlit("R"); }
            String::from_str("R")
        },
        PieceKind::Queen => {
            proof { reveal_strlit("Q"); }
            String::from_str("Q")
        },
        PieceKind::King => {
            proof { reveal_strlit("K"); }
            String::from_str("K")
        },
    }
}

/// Appends the decimal digits of `n`.
fn push_number(text: &mut String, n: usize)
    ensures
        final(text)@ == old(text)@ + number_text(n as nat),
    decreases n,
{
    if n >= 10 {
        push_number(text, n / 10);
    }
    let digit = digit_to_string(n % 10);
    text.append(digit.as_str());
    proof {
        if n >= 10 {
            assert(text@ =~= old(text)@ + number_text(n as nat));
        }
    }
}

/// Scans the legal moves for competitors of `mv`: whether there is one, one
/// on the source file, one on the source rank.
fn scan_competitors(board: &chess::Board, mv: &Move, source_piece: PieceKind) -> (r: (bool, bool, bool))
    requires
        mv.is_valid(),
        piece_on_of(*board, mv.source) == Some(source_piece),
    ensures
        r.0 == any_competitor(*board, *mv, legal_moves_of(*board), legal_moves_of(*board).len() as int),
        r.1 == competitor_on_file(*board, *mv, legal_moves_of(*board), legal_moves_of(*board).len() as int),
        r.2 == competitor_on_rank(*board, *mv, legal_moves_of(*board), legal_moves_of(*board).len() as int),
{
    let legal = legal_moves(board);
    let mut any = false;
    let mut same_file = false;
    let mut same_rank = false;
    let mut j: usize = 0;
    while j < legal.len()
        invariant
            mv.is_valid(),
            legal@ == legal_moves_of(*board),
            forall|i: int| 0 <= i < legal@.len() ==> #[trigger] legal@[i].is_valid(),
            piece_on_of(*board, mv.source) == Some(source_piece),
            j <= legal@.len(),
            any == any_competitor(*board, *mv, legal@, j as int),
            same_file == competitor_on_file(*board, *mv, legal@, j as int),
            same_rank == competitor_on_rank(*board, *mv, legal@, j as int),
        decreases legal.len() - j,
    {
        let m = legal[j];
        proof { assert(legal@[j as int].is_valid()); }
        let same_piece = match piece_on(board, m.source) {
            Some(k) => k == source_piece,
            None => false,
        };
        let ghost k = j as int;
        if m.dest == mv.dest && same_piece && m.source != mv.source {
            proof { assert(is_competitor(*board, *mv, legal@[k])); }
            any = true;
            if m.source % 8 == mv.source % 8 {
                same_file = true;
            }
            if m.source / 8 == mv.source / 8 {
                same_rank = true;
            }
        } else {
            proof { assert(!is_competitor(*board, *mv, legal@[k])); }
        }
        proof {
            let n = j as int + 1;
            assert(any == any_competitor(*board, *mv, legal@, n)) by {
                if any_competitor(*board, *mv, legal@, n) && !is_competitor(*board, *mv, legal@[k]) {
                    let w = choose|w: int| 0 <= w < n && #[trigger] is_competitor(*board, *mv, legal@[w]);
                    assert(0 <= w < j);
                }
            }
            assert(same_file == competitor_on_file(*board, *mv, legal@, n)) by {
                if competitor_on_file(*board, *mv, legal@, n) {
                    let w = choose|w: int| 0 <= w < n && #[trigger] is_competitor(*board, *mv, legal@[w])
                        && file_of(legal@[w].source) == file_of(mv.source);
                    if w < j {
                        assert(competitor_on_file(*board, *mv, legal@, j as int));
                    }
                }
            }
            assert(same_rank == competitor_on_rank(*board, *mv, legal@, n)) by {
                if competitor_on_rank(*board, *mv, legal@, n) {
                    let w = choose|w: int| 0 <= w < n && #[trigger] is_competitor(*board, *mv, legal@[w])
                        && rank_of(legal@[w].source) == rank_of(mv.source);
                    if w < j {
                        assert(competitor_on_rank(*board, *mv, legal@, j as int));
                    }
                }
            }
        }
        j = j + 1;
    }
    (any, same_file, same_rank)
}

/// The text that tells `mv` apart from other moves of the same kind of piece
/// to the same square.
fn disambiguation_text(board: &chess::Board, mv: &Move, source_piece: PieceKind) -> (r: String)
    requires
        mv.is_valid(),
        piece_on_of(*board, mv.source) == Some(source_piece),
    ensures
        r@ == disambiguation(*board, *mv),
{
    let (any, same_file, same_rank) = scan_competitors(board, mv, source_piece);
    let mut text = String::new();
    if any {
        let rank_needed = same_file;
        let file_needed = same_rank || !rank_needed;
        if file_needed {
            let f = file_to_string(mv.source % 8);
            text.append(f.as_str());
        }
        if rank_needed {
            let rk = rank_to_string(mv.source / 8);
            text.append(rk.as_str());
        }
    }
    proof {
        assert(text@ =~= disambiguation(*board, *mv));
    }
    text
}

fn square_to_string(sq: u8) -> (r: String)
    requires
        sq < 64,
    ensures
        r@ == square_text(sq),
{
    let mut text = file_to_string(sq % 8);
    let rank = rank_to_string(sq / 8);
    text.append(rank.as_str());
    text
}

fn promotion_to_string(promotion: Option<PieceKind>) -> (r: String)
    ensures
        r@ == promotion_text(promotion),
{
    match promotion {
        Some(k) => {
            proof { reveal_strlit("="); }
            let mut text = String::from_str("=");
            let letter = piece_to_string(k);
            text.append(letter.as_str());
            text
        },
        None => String::new(),
    }
}

/// `#` when the position after the move is mate, `+` when it is check.
fn suffix_to_string(after: &chess::Board) -> (r: String)
    ensures
        r@ == check_suffix(*after),
{
    match status(after) {
        GameStatus::Checkmate => {
            proof { reveal_strlit("#"); }
            String::from_str("#")
        },
        GameStatus::Ongoing => {
            if in_check(after) {
                proof { reveal_strlit("+"); }
                String::from_str("+")
            } else {
                String::new()
            }
        },
        GameStatus::Stalemate => String::new(),
    }
}

/// Writes `mv`, played from `board`, in standard algebraic notation.
pub fn to_algebraic(board: &chess::Board, mv: &Move) -> (r: Result<String, NotationError>)
    requires
        mv.is_valid(),
        piece_on_of(*board, mv.source).is_some() ==> is_legal(*board, *mv),
    ensures
        match piece_on_of(*board, mv.source) {
            None => r == Err::<String, NotationError>(NotationError::SourcePieceMissing),
            Some(piece) => r is Ok && r->Ok_0@ == san_of(*board, *mv, piece),
        },
{
    let source_piece = match piece_on(board, mv.source) {
        Some(p) => p,
        None => return Err(NotationError::SourcePieceMissing),
    };
    let source_file = mv.source % 8;
    let dest_file = mv.dest % 8;
    let is_capture = piece_on(board, mv.dest).is_some() || (source_piece == PieceKind::Pawn
        && dest_file != source_file);

    if source_piece == PieceKind::King && (source_file > dest_file + 1 || dest_file > source_file
        + 1) {
        return if dest_file == 6 {
            proof { reveal_strlit("O-O"); }
            Ok(String::from_str("O-O"))
        } else {
            proof { reveal_strlit("O-O-O"); }
            Ok(String::from_str("O-O-O"))
        };
    }

    let mut text = piece_to_string(source_piece);
    let mut middle = String::new();
    if source_piece != PieceKind::Pawn {
        middle = disambiguation_text(board, mv, source_piece);
    } else if is_capture {
        middle = file_to_string(source_file);
    }
    text.append(middle.as_str());
    if is_capture {
        proof { reveal_strlit("x"); }
        text.append("x");
    }
    let ghost captured = text@;
    let dest = square_to_string(mv.dest);
    text.append(dest.as_str());
    let promotion = promotion_to_string(mv.promotion);
    text.append(promotion.as_str());
    let board_after = apply_move(board, *mv);
    let suffix = suffix_to_string(&board_after);
    text.append(suffix.as_str());
    proof {
        assert(captured =~= piece_letter(source_piece) + middle@ + (if is_capture { seq!['x'] } else { seq![] }));
        assert(text@ =~= captured + square_text(mv.dest) + promotion_text(mv.promotion)
            + check_suffix(after_move(*board, *mv)));
    }
    Ok(text)
}

/// Appends a space after a white move, a line break after a black one.
fn push_separator(text: &mut String, white_moved: bool)
    ensures
        final(text)@ == old(text)@ + (if white_moved { seq![' '] } else { seq!['\n'] }),
{
    if white_moved {
        proof { reveal_strlit(" "); }
        text.append(" ");
    } else {
        proof { reveal_strlit("\n"); }
        text.append("\n");
    }
}

/// Appends `n` followed by a full stop and a space.
fn push_move_number(text: &mut String, n: usize)
    ensures
        final(text)@ == old(text)@ + number_text(n as nat) + seq!['.', ' '],
{
    push_number(text, n);
    proof { reveal_strlit(". "); }
    text.append(". ");
    proof {
        assert(text@ =~= old(text)@ + number_text(n as nat) + seq!['.', ' ']);
    }
}

/// Replays `moves` from `starting_board` and writes the numbered movetext:
/// a move number before every other move starting with the first, a space
/// after each white move and a line break after each black one. A move whose
/// source square is empty ends the replay with an error.
pub fn to_pgn(starting_board: &chess::Board, moves: &Vec<Move>) -> (r: Result<String, NotationError>)
    requires
        is_legal_line(*starting_board, moves@),
    ensures
        r is Ok <==> sources_occupied(*starting_board, moves@, moves@.len()),
        r is Ok ==> r->Ok_0@ == movetext(*starting_board, moves@, moves@.len()),
        r is Err ==> r == Err::<String, NotationError>(NotationError::SourcePieceMissing),
{
    let mut pgn_string = String::new();
    let mut board = *starting_board;
    let mut white_moved = false;
    let mut i: usize = 0;
    while i < moves.len()
        invariant
            is_legal_line(*starting_board, moves@),
            i <= moves@.len(),
            board == position_after(*starting_board, moves@, i as nat),
            sources_occupied(*starting_board, moves@, i as nat),
            i > 0 ==> white_moved == white_to_move_of(position_after(*starting_board, moves@, (i - 1) as nat)),
            pgn_string@ == movetext(*starting_board, moves@, i as nat),
        decreases moves.len() - i,
    {
        let mv = moves[i];
        proof {
            let k = i as int;
            assert(is_legal(position_after(*starting_board, moves@, k as nat), moves@[k]));
            assert(moves@[k].is_valid());
        }
        let ghost before = pgn_string@;
        if i > 0 {
            push_separator(&mut pgn_string, white_moved);
        }
        let ghost separated = pgn_string@;
        if i % 2 == 0 {
            push_move_number(&mut pgn_string, i / 2 + 1);
        }
        let ghost numbered = pgn_string@;
        let notation = to_algebraic(&board, &mv);
        match notation {
            Ok(text) => {
                pgn_string.append(text.as_str());
            },
            Err(e) => {
                proof {
                    assert(!sources_occupied(*starting_board, moves@, moves@.len()));
                }
                return Err(e);
            },
        }
        proof {
            let piece = piece_on_of(board, mv.source).unwrap();
            assert(pgn_string@ =~= numbered + san_of(board, mv, piece));
            if i == 0 {
                assert(pgn_string@ =~= movetext(*starting_board, moves@, 1));
            } else {
                assert(separated == before + separator(*starting_board, moves@, (i - 1) as nat));
                assert(pgn_string@ =~= movetext(*starting_board, moves@, (i + 1) as nat));
            }
        }
        white_moved = white_to_move(&board);
        board = apply_move(&board, mv);
        i = i + 1;
    }
    Ok(pgn_string)
}

} // verus!
