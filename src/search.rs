//! Minimax search with alpha-beta pruning: white maximises, black minimises.

use vstd::prelude::*;
use crate::board::{Move, apply_move, after_move, in_check, in_check_of, legal_moves, legal_moves_of, white_to_move, white_to_move_of};
use crate::board::Side;
use crate::material::lemma_side_material_bounds;
use crate::{Evaluator, Score, SCORE_BLACK_WIN, SCORE_DRAW, SCORE_WHITE_WIN, evaluation_of};

verus! {

/// The score of a search and the move that reaches it, if any.
pub type AlphaBetaResult = (Score, Option<Move>);

pub open spec fn spec_max(a: Score, b: Score) -> Score {
    if a >= b { a } else { b }
}

pub open spec fn spec_min(a: Score, b: Score) -> Score {
    if a <= b { a } else { b }
}

/// The result of the maximising search of `b` (white to move) within the
/// window `alpha`..`beta` with `depth` plies left.
pub open spec fn search_max(b: chess::Board, alpha: Score, beta: Score, depth: nat) -> AlphaBetaResult
    decreases depth + 1, 0nat,
{
    let moves = legal_moves_of(b);
    if moves.len() == 0 {
        if in_check_of(b) { (SCORE_BLACK_WIN, None) } else { (SCORE_DRAW, None) }
    } else if depth == 0 {
        (evaluation_of(b) as Score, None)
    } else {
        scan_max(b, moves, 0, alpha, beta, depth, SCORE_BLACK_WIN, None)
    }
}

/// The result of the minimising search of `b` (black to move).
pub open spec fn search_min(b: chess::Board, alpha: Score, beta: Score, depth: nat) -> AlphaBetaResult
    decreases depth + 1, 0nat,
{
    let moves = legal_moves_of(b);
    if moves.len() == 0 {
        if in_check_of(b) { (SCORE_WHITE_WIN, None) } else { (SCORE_DRAW, None) }
    } else if depth == 0 {
        (evaluation_of(b) as Score, None)
    } else {
        scan_min(b, moves, 0, alpha, beta, depth, SCORE_WHITE_WIN, None)
    }
}

/// The maximiser's pass over `moves` from index `i`, holding the best score
/// and move so far; a strictly better score replaces the incumbent, and the
/// pass stops once `alpha` reaches `beta`.
pub open spec fn scan_max(
    b: chess::Board,
    moves: Seq<Move>,
    i: nat,
    alpha: Score,
    beta: Score,
    depth: nat,
    best: Score,
    best_move: Option<Move>,
) -> AlphaBetaResult
    decreases depth, moves.len() - i,
{
    if i >= moves.len() || depth == 0 {
        (best, best_move)
    } else {
        let score = search_min(after_move(b, moves[i as int]), alpha, beta, (depth - 1) as nat).0;
        let nbest = if score > best { score } else { best };
        let nmove = if score > best { Some(moves[i as int]) } else { best_move };
        let nalpha = spec_max(alpha, nbest);
        if nalpha >= beta {
            (nbest, nmove)
        } else {
            scan_max(b, moves, i + 1, nalpha, beta, depth, nbest, nmove)
        }
    }
}

/// The minimiser's pass, mirroring `scan_max`.
pub open spec fn scan_min(
    b: chess::Board,
    moves: Seq<Move>,
    i: nat,
    alpha: Score,
    beta: Score,
    depth: nat,
    best: Score,
    best_move: Option<Move>,
) -> AlphaBetaResult
    decreases depth, moves.len() - i,
{
    if i >= moves.len() || depth == 0 {
        (best, best_move)
    } else {
        let score = search_max(after_move(b, moves[i as int]), alpha, beta, (depth - 1) as nat).0;
        let nbest = if score < best { score } else { best };
        let nmove = if score < best { Some(moves[i as int]) } else { best_move };
        let nbeta = spec_min(beta, nbest);
        if nbeta <= alpha {
            (nbest, nmove)
        } else {
            scan_min(b, moves, i + 1, alpha, nbeta, depth, nbest, nmove)
        }
    }
}

/// The result of a full-window search from the root, by the side to move.
pub open spec fn search_root(b: chess::Board, depth: nat) -> AlphaBetaResult {
    if white_to_move_of(b) {
        search_max(b, SCORE_BLACK_WIN, SCORE_WHITE_WIN, depth)
    } else {
        search_min(b, SCORE_BLACK_WIN, SCORE_WHITE_WIN, depth)
    }
}

/// The minimax value of `b` with the maximiser to move and `depth` plies left.
pub open spec fn minimax_max(b: chess::Board, depth: nat) -> Score
    decreases depth + 1, 0nat,
{
    let moves = legal_moves_of(b);
    if moves.len() == 0 {
        if in_check_of(b) { SCORE_BLACK_WIN } else { SCORE_DRAW }
    } else if depth == 0 {
        evaluation_of(b) as Score
    } else {
        best_of_max(b, moves, moves.len(), depth)
    }
}

/// The minimax value of `b` with the minimiser to move.
pub open spec fn minimax_min(b: chess::Board, depth: nat) -> Score
    decreases depth + 1, 0nat,
{
    let moves = legal_moves_of(b);
    if moves.len() == 0 {
        if in_check_of(b) { SCORE_WHITE_WIN } else { SCORE_DRAW }
    } else if depth == 0 {
        evaluation_of(b) as Score
    } else {
        best_of_min(b, moves, moves.len(), depth)
    }
}

/// The largest minimax value among the replies to the first `n` moves.
pub open spec fn best_of_max(b: chess::Board, moves: Seq<Move>, n: nat, depth: nat) -> Score
    decreases depth, n,
{
    if n == 0 || depth == 0 || n > moves.len() {
        SCORE_BLACK_WIN
    } else {
        spec_max(
            best_of_max(b, moves, (n - 1) as nat, depth),
            minimax_min(after_move(b, moves[n - 1]), (depth - 1) as nat),
        )
    }
}

/// The smallest minimax value among the replies to the first `n` moves.
pub open spec fn best_of_min(b: chess::Board, moves: Seq<Move>, n: nat, depth: nat) -> Score
    decreases depth, n,
{
    if n == 0 || depth == 0 || n > moves.len() {
        SCORE_WHITE_WIN
    } else {
        spec_min(
            best_of_min(b, moves, (n - 1) as nat, depth),
            minimax_max(after_move(b, moves[n - 1]), (depth - 1) as nat),
        )
    }
}

/// The minimax value of a position for the side to move.
pub open spec fn minimax_root(b: chess::Board, depth: nat) -> Score {
    if white_to_move_of(b) { minimax_max(b, depth) } else { minimax_min(b, depth) }
}

/// How a search result `r` within the window `alpha`..`beta` bounds the true
/// value `v`: an upper bound when it fails low, a lower bound when it fails
/// high, and exact inside the window.
pub open spec fn bounds_value(r: Score, v: Score, alpha: Score, beta: Score) -> bool {
    &&& (r <= alpha ==> v <= r)
    &&& (r >= beta ==> v >= r)
    &&& (alpha < r < beta ==> r == v)
}

/// A chosen move, if any, is legal and its reply, searched by the minimiser,
/// has the minimax value `score`.
pub open spec fn attains_min(b: chess::Board, score: Score, m: Option<Move>, depth: nat) -> bool {
    m matches Some(mv) ==> legal_moves_of(b).contains(mv) && minimax_min(after_move(b, mv), (depth - 1) as nat) == score
}

/// A chosen move, if any, is legal and its reply, searched by the maximiser,
/// has the minimax value `score`.
pub open spec fn attains_max(b: chess::Board, score: Score, m: Option<Move>, depth: nat) -> bool {
    m matches Some(mv) ==> legal_moves_of(b).contains(mv) && minimax_max(after_move(b, mv), (depth - 1) as nat) == score
}

/// The move a search returns at the root with the full window.
pub open spec fn root_move_attains(b: chess::Board, depth: nat) -> bool {
    let r = search_root(b, depth);
    if white_to_move_of(b) {
        attains_min(b, r.0, r.1, depth)
    } else {
        attains_max(b, r.0, r.1, depth)
    }
}

proof fn lemma_best_of_max_grows(b: chess::Board, moves: Seq<Move>, i: nat, n: nat, depth: nat)
    requires
        i <= n <= moves.len(),
    ensures
        best_of_max(b, moves, i, depth) <= best_of_max(b, moves, n, depth),
    decreases n - i,
{
    if i < n {
        lemma_best_of_max_grows(b, moves, i, (n - 1) as nat, depth);
    }
}

proof fn lemma_best_of_min_shrinks(b: chess::Board, moves: Seq<Move>, i: nat, n: nat, depth: nat)
    requires
        i <= n <= moves.len(),
    ensures
        best_of_min(b, moves, i, depth) >= best_of_min(b, moves, n, depth),
    decreases n - i,
{
    if i < n {
        lemma_best_of_min_shrinks(b, moves, i, (n - 1) as nat, depth);
    }
}

proof fn lemma_search_max_bounds(b: chess::Board, alpha: Score, beta: Score, depth: nat)
    requires
        alpha < beta,
    ensures
        bounds_value(search_max(b, alpha, beta, depth).0, minimax_max(b, depth), alpha, beta),
        alpha == SCORE_BLACK_WIN && beta == SCORE_WHITE_WIN ==> attains_min(
            b,
            search_max(b, alpha, beta, depth).0,
            search_max(b, alpha, beta, depth).1,
            depth,
        ),
    decreases depth + 1, 0nat,
{
    let moves = legal_moves_of(b);
    if moves.len() > 0 && depth > 0 {
        lemma_scan_max_bounds(b, moves, 0, alpha, alpha, beta, depth, SCORE_BLACK_WIN, None);
    }
}

proof fn lemma_search_min_bounds(b: chess::Board, alpha: Score, beta: Score, depth: nat)
    requires
        alpha < beta,
    ensures
        bounds_value(search_min(b, alpha, beta, depth).0, minimax_min(b, depth), alpha, beta),
        alpha == SCORE_BLACK_WIN && beta == SCORE_WHITE_WIN ==> attains_max(
            b,
            search_min(b, alpha, beta, depth).0,
            search_min(b, alpha, beta, depth).1,
            depth,
        ),
    decreases depth + 1, 0nat,
{
    let moves = legal_moves_of(b);
    if moves.len() > 0 && depth > 0 {
        lemma_scan_min_bounds(b, moves, 0, beta, alpha, beta, depth, SCORE_WHITE_WIN, None);
    }
}

proof fn lemma_scan_max_bounds(
    b: chess::Board,
    moves: Seq<Move>,
    i: nat,
    alpha0: Score,
    alpha: Score,
    beta: Score,
    depth: nat,
    best: Score,
    best_move: Option<Move>,
)
    requires
        moves == legal_moves_of(b),
        depth > 0,
        i <= moves.len(),
        alpha == spec_max(alpha0, best),
        alpha < beta,
        best_of_max(b, moves, i, depth) <= best,
        best > alpha0 ==> best_of_max(b, moves, i, depth) == best,
        alpha0 == SCORE_BLACK_WIN && beta == SCORE_WHITE_WIN ==> attains_min(b, best, best_move, depth),
    ensures
        bounds_value(
            scan_max(b, moves, i, alpha, beta, depth, best, best_move).0,
            best_of_max(b, moves, moves.len(), depth),
            alpha0,
            beta,
        ),
        ({
            let r = scan_max(b, moves, i, alpha, beta, depth, best, best_move);
            alpha0 == SCORE_BLACK_WIN && beta == SCORE_WHITE_WIN ==> attains_min(b, r.0, r.1, depth)
        }),
    decreases depth, moves.len() - i,
{
    if i < moves.len() {
        let child = after_move(b, moves[i as int]);
        lemma_search_min_bounds(child, alpha, beta, (depth - 1) as nat);
        let score = search_min(child, alpha, beta, (depth - 1) as nat).0;
        let nbest = if score > best { score } else { best };
        let nmove = if score > best { Some(moves[i as int]) } else { best_move };
        let nalpha = spec_max(alpha, nbest);
        assert(best_of_max(b, moves, i + 1, depth) == spec_max(
            best_of_max(b, moves, i, depth),
            minimax_min(child, (depth - 1) as nat),
        ));
        lemma_best_of_max_grows(b, moves, i + 1, moves.len(), depth);
        if nalpha < beta {
            lemma_scan_max_bounds(b, moves, i + 1, alpha0, nalpha, beta, depth, nbest, nmove);
        }
    }
}

proof fn lemma_scan_min_bounds(
    b: chess::Board,
    moves: Seq<Move>,
    i: nat,
    beta0: Score,
    alpha: Score,
    beta: Score,
    depth: nat,
    best: Score,
    best_move: Option<Move>,
)
    requires
        moves == legal_moves_of(b),
        depth > 0,
        i <= moves.len(),
        beta == spec_min(beta0, best),
        alpha < beta,
        best_of_min(b, moves, i, depth) >= best,
        best < beta0 ==> best_of_min(b, moves, i, depth) == best,
        alpha == SCORE_BLACK_WIN && beta0 == SCORE_WHITE_WIN ==> attains_max(b, best, best_move, depth),
    ensures
        bounds_value(
            scan_min(b, moves, i, alpha, beta, depth, best, best_move).0,
            best_of_min(b, moves, moves.len(), depth),
            alpha,
            beta0,
        ),
        ({
            let r = scan_min(b, moves, i, alpha, beta, depth, best, best_move);
            alpha == SCORE_BLACK_WIN && beta0 == SCORE_WHITE_WIN ==> attains_max(b, r.0, r.1, depth)
        }),
    decreases depth, moves.len() - i,
{
    if i < moves.len() {
        let child = after_move(b, moves[i as int]);
        lemma_search_max_bounds(child, alpha, beta, (depth - 1) as nat);
        let score = search_max(child, alpha, beta, (depth - 1) as nat).0;
        let nbest = if score < best { score } else { best };
        let nmove = if score < best { Some(moves[i as int]) } else { best_move };
        let nbeta = spec_min(beta, nbest);
        assert(best_of_min(b, moves, i + 1, depth) == spec_min(
            best_of_min(b, moves, i, depth),
            minimax_max(child, (depth - 1) as nat),
        ));
        lemma_best_of_min_shrinks(b, moves, i + 1, moves.len(), depth);
        if nbeta > alpha {
            lemma_scan_min_bounds(b, moves, i + 1, beta0, alpha, nbeta, depth, nbest, nmove);
        }
    }
}

/// Pruning does not change the answer: the score of a full-window search from
/// the root is the minimax value of the position, and the move it returns, if
/// any, is legal and leads to a position of that value.
pub proof fn lemma_alpha_beta_is_minimax(b: chess::Board, depth: nat)
    ensures
        search_root(b, depth).0 == minimax_root(b, depth),
        root_move_attains(b, depth),
{
    if white_to_move_of(b) {
        lemma_search_max_bounds(b, SCORE_BLACK_WIN, SCORE_WHITE_WIN, depth);
    } else {
        lemma_search_min_bounds(b, SCORE_BLACK_WIN, SCORE_WHITE_WIN, depth);
    }
}

/// Playing `m` in `b` checkmates the opponent.
pub open spec fn gives_mate(b: chess::Board, m: Move) -> bool {
    legal_moves_of(after_move(b, m)).len() == 0 && in_check_of(after_move(b, m))
}

proof fn lemma_evaluation_is_finite(b: chess::Board)
    ensures
        SCORE_BLACK_WIN < evaluation_of(b) < SCORE_WHITE_WIN,
{
    lemma_side_material_bounds(b, Side::White, 64);
    lemma_side_material_bounds(b, Side::Black, 64);
}

proof fn lemma_scan_max_finds_mate(b: chess::Board, moves: Seq<Move>, i: nat, k: nat, alpha: Score, best: Score, best_move: Option<Move>)
    requires
        moves == legal_moves_of(b),
        i <= k < moves.len(),
        gives_mate(b, moves[k as int]),
        forall|j: int| 0 <= j < k ==> !gives_mate(b, #[trigger] moves[j]),
        alpha < SCORE_WHITE_WIN,
        best < SCORE_WHITE_WIN,
    ensures
        scan_max(b, moves, i, alpha, SCORE_WHITE_WIN, 1, best, best_move) == (SCORE_WHITE_WIN, Some(moves[k as int])),
    decreases k - i,
{
    let child = after_move(b, moves[i as int]);
    lemma_evaluation_is_finite(child);
    let score = search_min(child, alpha, SCORE_WHITE_WIN, 0).0;
    if i < k {
        assert(!gives_mate(b, moves[i as int]));
        assert(score < SCORE_WHITE_WIN);
        let nbest = if score > best { score } else { best };
        let nmove = if score > best { Some(moves[i as int]) } else { best_move };
        lemma_scan_max_finds_mate(b, moves, i + 1, k, spec_max(alpha, nbest), nbest, nmove);
        assert(scan_max(b, moves, i, alpha, SCORE_WHITE_WIN, 1, best, best_move)
            == scan_max(b, moves, i + 1, spec_max(alpha, nbest), SCORE_WHITE_WIN, 1, nbest, nmove));
    } else {
        assert(score == SCORE_WHITE_WIN);
    }
}

proof fn lemma_scan_min_finds_mate(b: chess::Board, moves: Seq<Move>, i: nat, k: nat, beta: Score, best: Score, best_move: Option<Move>)
    requires
        moves == legal_moves_of(b),
        i <= k < moves.len(),
        gives_mate(b, moves[k as int]),
        forall|j: int| 0 <= j < k ==> !gives_mate(b, #[trigger] moves[j]),
        beta > SCORE_BLACK_WIN,
        best > SCORE_BLACK_WIN,
    ensures
        scan_min(b, moves, i, SCORE_BLACK_WIN, beta, 1, best, best_move) == (SCORE_BLACK_WIN, Some(moves[k as int])),
    decreases k - i,
{
    let child = after_move(b, moves[i as int]);
    lemma_evaluation_is_finite(child);
    let score = search_max(child, SCORE_BLACK_WIN, beta, 0).0;
    if i < k {
        assert(!gives_mate(b, moves[i as int]));
        assert(score > SCORE_BLACK_WIN);
        let nbest = if score < best { score } else { best };
        let nmove = if score < best { Some(moves[i as int]) } else { best_move };
        lemma_scan_min_finds_mate(b, moves, i + 1, k, spec_min(beta, nbest), nbest, nmove);
        assert(scan_min(b, moves, i, SCORE_BLACK_WIN, beta, 1, best, best_move)
            == scan_min(b, moves, i + 1, SCORE_BLACK_WIN, spec_min(beta, nbest), 1, nbest, nmove));
    } else {
        assert(score == SCORE_BLACK_WIN);
    }
}

/// When a move mates at once, a one-ply search from the root returns the
/// forced win of the side to move and the first mating move in generator
/// order.
pub proof fn lemma_mate_in_one_is_found(b: chess::Board, k: nat)
    requires
        k < legal_moves_of(b).len(),
        gives_mate(b, legal_moves_of(b)[k as int]),
        forall|j: int| 0 <= j < k ==> !gives_mate(b, #[trigger] legal_moves_of(b)[j]),
    ensures
        search_root(b, 1) == (
            if white_to_move_of(b) { SCORE_WHITE_WIN } else { SCORE_BLACK_WIN },
            Some(legal_moves_of(b)[k as int]),
        ),
{
    let moves = legal_moves_of(b);
    if white_to_move_of(b) {
        lemma_scan_max_finds_mate(b, moves, 0, k, SCORE_BLACK_WIN, SCORE_BLACK_WIN, None);
    } else {
        lemma_scan_min_finds_mate(b, moves, 0, k, SCORE_WHITE_WIN, SCORE_WHITE_WIN, None);
    }
}

/// Some reply to `m` checkmates the side that played it.
pub open spec fn allows_mate_reply(b: chess::Board, m: Move) -> bool {
    let c = after_move(b, m);
    exists|j: int| 0 <= j < legal_moves_of(c).len() && gives_mate(c, #[trigger] legal_moves_of(c)[j])
}

proof fn lemma_best_of_max_at_least(b: chess::Board, moves: Seq<Move>, j: nat, n: nat, depth: nat)
    requires
        j < n <= moves.len(),
        depth > 0,
    ensures
        best_of_max(b, moves, n, depth) >= minimax_min(after_move(b, moves[j as int]), (depth - 1) as nat),
    decreases n,
{
    if j + 1 < n {
        lemma_best_of_max_at_least(b, moves, j, (n - 1) as nat, depth);
    }
}

proof fn lemma_best_of_min_at_most(b: chess::Board, moves: Seq<Move>, j: nat, n: nat, depth: nat)
    requires
        j < n <= moves.len(),
        depth > 0,
    ensures
        best_of_min(b, moves, n, depth) <= minimax_max(after_move(b, moves[j as int]), (depth - 1) as nat),
    decreases n,
{
    if j + 1 < n {
        lemma_best_of_min_at_most(b, moves, j, (n - 1) as nat, depth);
    }
}

proof fn lemma_best_of_max_no_mate(c: chess::Board, moves: Seq<Move>, n: nat)
    requires
        moves == legal_moves_of(c),
        n <= moves.len(),
        forall|j: int| 0 <= j < n ==> !gives_mate(c, #[trigger] moves[j]),
    ensures
        best_of_max(c, moves, n, 1) < SCORE_WHITE_WIN,
    decreases n,
{
    if n > 0 {
        lemma_best_of_max_no_mate(c, moves, (n - 1) as nat);
        let p = after_move(c, moves[n - 1]);
        assert(!gives_mate(c, moves[n - 1]));
        lemma_evaluation_is_finite(p);
        assert(minimax_min(p, 0) < SCORE_WHITE_WIN);
        assert(best_of_max(c, moves, n, 1) == spec_max(best_of_max(c, moves, (n - 1) as nat, 1), minimax_min(p, 0)));
    }
}

proof fn lemma_best_of_min_no_mate(c: chess::Board, moves: Seq<Move>, n: nat)
    requires
        moves == legal_moves_of(c),
        n <= moves.len(),
        forall|j: int| 0 <= j < n ==> !gives_mate(c, #[trigger] moves[j]),
    ensures
        best_of_min(c, moves, n, 1) > SCORE_BLACK_WIN,
    decreases n,
{
    if n > 0 {
        lemma_best_of_min_no_mate(c, moves, (n - 1) as nat);
        let p = after_move(c, moves[n - 1]);
        assert(!gives_mate(c, moves[n - 1]));
        lemma_evaluation_is_finite(p);
        assert(minimax_max(p, 0) > SCORE_BLACK_WIN);
        assert(best_of_min(c, moves, n, 1) == spec_min(best_of_min(c, moves, (n - 1) as nat, 1), minimax_max(p, 0)));
    }
}

/// With one ply left for the maximiser, the value falls short of a forced
/// win exactly when no move mates.
proof fn lemma_max_one_ply_mate(c: chess::Board)
    ensures
        minimax_max(c, 1) < SCORE_WHITE_WIN <==> !(exists|j: int|
            0 <= j < legal_moves_of(c).len() && gives_mate(c, #[trigger] legal_moves_of(c)[j])),
{
    let moves = legal_moves_of(c);
    if exists|j: int| 0 <= j < moves.len() && gives_mate(c, #[trigger] moves[j]) {
        let j = choose|j: int| 0 <= j < moves.len() && gives_mate(c, #[trigger] moves[j]);
        lemma_best_of_max_at_least(c, moves, j as nat, moves.len(), 1);
    } else {
        lemma_best_of_max_no_mate(c, moves, moves.len());
    }
}

/// With one ply left for the minimiser, the value stays above a forced loss
/// exactly when no move mates.
proof fn lemma_min_one_ply_mate(c: chess::Board)
    ensures
        minimax_min(c, 1) > SCORE_BLACK_WIN <==> !(exists|j: int|
            0 <= j < legal_moves_of(c).len() && gives_mate(c, #[trigger] legal_moves_of(c)[j])),
{
    let moves = legal_moves_of(c);
    if exists|j: int| 0 <= j < moves.len() && gives_mate(c, #[trigger] moves[j]) {
        let j = choose|j: int| 0 <= j < moves.len() && gives_mate(c, #[trigger] moves[j]);
        lemma_best_of_min_at_most(c, moves, j as nat, moves.len(), 1);
    } else {
        lemma_best_of_min_no_mate(c, moves, moves.len());
    }
}

proof fn lemma_scan_max_no_move(b: chess::Board, moves: Seq<Move>, i: nat, alpha: Score, beta: Score, depth: nat, best: Score, best_move: Option<Move>)
    ensures
        scan_max(b, moves, i, alpha, beta, depth, best, best_move).1 is None ==> best_move is None
            && scan_max(b, moves, i, alpha, beta, depth, best, best_move).0 == best,
    decreases depth, moves.len() - i,
{
    if i < moves.len() && depth > 0 {
        let score = search_min(after_move(b, moves[i as int]), alpha, beta, (depth - 1) as nat).0;
        let nbest = if score > best { score } else { best };
        let nmove = if score > best { Some(moves[i as int]) } else { best_move };
        lemma_scan_max_no_move(b, moves, i + 1, spec_max(alpha, nbest), beta, depth, nbest, nmove);
    }
}

proof fn lemma_scan_min_no_move(b: chess::Board, moves: Seq<Move>, i: nat, alpha: Score, beta: Score, depth: nat, best: Score, best_move: Option<Move>)
    ensures
        scan_min(b, moves, i, alpha, beta, depth, best, best_move).1 is None ==> best_move is None
            && scan_min(b, moves, i, alpha, beta, depth, best, best_move).0 == best,
    decreases depth, moves.len() - i,
{
    if i < moves.len() && depth > 0 {
        let score = search_max(after_move(b, moves[i as int]), alpha, beta, (depth - 1) as nat).0;
        let nbest = if score < best { score } else { best };
        let nmove = if score < best { Some(moves[i as int]) } else { best_move };
        lemma_scan_min_no_move(b, moves, i + 1, alpha, spec_min(beta, nbest), depth, nbest, nmove);
    }
}

/// When some move leaves the opponent no mate in one, a two-ply search from
/// the root does not report a forced loss for the side to move, and it
/// returns a move that likewise leaves no mate in one.
pub proof fn lemma_two_ply_avoids_mate(b: chess::Board, k: nat)
    requires
        k < legal_moves_of(b).len(),
        !allows_mate_reply(b, legal_moves_of(b)[k as int]),
    ensures
        search_root(b, 2).0 != (if white_to_move_of(b) { SCORE_BLACK_WIN } else { SCORE_WHITE_WIN }),
        search_root(b, 2).1 matches Some(m) && legal_moves_of(b).contains(m) && !allows_mate_reply(b, m),
{
    let moves = legal_moves_of(b);
    let r = search_root(b, 2);
    lemma_alpha_beta_is_minimax(b, 2);
    if white_to_move_of(b) {
        lemma_min_one_ply_mate(after_move(b, moves[k as int]));
        lemma_best_of_max_at_least(b, moves, k, moves.len(), 2);
        lemma_scan_max_no_move(b, moves, 0, SCORE_BLACK_WIN, SCORE_WHITE_WIN, 2, SCORE_BLACK_WIN, None);
        let m = r.1.unwrap();
        lemma_min_one_ply_mate(after_move(b, m));
    } else {
        lemma_max_one_ply_mate(after_move(b, moves[k as int]));
        lemma_best_of_min_at_most(b, moves, k, moves.len(), 2);
        lemma_scan_min_no_move(b, moves, 0, SCORE_BLACK_WIN, SCORE_WHITE_WIN, 2, SCORE_WHITE_WIN, None);
        let m = r.1.unwrap();
        lemma_max_one_ply_mate(after_move(b, m));
    }
}

/// A searcher rooted at one position.
pub struct Search {
    pub board: chess::Board,
    pub evaluator: Evaluator,
}

impl Search {
    /// The searcher and its evaluator look at the same position.
    pub open spec fn wf(&self) -> bool {
        self.evaluator.board == self.board
    }

    pub fn new(board: &chess::Board) -> (r: Self)
        ensures
            r.board == *board,
            r.wf(),
    {
        Self { board: *board, evaluator: Evaluator::new(*board) }
    }

    fn alpha_min(&self, alpha: Score, beta_in: Score, depth: usize) -> (r: AlphaBetaResult)
        requires
            self.wf(),
        ensures
            r == search_min(self.board, alpha, beta_in, depth as nat),
            r.1 matches Some(m) ==> legal_moves_of(self.board).contains(m) && m.is_valid(),
        decreases depth,
    {
        let moves = legal_moves(&self.board);
        if moves.len() == 0 {
            return if !in_check(&self.board) {
                (SCORE_DRAW, None)
            } else {
                (SCORE_WHITE_WIN, None)
            };
        }
        if depth == 0 {
            return (self.evaluator.evaluate(), None);
        }
        let mut beta: Score = beta_in;
        let mut best_score: Score = SCORE_WHITE_WIN;
        let mut best_move: Option<Move> = None;
        let mut i: usize = 0;
        while i < moves.len()
            invariant_except_break
                scan_min(self.board, moves@, i as nat, alpha, beta, depth as nat, best_score, best_move)
                    == search_min(self.board, alpha, beta_in, depth as nat),
            invariant
                self.wf(),
                depth > 0,
                moves@ == legal_moves_of(self.board),
                forall|k: int| 0 <= k < moves@.len() ==> #[trigger] moves@[k].is_valid(),
                i <= moves@.len(),
                best_move matches Some(m) ==> moves@.contains(m) && m.is_valid(),
            ensures
                (best_score, best_move) == search_min(self.board, alpha, beta_in, depth as nat),
                best_move matches Some(m) ==> moves@.contains(m) && m.is_valid(),
            decreases moves.len() - i,
        {
            let mv = moves[i];
            proof {
                assert(moves@[i as int] == mv);
            }
            let new_board = apply_move(&self.board, mv);
            let searcher = Search::new(&new_board);
            let (score, _move) = searcher.alpha_max(alpha, beta, depth - 1);
            if score < best_score {
                best_score = score;
                best_move = Some(mv);
            }
            beta = if beta <= best_score { beta } else { best_score };
            if beta <= alpha {
                break;
            }
            i = i + 1;
        }
        (best_score, best_move)
    }

    fn alpha_max(&self, alpha_in: Score, beta: Score, depth: usize) -> (r: AlphaBetaResult)
        requires
            self.wf(),
        ensures
            r == search_max(self.board, alpha_in, beta, depth as nat),
            r.1 matches Some(m) ==> legal_moves_of(self.board).contains(m) && m.is_valid(),
        decreases depth,
    {
        let moves = legal_moves(&self.board);
        if moves.len() == 0 {
            return if !in_check(&self.board) {
                (SCORE_DRAW, None)
            } else {
                (SCORE_BLACK_WIN, None)
            };
        }
        if depth == 0 {
            return (self.evaluator.evaluate(), None);
        }
        let mut alpha: Score = alpha_in;
        let mut best_score: Score = SCORE_BLACK_WIN;
        let mut best_move: Option<Move> = None;
        let mut i: usize = 0;
        while i < moves.len()
            invariant_except_break
                scan_max(self.board, moves@, i as nat, alpha, beta, depth as nat, best_score, best_move)
                    == search_max(self.board, alpha_in, beta, depth as nat),
            invariant
                self.wf(),
                depth > 0,
                moves@ == legal_moves_of(self.board),
                forall|k: int| 0 <= k < moves@.len() ==> #[trigger] moves@[k].is_valid(),
                i <= moves@.len(),
                best_move matches Some(m) ==> moves@.contains(m) && m.is_valid(),
            ensures
                (best_score, best_move) == search_max(self.board, alpha_in, beta, depth as nat),
                best_move matches Some(m) ==> moves@.contains(m) && m.is_valid(),
            decreases moves.len() - i,
        {
            let mv = moves[i];
            proof {
                assert(moves@[i as int] == mv);
            }
            let new_board = apply_move(&self.board, mv);
            let searcher = Search::new(&new_board);
            let (score, _move) = searcher.alpha_min(alpha, beta, depth - 1);
            if score > best_score {
                best_score = score;
                best_move = Some(mv);
            }
            alpha = if alpha >= best_score { alpha } else { best_score };
            if alpha >= beta {
                break;
            }
            i = i + 1;
        }
        (best_score, best_move)
    }

    /// Searches `depth` plies from the root with the full window, maximising
    /// when white is to move and minimising otherwise.
    pub fn alpha_beta(&self, depth: usize) -> (r: AlphaBetaResult)
        requires
            self.wf(),
        ensures
            r == search_root(self.board, depth as nat),
            r.0 == minimax_root(self.board, depth as nat),
            root_move_attains(self.board, depth as nat),
            r.1 matches Some(m) ==> m.is_valid(),
    {
        proof {
            lemma_alpha_beta_is_minimax(self.board, depth as nat);
        }
        let alpha = SCORE_BLACK_WIN;
        let beta = SCORE_WHITE_WIN;
        if white_to_move(&self.board) {
            self.alpha_max(alpha, beta, depth)
        } else {
            self.alpha_min(alpha, beta, depth)
        }
    }
}

} // verus!
