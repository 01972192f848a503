//! The engine's general laws, stated over the model and proved from the
//! definitions the executable contracts use.
//!
//! Scenario-shaped properties (concrete positions and their outcomes)
//! live in the test suite; what is stated here holds of every position.

use vstd::prelude::*;

use crate::model::{
    all_legal, apply_move, apply_promotion, dead_material, ep_victim, eval_status, in_check,
    is_en_passant, is_little_castle, is_promotion, legal_pred, legal_seq, lemma_filter_elems,
    lemma_pseudo_castle, lemma_pseudo_ep, pseudo_seq, rank_of, sq_of, BoardModel,
};
use crate::board::Status;
use crate::piece::{combine_of, enemy_of, is_full_piece, kind_of, Piece};

verus! {

/// Move legality round-trip: a committed move leaves its origin empty
/// and puts the moved piece on its destination, a castling move also
/// swaps the rook leg's squares, an en-passant capture also clears the
/// victim's square, a promotion leaves the destination pending instead,
/// and the move is recorded as the last move.
pub proof fn lemma_move_round_trip(m: BoardModel, from: int, to: int)
    requires
        0 <= from < 64,
        0 <= to < 64,
        m.squares.len() == 64,
        is_full_piece(m.squares[from]),
        pseudo_seq(m, from).contains(to),
        is_little_castle(m, from, to) ==> from + 3 < 64,
        crate::model::is_big_castle(m, from, to) ==> from - 4 >= 0,
    ensures
        apply_move(m, from, to).squares[from] == Piece::Empty,
        !is_promotion(m, from, to) ==> apply_move(m, from, to).squares[to] == m.squares[from],
        is_promotion(m, from, to) ==> apply_move(m, from, to).squares[to] == Piece::Empty
            && apply_move(m, from, to).promo == Option::Some(to),
        is_little_castle(m, from, to) && from + 3 < 64 ==> apply_move(m, from, to).squares[from
            + 1] == m.squares[from + 3] && apply_move(m, from, to).squares[from + 3]
            == m.squares[from + 1],
        crate::model::is_big_castle(m, from, to) && from - 4 >= 0 ==> apply_move(
            m,
            from,
            to,
        ).squares[from - 1] == m.squares[from - 4] && apply_move(m, from, to).squares[from - 4]
            == m.squares[from - 1],
        is_en_passant(m, from, to) && 0 <= ep_victim(from, to) < 64 && ep_victim(from, to) != to
            ==> apply_move(m, from, to).squares[ep_victim(from, to)] == Piece::Empty,
        apply_move(m, from, to).last_from == from && apply_move(m, from, to).last_to == to,
        is_promotion(m, from, to) ==> apply_move(m, from, to).turn == m.turn,
        !is_promotion(m, from, to) ==> apply_move(m, from, to).turn == enemy_of(m.turn),
{
    crate::model::lemma_pseudo_elements(m, m.squares[from], from);
    if is_little_castle(m, from, to) || crate::model::is_big_castle(m, from, to) {
        lemma_pseudo_castle(m, m.squares[from], from, to);
    }
    if is_en_passant(m, from, to) {
        lemma_pseudo_ep(m, m.squares[from], from, to);
    }
}

/// Check safety: every destination the legality filter returns is a
/// pseudo-legal destination that does not capture a king, and simulating
/// the move leaves the side to move out of check.
pub proof fn lemma_legal_moves_king_safe(m: BoardModel, from: int, to: int)
    requires
        legal_seq(m, from).contains(to),
    ensures
        pseudo_seq(m, from).contains(to),
        kind_of(m.squares[to]) != Piece::King,
        !in_check(apply_move(m, from, to), m.turn),
{
    lemma_filter_elems(pseudo_seq(m, from), legal_pred(m, from));
}

/// En-passant window, opening side: a pawn's file-changing move onto a
/// vacant square is offered only while the last move's destination is
/// exactly the square of the pawn to be captured.
pub proof fn lemma_en_passant_window(m: BoardModel, from: int, to: int)
    requires
        0 <= from < 64,
        is_full_piece(m.squares[from]),
        kind_of(m.squares[from]) == Piece::Pawn,
        crate::model::file_of(to) != crate::model::file_of(from),
        m.squares[to] == Piece::Empty,
        pseudo_seq(m, from).contains(to),
    ensures
        m.last_to == ep_victim(from, to),
        kind_of(m.squares[ep_victim(from, to)]) == Piece::Pawn,
        crate::piece::color_of(m.squares[ep_victim(from, to)]) == enemy_of(m.squares[from]),
{
    lemma_pseudo_ep(m, m.squares[from], from, to);
}

/// En-passant window, closing side: once the last move's destination is
/// no longer the passed pawn's square — as after any other committed
/// move, which records its own endpoints — the same capture is no longer
/// offered.
pub proof fn lemma_en_passant_window_closes(m: BoardModel, from: int, to: int)
    requires
        0 <= from < 64,
        is_full_piece(m.squares[from]),
        kind_of(m.squares[from]) == Piece::Pawn,
        crate::model::file_of(to) != crate::model::file_of(from),
        m.squares[to] == Piece::Empty,
        m.last_to != ep_victim(from, to),
    ensures
        !pseudo_seq(m, from).contains(to),
{
    if pseudo_seq(m, from).contains(to) {
        lemma_pseudo_ep(m, m.squares[from], from, to);
    }
}

/// Endpoint marks only grow: no committed move or promotion ever clears
/// a square's "has moved" mark.
pub proof fn lemma_moved_only_grows(m: BoardModel, from: int, to: int, choice: Piece)
    ensures
        forall|s: int| m.moved.contains(s) ==> apply_move(m, from, to).moved.contains(s),
        apply_move(m, from, to).moved.contains(from),
        apply_move(m, from, to).moved.contains(to),
        apply_promotion(m, choice).moved == m.moved,
{
}

/// Castling gating: once the king's square or the corresponding rook's
/// corner square carries the moved mark — which marks never leave — the
/// two-file king move is no longer offered.  With `lemma_moved_only_grows`
/// this closes castling permanently after a king or rook move, even one
/// that moved back.
pub proof fn lemma_castling_gated(m: BoardModel, from: int, to: int)
    requires
        0 <= from < 64,
        is_full_piece(m.squares[from]),
        kind_of(m.squares[from]) == Piece::King,
        to == from + 2 || to + 2 == from,
        m.moved.contains(from) || (to == from + 2 && m.moved.contains(sq_of(7, rank_of(from))))
            || (to + 2 == from && m.moved.contains(sq_of(0, rank_of(from)))),
    ensures
        !pseudo_seq(m, from).contains(to),
{
    if pseudo_seq(m, from).contains(to) {
        lemma_pseudo_castle(m, m.squares[from], from, to);
    }
}

/// Promotion pending: a pawn move onto a back rank leaves the side to
/// move unchanged and marks the destination pending; any other move
/// leaves a pending marker exactly as it was; resolving the promotion
/// places the chosen kind in the mover's colour and only then passes the
/// turn.
pub proof fn lemma_promotion_pending(m: BoardModel, from: int, to: int, choice: Piece)
    ensures
        is_promotion(m, from, to) ==> apply_move(m, from, to).turn == m.turn && apply_move(
            m,
            from,
            to,
        ).promo == Option::Some(to),
        !is_promotion(m, from, to) ==> apply_move(m, from, to).promo == m.promo,
        m.promo matches Option::Some(s) ==> (0 <= s < m.squares.len() && m.squares[s]
            == Piece::Empty ==> apply_promotion(m, choice).squares[s] == combine_of(
            choice,
            m.turn,
        ) && apply_promotion(m, choice).promo is None && apply_promotion(m, choice).turn
            == enemy_of(m.turn)),
        m.promo is None ==> apply_promotion(m, choice) == m,
{
}

/// Terminal detection: with no legal move at all the position is
/// checkmate exactly when the side to move is in check and stalemate
/// otherwise; kings alone, or kings with one minor piece in total, make
/// the position dead unless a promotion is pending; otherwise the status
/// tag stands.
pub proof fn lemma_terminal_detection(m: BoardModel)
    ensures
        m.promo is None && dead_material(m.squares) ==> eval_status(m) == Status::Dead,
        !(m.promo is None && dead_material(m.squares)) && all_legal(m).len() == 0 && in_check(
            m,
            m.turn,
        ) ==> eval_status(m) == Status::Checkmate,
        !(m.promo is None && dead_material(m.squares)) && all_legal(m).len() == 0 && !in_check(
            m,
            m.turn,
        ) ==> eval_status(m) == Status::Stalemate,
        !(m.promo is None && dead_material(m.squares)) && all_legal(m).len() != 0 ==> eval_status(
            m,
        ) == m.status,
{
}

} // verus!
