//! Scenario tests driving the engine through its public operations.

use chess_engine::board::{Board, Opponent, Status};
use chess_engine::piece::Piece;

/// Square index of file `x`, rank `y` (rank 0 is Black's back rank).
fn sq(x: usize, y: usize) -> usize {
    y * 8 + x
}

fn empty_board() -> Vec<Piece> {
    vec![Piece::Empty; 64]
}

#[test]
fn initial_layout() {
    let b = Board::default();
    // Back ranks.
    let back = [
        Piece::Rook,
        Piece::LeftKnight,
        Piece::Bishop,
        Piece::Queen,
        Piece::King,
        Piece::Bishop,
        Piece::RightKnight,
        Piece::Rook,
    ];
    for x in 0..8 {
        assert_eq!(b.get_piece(x, 0), back[x].combine(Piece::Black));
        assert_eq!(b.get_piece(x, 1), Piece::BlackPawn);
        assert_eq!(b.get_piece(x, 6), Piece::WhitePawn);
        assert_eq!(b.get_piece(x, 7), back[x].combine(Piece::White));
        for y in 2..6 {
            assert_eq!(b.get_piece(x, y), Piece::Empty);
        }
    }
    assert_eq!(b.status(), Status::Playing);
    assert_eq!(b.current_opponent(), Opponent::Computer);
    assert_eq!(b.get_last_move(), [0, 0]);
    assert!(!b.is_in_last_move(0, 0));
}

#[test]
fn move_round_trip() {
    let mut b = Board::default();
    // e2 -> e4.
    b.move_piece(sq(4, 6), sq(4, 4));
    assert_eq!(b.get_piece(4, 6), Piece::Empty);
    assert_eq!(b.get_piece(4, 4), Piece::WhitePawn);
    assert_eq!(b.get_last_move(), [sq(4, 6), sq(4, 4)]);
    assert!(b.is_in_last_move(4, 6));
    assert!(b.piece_has_moved(4, 4));
}

#[test]
fn illegal_move_is_a_no_op() {
    let mut b = Board::default();
    // A pawn cannot jump three ranks, nor may Black's piece answer first.
    b.move_piece(sq(4, 6), sq(4, 3));
    assert_eq!(b.get_piece(4, 6), Piece::WhitePawn);
    assert_eq!(b.get_piece(4, 3), Piece::Empty);
    // Out-of-range input is tolerated.
    b.move_piece(200, 3);
    b.move_piece(3, 200);
    assert_eq!(b.get_piece(4, 6), Piece::WhitePawn);
}

#[test]
fn check_safety_synthetic_position() {
    // White King e1, Black Rook e8, Black King a8, no blockers.
    let mut layout = empty_board();
    layout[sq(4, 7)] = Piece::WhiteKing;
    layout[sq(4, 0)] = Piece::BlackRook;
    layout[sq(0, 0)] = Piece::BlackKing;
    let mut b = Board::from_layout(layout, Piece::White).unwrap();
    assert!(b.is_check(Piece::White));
    let king_moves = b.get_legal_moves_square_indices(sq(4, 7));
    // No king destination may stay on the attacked e-file.
    assert!(!king_moves.contains(&sq(4, 6)));
    for m in &king_moves {
        assert_ne!(m % 8, 4);
    }
    // The king may step aside.
    assert!(king_moves.contains(&sq(3, 7)));
    assert!(king_moves.contains(&sq(5, 7)));
}

#[test]
fn check_safety_pinned_piece() {
    // A white rook blocking the e-file may not abandon the block.
    let mut layout = empty_board();
    layout[sq(4, 7)] = Piece::WhiteKing;
    layout[sq(4, 0)] = Piece::BlackRook;
    layout[sq(0, 0)] = Piece::BlackKing;
    layout[sq(4, 4)] = Piece::WhiteRook;
    let mut b = Board::from_layout(layout, Piece::White).unwrap();
    assert!(!b.is_check(Piece::White));
    let rook_moves = b.get_legal_moves_square_indices(sq(4, 4));
    for m in &rook_moves {
        // Only moves along the e-file survive the king-safety filter.
        assert_eq!(m % 8, 4);
    }
    // Moving the rook off the file is rejected outright.
    let before = b.get_piece(4, 4);
    b.move_piece(sq(4, 4), sq(0, 4));
    assert_eq!(b.get_piece(4, 4), before);
    assert_eq!(b.get_piece(0, 4), Piece::Empty);
}

#[test]
fn en_passant_window_lasts_one_ply() {
    let mut b = Board::default();
    b.move_piece(sq(4, 6), sq(4, 4)); // e2e4
    b.move_piece(sq(0, 1), sq(0, 2)); // a7a6
    b.move_piece(sq(4, 4), sq(4, 3)); // e4e5
    b.move_piece(sq(3, 1), sq(3, 3)); // d7d5, the double advance
    // The white e5 pawn may capture en passant onto d6 for exactly one ply.
    let moves = b.get_legal_moves_square_indices(sq(4, 3));
    assert!(moves.contains(&sq(3, 2)));
    b.move_piece(sq(7, 6), sq(7, 5)); // h2h3 instead
    b.move_piece(sq(7, 1), sq(7, 2)); // h7h6
    let moves = b.get_legal_moves_square_indices(sq(4, 3));
    assert!(!moves.contains(&sq(3, 2)));
}

#[test]
fn en_passant_capture_removes_the_passed_pawn() {
    let mut b = Board::default();
    b.move_piece(sq(4, 6), sq(4, 4)); // e2e4
    b.move_piece(sq(0, 1), sq(0, 2)); // a7a6
    b.move_piece(sq(4, 4), sq(4, 3)); // e4e5
    b.move_piece(sq(3, 1), sq(3, 3)); // d7d5
    b.move_piece(sq(4, 3), sq(3, 2)); // exd6 en passant
    assert_eq!(b.get_piece(3, 2), Piece::WhitePawn);
    assert_eq!(b.get_piece(3, 3), Piece::Empty); // the victim is gone
    assert_eq!(b.get_piece(4, 3), Piece::Empty);
}

#[test]
fn castling_moves_both_legs() {
    let mut b = Board::default();
    b.move_piece(sq(6, 7), sq(5, 5)); // Ng1f3
    b.move_piece(sq(6, 0), sq(5, 2)); // Ng8f6
    b.move_piece(sq(6, 6), sq(6, 5)); // g2g3
    b.move_piece(sq(6, 1), sq(6, 2)); // g7g6
    b.move_piece(sq(5, 7), sq(6, 6)); // Bf1g2
    b.move_piece(sq(5, 0), sq(6, 1)); // Bf8g7
    let king_moves = b.get_legal_moves_square_indices(sq(4, 7));
    assert!(king_moves.contains(&sq(6, 7)));
    b.move_piece(sq(4, 7), sq(6, 7)); // White castles king-side.
    assert_eq!(b.get_piece(6, 7), Piece::WhiteKing);
    assert_eq!(b.get_piece(5, 7), Piece::WhiteRook);
    assert_eq!(b.get_piece(4, 7), Piece::Empty);
    assert_eq!(b.get_piece(7, 7), Piece::Empty);
}

#[test]
fn castling_gated_after_king_moved_and_back() {
    let mut layout = empty_board();
    layout[sq(4, 7)] = Piece::WhiteKing;
    layout[sq(7, 7)] = Piece::WhiteRook;
    layout[sq(4, 0)] = Piece::BlackKing;
    let mut b = Board::from_layout(layout, Piece::White).unwrap();
    // Untouched home squares: the castle is offered.
    assert!(b.get_legal_moves_square_indices(sq(4, 7)).contains(&sq(6, 7)));
    // The king steps out and back (force_move_piece flips the turn twice).
    b.force_move_piece(sq(4, 7), sq(4, 6), false);
    b.force_move_piece(sq(4, 6), sq(4, 7), false);
    assert_eq!(b.get_piece(4, 7), Piece::WhiteKing);
    // Now castling is permanently gone.
    assert!(!b.get_legal_moves_square_indices(sq(4, 7)).contains(&sq(6, 7)));
}

#[test]
fn promotion_waits_for_the_choice() {
    let mut b = Board::default();
    // Drive the a2 pawn up and capture through to c8 (force_move_piece
    // does not check legality, only geometry).
    b.force_move_piece(sq(0, 6), sq(0, 4), false);
    b.force_move_piece(sq(0, 4), sq(0, 3), false);
    b.force_move_piece(sq(0, 3), sq(0, 2), false);
    b.force_move_piece(sq(0, 2), sq(1, 1), false); // axb7
    let ate = b.force_move_piece(sq(1, 1), sq(2, 0), false); // bxc8, promotion
    assert!(ate);
    assert!(b.is_in_promotion(2, 0));
    assert_eq!(b.get_piece(2, 0), Piece::Empty);
    // A move attempt elsewhere must not silently resolve the promotion
    // (an illegal one, so the turn stays with the promoting side).
    b.move_piece(sq(7, 6), sq(7, 3));
    assert!(b.is_in_promotion(2, 0));
    b.promote(Piece::Queen);
    assert!(!b.is_in_promotion(2, 0));
    assert_eq!(b.get_piece(2, 0), Piece::WhiteQueen);
    // A second promotion request is a no-op.
    b.promote(Piece::Rook);
    assert_eq!(b.get_piece(2, 0), Piece::WhiteQueen);
}

#[test]
fn promotion_onto_an_occupied_square_is_a_no_op() {
    let mut b = Board::default();
    // Reach a pending promotion on c8 as above.
    b.force_move_piece(sq(0, 6), sq(0, 4), false);
    b.force_move_piece(sq(0, 4), sq(0, 3), false);
    b.force_move_piece(sq(0, 3), sq(0, 2), false);
    b.force_move_piece(sq(0, 2), sq(1, 1), false);
    b.force_move_piece(sq(1, 1), sq(2, 0), false);
    assert!(b.is_in_promotion(2, 0));
    // The black queen steps onto the vacated pending square.
    b.force_move_piece(sq(3, 0), sq(2, 0), false);
    assert_eq!(b.get_piece(2, 0), Piece::BlackQueen);
    // Resolving now is tolerated as a no-op: nothing placed, marker kept.
    b.promote(Piece::Queen);
    assert_eq!(b.get_piece(2, 0), Piece::BlackQueen);
    assert!(b.is_in_promotion(2, 0));
}

#[test]
fn dead_position_two_kings() {
    let mut layout = empty_board();
    layout[sq(4, 7)] = Piece::WhiteKing;
    layout[sq(4, 0)] = Piece::BlackKing;
    let mut b = Board::from_layout(layout, Piece::White).unwrap();
    b.move_piece(sq(4, 7), sq(4, 6));
    assert_eq!(b.status(), Status::Dead);
}

#[test]
fn dead_position_single_minor() {
    let mut layout = empty_board();
    layout[sq(4, 7)] = Piece::WhiteKing;
    layout[sq(4, 0)] = Piece::BlackKing;
    layout[sq(2, 4)] = Piece::WhiteBishop;
    let mut b = Board::from_layout(layout, Piece::White).unwrap();
    b.move_piece(sq(4, 7), sq(4, 6));
    assert_eq!(b.status(), Status::Dead);
}

#[test]
fn rook_endgame_is_not_dead() {
    let mut layout = empty_board();
    layout[sq(4, 7)] = Piece::WhiteKing;
    layout[sq(4, 0)] = Piece::BlackKing;
    layout[sq(0, 4)] = Piece::WhiteRook;
    let mut b = Board::from_layout(layout, Piece::White).unwrap();
    b.move_piece(sq(4, 7), sq(4, 6));
    assert_eq!(b.status(), Status::Playing);
}

#[test]
fn fools_mate_is_checkmate() {
    let mut b = Board::default();
    b.move_piece(sq(5, 6), sq(5, 5)); // f2f3
    b.move_piece(sq(4, 1), sq(4, 3)); // e7e5
    b.move_piece(sq(6, 6), sq(6, 4)); // g2g4
    b.move_piece(sq(3, 0), sq(7, 4)); // Qd8h4#
    assert_eq!(b.status(), Status::Checkmate);
}

#[test]
fn stalemate_detection() {
    // Black King a8, White King b6, White Queen c5: White commits the
    // stalemating queen move to c7, leaving Black no legal move and no
    // check.
    let mut layout = empty_board();
    layout[sq(0, 0)] = Piece::BlackKing;
    layout[sq(1, 2)] = Piece::WhiteKing;
    layout[sq(2, 3)] = Piece::WhiteQueen;
    let mut b = Board::from_layout(layout, Piece::White).unwrap();
    b.move_piece(sq(2, 3), sq(2, 1));
    assert_eq!(b.get_piece(2, 1), Piece::WhiteQueen);
    assert!(!b.is_check(Piece::Black));
    assert_eq!(b.status(), Status::Stalemate);
}

#[test]
fn illegal_request_keeps_status() {
    // A position that would evaluate as stalemate for Black, but whose
    // tag still reads Playing: a refused request must not re-derive it.
    let mut layout = empty_board();
    layout[sq(0, 0)] = Piece::BlackKing;
    layout[sq(2, 1)] = Piece::WhiteQueen;
    layout[sq(1, 2)] = Piece::WhiteKing;
    let mut b = Board::from_layout(layout, Piece::Black).unwrap();
    assert_eq!(b.status(), Status::Playing);
    b.move_piece(sq(0, 0), sq(0, 1)); // illegal: the king would walk into the queen
    assert_eq!(b.get_piece(0, 0), Piece::BlackKing);
    assert_eq!(b.status(), Status::Playing);
    b.move_piece(200, 0); // out of range
    assert_eq!(b.status(), Status::Playing);
}

#[test]
fn legal_move_cache_is_coherent() {
    let mut b = Board::default();
    let first = b.get_legal_moves_square_indices(sq(4, 6));
    let again = b.get_legal_moves_square_indices(sq(4, 6));
    assert_eq!(first, again);
    let coords = b.get_legal_moves(sq(4, 6));
    assert_eq!(coords.len(), first.len());
    for (k, m) in coords.iter().enumerate() {
        assert_eq!(m[1] * 8 + m[0], first[k]);
    }
    b.move_piece(sq(4, 6), sq(4, 4));
    // The committed move invalidated every cached list.
    let after = b.get_legal_moves_square_indices(sq(4, 6));
    assert!(after.is_empty());
    assert_ne!(first, after);
}

#[test]
fn get_piece_maybe_is_bounds_checked() {
    let b = Board::default();
    assert_eq!(b.get_piece_maybe(-1, 0), None);
    assert_eq!(b.get_piece_maybe(0, -1), None);
    assert_eq!(b.get_piece_maybe(8, 0), None);
    assert_eq!(b.get_piece_maybe(0, 8), None);
    assert_eq!(b.get_piece_maybe(4, 7), Some(Piece::WhiteKing));
}

#[test]
fn from_layout_rejects_invalid_boards() {
    // No black king.
    let mut layout = empty_board();
    layout[sq(4, 7)] = Piece::WhiteKing;
    assert!(Board::from_layout(layout, Piece::White).is_none());
    // Two white kings.
    let mut layout = empty_board();
    layout[sq(4, 7)] = Piece::WhiteKing;
    layout[sq(0, 4)] = Piece::WhiteKing;
    layout[sq(4, 0)] = Piece::BlackKing;
    assert!(Board::from_layout(layout, Piece::White).is_none());
    // A bare colour is not a piece.
    let mut layout = empty_board();
    layout[sq(4, 7)] = Piece::WhiteKing;
    layout[sq(4, 0)] = Piece::BlackKing;
    layout[sq(3, 3)] = Piece::White;
    assert!(Board::from_layout(layout, Piece::White).is_none());
    // The side to move must be a colour.
    let mut layout = empty_board();
    layout[sq(4, 7)] = Piece::WhiteKing;
    layout[sq(4, 0)] = Piece::BlackKing;
    assert!(Board::from_layout(layout, Piece::Pawn).is_none());
}
