//! Tests of the piece value type and the snapshot board components.

use chess_engine::game;
use chess_engine::game::piece::{Piece as SnapshotPiece, PieceColor, PieceKind};
use chess_engine::piece::Piece;
use chess_engine::utils::Array2D;

#[test]
fn split_combine_round_trip() {
    let kinds = [
        Piece::Pawn,
        Piece::LeftKnight,
        Piece::RightKnight,
        Piece::Bishop,
        Piece::Rook,
        Piece::Queen,
        Piece::King,
    ];
    for kind in kinds {
        for color in [Piece::White, Piece::Black] {
            let combined = kind.combine(color);
            let (k, c) = combined.split();
            assert_eq!(k, kind);
            assert_eq!(c, color);
            assert!(!combined.is_none());
        }
    }
}

#[test]
fn incompatible_combinations_are_rejected() {
    assert_eq!(Piece::Pawn.combine(Piece::Rook), Piece::Empty);
    assert_eq!(Piece::White.combine(Piece::Black), Piece::Empty);
    assert_eq!(Piece::WhitePawn.combine(Piece::Black), Piece::Empty);
}

#[test]
fn colour_tests_and_enemy() {
    assert!(Piece::WhiteQueen.is_white());
    assert!(!Piece::WhiteQueen.is_black());
    assert!(Piece::BlackRook.is_black());
    assert_eq!(Piece::WhitePawn.ennemy(), Piece::Black);
    assert_eq!(Piece::Black.ennemy(), Piece::White);
    assert_eq!(Piece::Pawn.ennemy(), Piece::Empty);
    assert_eq!(Piece::WhiteKing.color(), Piece::White);
    assert_eq!(Piece::Rook.color(), Piece::Empty);
    assert!(Piece::Empty.is_none());
}

#[test]
fn kind_names() {
    assert_eq!(Piece::Pawn.name(), "pawn");
    assert_eq!(Piece::LeftKnight.name(), "left_knight");
    assert_eq!(Piece::RightKnight.name(), "right_knight");
    assert_eq!(Piece::Bishop.name(), "bishop");
    assert_eq!(Piece::Rook.name(), "rook");
    assert_eq!(Piece::Queen.name(), "queen");
    assert_eq!(Piece::King.name(), "king");
}

#[test]
fn array2d_set_get_delete() {
    let mut a: Array2D<u8, 4, 3> = Array2D::new();
    assert!(!a.has(2, 1));
    a.set(2, 1, 9);
    assert!(a.has(2, 1));
    assert_eq!(a.get(2, 1), Some(9));
    assert_eq!(a.get(1, 2), None);
    a.delete(2, 1);
    assert_eq!(a.get(2, 1), None);
}

#[test]
fn array2d_fill_row_and_column() {
    let mut a: Array2D<u8, 3, 3> = Array2D::new();
    a.fill_row(1, 5);
    a.fill_column(2, 7);
    assert_eq!(a.get(0, 1), Some(5));
    assert_eq!(a.get(1, 1), Some(5));
    assert_eq!(a.get(2, 1), Some(7));
    assert_eq!(a.get(2, 0), Some(7));
    assert_eq!(a.get(0, 0), None);
}

#[test]
fn snapshot_board_layout_and_selection() {
    let mut b = game::Board::new(PieceColor::White);
    assert_eq!(b.orientation(), PieceColor::White);
    assert!(b.selection().is_none());
    let pieces = b.pieces();
    let king = pieces.get(4, 0).unwrap();
    assert_eq!(king.kind(), PieceKind::King);
    assert_eq!(king.color(), PieceColor::Black);
    let pawn = pieces.get(3, 6).unwrap();
    assert_eq!(pawn.kind(), PieceKind::Pawn);
    assert_eq!(pawn.color(), PieceColor::White);
    assert!(pieces.get(3, 3).is_none());
    // Selecting an empty cell keeps the selection; a piece takes it.
    b.select(3, 3);
    assert!(b.selection().is_none());
    b.select(4, 7);
    assert_eq!(b.selection(), Some([4, 7]));
}

#[test]
fn snapshot_piece_offsets() {
    let p = SnapshotPiece::new(PieceKind::Knight, PieceColor::White);
    let moves = p.moves(PieceColor::White, 3, 3);
    assert_eq!(moves.len(), 8);
    // Oriented for its own colour, the first raw offset (1, 2) advances
    // away from the viewer.
    assert_eq!(moves[0], [4, 1]);
    let moves = p.moves(PieceColor::Black, 3, 3);
    assert_eq!(moves[0], [4, 5]);
    let q = SnapshotPiece::new(PieceKind::Qween, PieceColor::White);
    assert_eq!(q.moves(PieceColor::White, 0, 0).len(), 56);
    assert_eq!(PieceKind::Qween.id(), "qween");
    assert_eq!(PieceColor::Black.id(), "black");
}
