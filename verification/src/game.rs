//! A self-contained board snapshot: pieces as (kind, colour) pairs laid
//! out on an [`crate::utils::Array2D`] grid, with a selection and an
//! orientation, and per-kind move offsets.

pub mod board;
pub mod piece;

pub use board::{Board, BOARD_HEIGHT, BOARD_WIDTH};
pub use piece::BoardOrientation;
pub use piece::Piece;
