//! A two-player chess rule engine: board state, legal-move enumeration under
//! full chess law (castling, en passant, promotion), check / checkmate /
//! stalemate / dead-position detection, and move execution.
//!
//! The engine is pure: it consumes square coordinates and returns plain
//! values, with no dependency on rendering, audio or windowing.

pub mod board;
pub mod engine;
pub mod game;
pub mod laws;
pub mod model;
pub mod moves;
pub mod piece;
pub mod utils;
