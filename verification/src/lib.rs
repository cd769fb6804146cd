//! A rules engine for standard chess.
//!
//! The crate owns the board state, enforces per-piece movement legality,
//! detects check, enumerates legal moves and classifies terminal game
//! states (checkmate / stalemate).  Castling, en passant, promotion and
//! the draw counters are out of scope.

pub mod board;
pub mod fen;
pub mod game;
pub mod notation;
pub mod parser;
pub mod piece;
pub mod player;
pub mod rules;
pub mod validator;
