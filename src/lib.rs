//! An interactive chessboard: the board, per-piece move generation, move
//! application, turn alternation and the two-click selection protocol.
pub mod board;
pub mod rules;
pub mod game;
