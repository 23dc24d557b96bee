//! A turn-based grid game between a human and the computer: the board, the
//! detection of wins and draws, a negamax-style move search and the decisions
//! of each turn.

pub mod board;
pub mod outcome;
pub mod search;
pub mod turn;
