//! A verified tic-tac-toe engine: a 3x3 board with turn, winner and
//! terminal-state classification, successor enumeration, and an exhaustive
//! minimax search that picks the game-optimal next move.

pub mod ai;
pub mod board;
pub mod session;

pub use ai::Ai;
pub use board::Board;
pub use board::Cell;
pub use board::Player;
