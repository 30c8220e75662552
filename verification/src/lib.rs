//! A 3x3 tic-tac-toe engine: board representation, win and draw detection,
//! and a one-ply heuristic computer opponent, all with verified contracts.

pub mod ai;
pub mod board;
pub mod game;

pub use board::CellValue;
pub use board::TCell;
pub use game::FirstPlayer;
pub use game::Hardness;
pub use game::Message;
pub use game::Tictactoe;
pub use game::Winner;
