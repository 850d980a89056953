pub mod board;
pub mod database;
pub mod evaluate;
pub mod fen;
pub mod search;
pub mod moves;
pub mod utils;

pub use board::Bitboard;
pub use board::Board;
pub use board::Color;
pub use board::Move;
pub use board::PieceKind;
pub use search::find_best_move;
