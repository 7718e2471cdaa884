//! The position model: sides, pieces, moves and the board.

pub mod board;
pub mod board_gen;
pub mod display;
pub mod material;
pub mod moves;
pub mod piece;
pub mod turn;

pub use self::board::Board;
pub use self::moves::Move;
pub use self::piece::Piece;
pub use self::turn::Turn;
