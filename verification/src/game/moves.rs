use super::Piece;
use vstd::prelude::*;

verus! {

/// Number of squares of the board.
pub const SQUARES: u8 = 25;

/// Number of hand slots.
pub const HAND_SLOTS: u8 = 10;

/// A source at or above this number names a hand slot: the move is a drop.
pub const DROP_BASE: u8 = 100;

/// One move: the piece that moves, where it comes from, where it goes, and
/// whether it promotes on arrival.
///
/// `src` below `SQUARES` is a square of the board; `DROP_BASE + h` is the hand
/// slot `h`.
#[derive(Copy, Clone, Debug, PartialEq, Eq, Structural, PartialOrd, Ord, Hash)]
pub struct Move {
    pub piece: Piece,
    pub src: u8,
    pub dst: u8,
    pub promote: bool,
}

impl Move {
    /// The move places a piece out of a hand.
    pub open spec fn is_drop(self) -> bool {
        self.src >= DROP_BASE
    }

    /// The hand slot of a drop.
    pub open spec fn slot(self) -> int {
        self.src - DROP_BASE
    }

    /// Source and destination name a square or a hand slot that exists, and
    /// only a promotable piece is asked to promote.
    pub open spec fn fits(self) -> bool {
        &&& self.dst < SQUARES
        &&& (self.src < SQUARES || DROP_BASE <= self.src < DROP_BASE + HAND_SLOTS)
        &&& (self.promote ==> self.piece.is_promotable())
    }

    /// The move with these four parts.
    pub fn new(piece: &Piece, src: u8, dst: u8, promote: bool) -> (m: Move)
        ensures
            m == (Move { piece: *piece, src, dst, promote }),
    {
        Move { piece: *piece, src, dst, promote }
    }
}

} // verus!
