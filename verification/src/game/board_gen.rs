//! Reading a board from its notation.
//!
//! A board is written as tokens of four characters, separated by commas.
//! A piece on the board is `<column><row><side><kind>`, as in `31wk`; a
//! piece in hand is `__<side><kind>`, as in `__bg`.  Columns and rows run
//! from 1 to 5; the side is `b` or `w`; the kind is one of `k g s b r p`, or
//! one of `S B R P` for a promoted piece.

use super::board::{empty_position, free_slot, stowed, Position};
use super::{Board, Piece, Turn};
use vstd::prelude::*;
use vstd::string::StringSliceAdditionalSpecFns;

verus! {

/// The byte of the character `k`.
pub const LOWER_K: u8 = 107;

/// The byte of the character `g`.
pub const LOWER_G: u8 = 103;

/// The byte of the character `s`.
pub const LOWER_S: u8 = 115;

/// The byte of the character `b`.
pub const LOWER_B: u8 = 98;

/// The byte of the character `r`.
pub const LOWER_R: u8 = 114;

/// The byte of the character `p`.
pub const LOWER_P: u8 = 112;

/// The byte of the character `w`.
pub const LOWER_W: u8 = 119;

/// The byte of the character `S`.
pub const UPPER_S: u8 = 83;

/// The byte of the character `B`.
pub const UPPER_B: u8 = 66;

/// The byte of the character `R`.
pub const UPPER_R: u8 = 82;

/// The byte of the character `P`.
pub const UPPER_P: u8 = 80;

/// The byte of the character `_`.
pub const UNDERSCORE: u8 = 95;

/// The byte of the character `,`.
pub const COMMA: u8 = 44;

/// The byte of the character `1`.
pub const DIGIT_1: u8 = 49;

/// The byte of the character `5`.
pub const DIGIT_5: u8 = 53;

/// The Black piece that a kind letter stands for; `Invalid` for any other byte.
pub open spec fn kind_of(c: u8) -> Piece {
    if c == LOWER_K {
        Piece::BKing
    } else if c == LOWER_G {
        Piece::BGold
    } else if c == LOWER_S {
        Piece::BSilver
    } else if c == LOWER_B {
        Piece::BBishop
    } else if c == LOWER_R {
        Piece::BRook
    } else if c == LOWER_P {
        Piece::BPawn
    } else if c == UPPER_S {
        Piece::BSilverP
    } else if c == UPPER_B {
        Piece::BBishopP
    } else if c == UPPER_R {
        Piece::BRookP
    } else if c == UPPER_P {
        Piece::BPawnP
    } else {
        Piece::Invalid
    }
}

/// A digit from `1` to `5`.
pub open spec fn is_coordinate(c: u8) -> bool {
    DIGIT_1 <= c <= DIGIT_5
}

/// The square in column `col` and row `row`, both given as digits.
pub open spec fn square_of(col: u8, row: u8) -> int {
    (row - DIGIT_1) * 5 + (DIGIT_5 - col)
}

/// The side that a side letter stands for.
pub open spec fn side_of(c: u8) -> Turn {
    if c == LOWER_B {
        Turn::Black
    } else {
        Turn::White
    }
}

/// The token `i` of `bytes` names a hand piece.
pub open spec fn in_hand(bytes: Seq<u8>, i: int) -> bool {
    bytes[5 * i] == UNDERSCORE && bytes[5 * i + 1] == UNDERSCORE
}

/// The token `i` of `bytes` is well formed, and so is the comma after it if
/// it is not the last.
pub open spec fn token_ok(bytes: Seq<u8>, i: int) -> bool {
    &&& in_hand(bytes, i) || (is_coordinate(bytes[5 * i]) && is_coordinate(bytes[5 * i + 1]))
    &&& bytes[5 * i + 2] == LOWER_B || bytes[5 * i + 2] == LOWER_W
    &&& kind_of(bytes[5 * i + 3]) != Piece::Invalid
    &&& 5 * i + 4 < bytes.len() ==> bytes[5 * i + 4] == COMMA
}

/// `bytes` is a list of well-formed tokens with commas between them.
pub open spec fn well_formed(bytes: Seq<u8>) -> bool {
    &&& bytes.len() % 5 == 4
    &&& forall|i: int| 0 <= i < (bytes.len() + 1) / 5 ==> token_ok(bytes, i)
}

/// The piece that the token `i` of `bytes` names.
pub open spec fn token_piece(bytes: Seq<u8>, i: int) -> Piece {
    kind_of(bytes[5 * i + 3]).colored(side_of(bytes[5 * i + 2]))
}

/// The position that the first `n` tokens of `bytes` describe: each piece
/// on its square, a later one replacing an earlier one there; each hand
/// piece in the first free slot, and left out if none is free.
pub open spec fn described(bytes: Seq<u8>, n: int) -> Position
    decreases n,
{
    if n <= 0 {
        empty_position()
    } else {
        let before = described(bytes, n - 1);
        let piece = token_piece(bytes, n - 1);
        if in_hand(bytes, n - 1) {
            Position { hands: stowed(before.hands, piece), ..before }
        } else {
            Position {
                squares: before.squares.update(
                    square_of(bytes[5 * (n - 1)], bytes[5 * (n - 1) + 1]),
                    piece,
                ),
                ..before
            }
        }
    }
}

/// The board that `bytes` describes, if they are well formed.
pub open spec fn board_of(bytes: Seq<u8>) -> Option<Position> {
    if well_formed(bytes) {
        Some(described(bytes, (bytes.len() as int + 1) / 5))
    } else {
        None
    }
}

/// The Black piece that a kind letter stands for; `Invalid` for any other byte.
pub fn piece_repr(p: u8) -> (piece: Piece)
    ensures
        piece == kind_of(p),
{
    if p == LOWER_K {
        Piece::BKing
    } else if p == LOWER_G {
        Piece::BGold
    } else if p == LOWER_S {
        Piece::BSilver
    } else if p == LOWER_B {
        Piece::BBishop
    } else if p == LOWER_R {
        Piece::BRook
    } else if p == LOWER_P {
        Piece::BPawn
    } else if p == UPPER_S {
        Piece::BSilverP
    } else if p == UPPER_B {
        Piece::BBishopP
    } else if p == UPPER_R {
        Piece::BRookP
    } else if p == UPPER_P {
        Piece::BPawnP
    } else {
        Piece::Invalid
    }
}

/// The board that the bytes of a notation describe; `None` if they are not
/// well formed.
pub fn from_bytes(chars: &[u8]) -> (board: Option<Board>)
    ensures
        match board {
            Some(b) => board_of(chars@) == Some(b@),
            None => board_of(chars@).is_none(),
        },
{
    let n = chars.len();
    if n % 5 != 4 {
        return None;
    }
    let tokens: usize = n / 5 + 1;
    let mut board = Board::empty();
    let mut i: usize = 0;
    while i < tokens
        invariant
            i <= tokens,
            n == chars@.len(),
            n % 5 == 4,
            tokens == (n + 1) / 5,
            forall|j: int| 0 <= j < i ==> token_ok(chars@, j),
            board@ == described(chars@, i as int),
            board@.wf(),
        decreases tokens - i,
    {
        let col = chars[i * 5];
        let row = chars[i * 5 + 1];
        let side = chars[i * 5 + 2];
        let kind = piece_repr(chars[i * 5 + 3]);
        let hand = col == UNDERSCORE && row == UNDERSCORE;
        let placed = DIGIT_1 <= col && col <= DIGIT_5 && DIGIT_1 <= row && row <= DIGIT_5;
        if !(hand || placed) || !(side == LOWER_B || side == LOWER_W) || kind == Piece::Invalid {
            proof {
                assert(!token_ok(chars@, i as int));
            }
            return None;
        }
        if i * 5 + 4 < n && chars[i * 5 + 4] != COMMA {
            proof {
                assert(!token_ok(chars@, i as int));
            }
            return None;
        }
        let turn = if side == LOWER_B {
            Turn::Black
        } else {
            Turn::White
        };
        let piece = kind.of_turn(turn);
        if hand {
            let slot = free_slot(&board.hands);
            if slot < 10 {
                board.hands[slot] = piece;
            }
            proof {
                assert(board@.hands =~= described(chars@, i + 1).hands);
            }
        } else {
            let pos: u8 = (row - DIGIT_1) * 5 + (DIGIT_5 - col);
            board.squares[pos as usize] = piece;
            proof {
                assert(board@.squares =~= described(chars@, i + 1).squares);
            }
        }
        i += 1;
    }
    Some(board)
}

/// The board that a notation describes; `None` if it is not well formed.
pub fn from_str(s: &str) -> (board: Option<Board>)
    ensures
        match board {
            Some(b) => board_of(s.spec_bytes()) == Some(b@),
            None => board_of(s.spec_bytes()).is_none(),
        },
{
    from_bytes(s.as_bytes())
}

} // verus!
