//! Reading a move as a player types it.
//!
//! A step is written `<column><row><column><row>`, source first, with a
//! trailing `p` to promote, as in `3231p`; a drop is the kind letter and the
//! destination, as in `g32`.

use crate::game::board::{find_hand, first_of, Position};
use crate::game::board_gen::{
    is_coordinate, kind_of, piece_repr, square_of, DIGIT_1, DIGIT_5, LOWER_P,
};
use crate::game::moves::DROP_BASE;
use crate::game::{Board, Move, Piece};
use vstd::prelude::*;

verus! {

/// The move that `bytes` spell on `pos`, if they spell one.
///
/// A text that starts with a coordinate digit is a step: it needs four
/// coordinate digits, moves whatever stands on the source, and promotes if
/// a `p` follows.  Any other text is a drop: it needs a kind letter and two
/// coordinate digits, and the piece must be in a hand slot of the side to
/// move, of which the first is taken.
pub open spec fn spelled(pos: Position, bytes: Seq<u8>) -> Option<Move> {
    if bytes.len() >= 1 && is_coordinate(bytes[0]) {
        if bytes.len() >= 4 && is_coordinate(bytes[1]) && is_coordinate(bytes[2])
            && is_coordinate(bytes[3]) {
            let src = square_of(bytes[0], bytes[1]);
            Some(
                Move {
                    piece: pos.squares[src],
                    src: src as u8,
                    dst: square_of(bytes[2], bytes[3]) as u8,
                    promote: bytes.len() >= 5 && bytes[4] == LOWER_P,
                },
            )
        } else {
            None
        }
    } else if bytes.len() >= 3 && kind_of(bytes[0]) != Piece::Invalid && is_coordinate(bytes[1])
        && is_coordinate(bytes[2]) {
        let piece = kind_of(bytes[0]).colored(pos.turn);
        let slot = first_of(pos.hands, piece, 0);
        if slot < pos.hands.len() {
            Some(
                Move {
                    piece,
                    src: (DROP_BASE + slot) as u8,
                    dst: square_of(bytes[1], bytes[2]) as u8,
                    promote: false,
                },
            )
        } else {
            None
        }
    } else {
        None
    }
}

/// The square in column `x` and row `y`, both given as digits from `1` to `5`.
pub fn to_pos(x: u8, y: u8) -> (pos: u8)
    requires
        is_coordinate(x),
        is_coordinate(y),
    ensures
        pos == square_of(x, y),
        pos < 25,
{
    (y - DIGIT_1) * 5 + (DIGIT_5 - x)
}

/// Whether `c` is a digit from `1` to `5`.
fn coordinate(c: u8) -> (yes: bool)
    ensures
        yes == is_coordinate(c),
{
    DIGIT_1 <= c && c <= DIGIT_5
}

/// The move that `bytes` spell on `b`; `None` if they spell none.
pub fn parse_bytes(b: &Board, bytes: &[u8]) -> (m: Option<Move>)
    ensures
        m == spelled(b@, bytes@),
{
    let n = bytes.len();
    if n >= 1 && coordinate(bytes[0]) {
        if n >= 4 && coordinate(bytes[1]) && coordinate(bytes[2]) && coordinate(bytes[3]) {
            let src = to_pos(bytes[0], bytes[1]);
            let dst = to_pos(bytes[2], bytes[3]);
            Some(Move::new(&b.squares[src as usize], src, dst, n >= 5 && bytes[4] == LOWER_P))
        } else {
            None
        }
    } else if n >= 3 && coordinate(bytes[1]) && coordinate(bytes[2]) {
        let kind = piece_repr(bytes[0]);
        if kind == Piece::Invalid {
            return None;
        }
        let dst = to_pos(bytes[1], bytes[2]);
        let piece = kind.of_turn(b.turn);
        let slot = find_hand(&b.hands, piece);
        if slot < 10 {
            Some(Move::new(&piece, DROP_BASE + slot as u8, dst, false))
        } else {
            None
        }
    } else {
        None
    }
}

/// The move that the text `s` spells on `b`; `None` if it spells none.
pub fn parse(b: &Board, s: String) -> (m: Option<Move>)
    ensures
        m == spelled(b@, vstd::utf8::encode_utf8(s@)),
{
    parse_bytes(b, s.as_str().as_bytes())
}

} // verus!
