//! The static evaluation: material on the board and in hand, and how close
//! the mover's pieces stand to the other king.

use super::move_gen::king_square;
use crate::game::board::{find_piece, Position};
use crate::game::moves::SQUARES;
use crate::game::{Board, Piece, Turn};
use vstd::prelude::*;

verus! {

/// The worth of the king; every other piece is worth less.
pub const KING_WORTH: i32 = 5000;

/// What a piece is worth, whatever its colour.
pub open spec fn worth(p: Piece) -> int {
    match p {
        Piece::BKing | Piece::WKing => 5000,
        Piece::BGold | Piece::WGold => 567,
        Piece::BSilver | Piece::WSilver => 528,
        Piece::BBishop | Piece::WBishop => 951,
        Piece::BRook | Piece::WRook => 1087,
        Piece::BPawn | Piece::WPawn => 93,
        Piece::BSilverP | Piece::WSilverP => 582,
        Piece::BBishopP | Piece::WBishopP => 1101,
        Piece::BRookP | Piece::WRookP => 1550,
        Piece::BPawnP | Piece::WPawnP => 598,
        _ => 0,
    }
}

/// A number counted for Black, seen by `side`: itself for Black, its
/// opposite for White.  It is the number times `side.sign()`.
pub open spec fn signed(x: int, side: Turn) -> int {
    match side {
        Turn::Black => x,
        Turn::White => -x,
    }
}

/// The worth of a piece counted for Black: positive for a Black piece,
/// negative for a White one.
pub open spec fn value_of(p: Piece) -> int {
    signed(worth(p), p.color())
}

/// The value of a piece in hand: nine tenths of its worth, rounded towards
/// zero, with the sign of its colour.
pub open spec fn hand_value_of(p: Piece) -> int {
    signed(worth(p) * 9 / 10, p.color())
}

/// The sum of the values of the first `n` squares.
pub open spec fn material(squares: Seq<Piece>, n: int) -> int
    decreases n,
{
    if n <= 0 {
        0
    } else {
        material(squares, n - 1) + value_of(squares[n - 1])
    }
}

/// The sum of the hand values of the first `n` hand slots.
pub open spec fn hand_material(hands: Seq<Piece>, n: int) -> int
    decreases n,
{
    if n <= 0 {
        0
    } else {
        hand_material(hands, n - 1) + hand_value_of(hands[n - 1])
    }
}

/// The absolute value.
pub open spec fn abs(x: int) -> int {
    if x < 0 {
        -x
    } else {
        x
    }
}

/// The number of king steps between two squares.
pub open spec fn distance(a: int, b: int) -> int {
    let dy = abs(a / 5 - b / 5);
    let dx = abs(a % 5 - b % 5);
    if dy >= dx {
        dy
    } else {
        dx
    }
}

/// The sum, over the pieces of `side` on the first `n` squares, of their
/// distances to `target`.
pub open spec fn distances(squares: Seq<Piece>, side: Turn, target: int, n: int) -> int
    decreases n,
{
    if n <= 0 {
        0
    } else if squares[n - 1].is_real() && squares[n - 1].color() == side {
        distances(squares, side, target, n - 1) + distance(target, n - 1)
    } else {
        distances(squares, side, target, n - 1)
    }
}

/// How far the mover's pieces stand from the other king, summed; zero if that
/// king is not on the board.
pub open spec fn remoteness(pos: Position) -> int {
    let target = king_square(pos, pos.turn.other());
    if target < pos.squares.len() {
        distances(pos.squares, pos.turn, target, pos.squares.len() as int)
    } else {
        0
    }
}

/// Material on the board and in hand, counted for Black.
pub open spec fn balance(pos: Position) -> int {
    material(pos.squares, pos.squares.len() as int) + hand_material(
        pos.hands,
        pos.hands.len() as int,
    )
}

/// The score of `pos` for the side to move.
pub open spec fn score_of(pos: Position) -> int {
    signed(balance(pos), pos.turn) - remoteness(pos)
}

/// What a piece is worth, whatever its colour.
pub fn piece_worth(p: Piece) -> (w: i32)
    ensures
        w == worth(p),
        0 <= w <= KING_WORTH,
{
    match p {
        Piece::BKing | Piece::WKing => 5000,
        Piece::BGold | Piece::WGold => 567,
        Piece::BSilver | Piece::WSilver => 528,
        Piece::BBishop | Piece::WBishop => 951,
        Piece::BRook | Piece::WRook => 1087,
        Piece::BPawn | Piece::WPawn => 93,
        Piece::BSilverP | Piece::WSilverP => 582,
        Piece::BBishopP | Piece::WBishopP => 1101,
        Piece::BRookP | Piece::WRookP => 1550,
        Piece::BPawnP | Piece::WPawnP => 598,
        _ => 0,
    }
}

/// The number of king steps between two squares.
pub fn king_steps(a: usize, b: usize) -> (d: i32)
    requires
        a < SQUARES,
        b < SQUARES,
    ensures
        d == distance(a as int, b as int),
        0 <= d <= 4,
{
    let ay: i32 = (a / 5) as i32;
    let by: i32 = (b / 5) as i32;
    let ax: i32 = (a % 5) as i32;
    let bx: i32 = (b % 5) as i32;
    let dy: i32 = if ay >= by { ay - by } else { by - ay };
    let dx: i32 = if ax >= bx { ax - bx } else { bx - ax };
    if dy >= dx {
        dy
    } else {
        dx
    }
}

/// Material on the board and in hand, counted for Black.
pub fn material_balance(b: &Board) -> (sum: i32)
    ensures
        sum == balance(b@),
        -175000 <= sum <= 175000,
{
    let mut sum: i32 = 0;
    let mut i: usize = 0;
    while i < 25
        invariant
            i <= 25,
            sum == material(b@.squares, i as int),
            -5000 * i <= sum <= 5000 * i,
        decreases 25 - i,
    {
        let p = b.squares[i];
        let w = piece_worth(p);
        if p.as_u8() % 2 == 0 {
            sum = sum + w;
        } else {
            sum = sum - w;
        }
        i += 1;
    }
    let mut j: usize = 0;
    let mut held: i32 = 0;
    while j < 10
        invariant
            j <= 10,
            held == hand_material(b@.hands, j as int),
            -5000 * j <= held <= 5000 * j,
        decreases 10 - j,
    {
        let p = b.hands[j];
        let w = piece_worth(p) * 9 / 10;
        if p.as_u8() % 2 == 0 {
            held = held + w;
        } else {
            held = held - w;
        }
        j += 1;
    }
    sum + held
}

/// How far the mover's pieces stand from the other king, summed.
pub fn mover_remoteness(b: &Board) -> (sum: i32)
    ensures
        sum == remoteness(b@),
        0 <= sum <= 100,
{
    let target = find_piece(&b.squares, Piece::BKing.of_turn(b.turn.next()));
    if target >= 25 {
        return 0;
    }
    let mut sum: i32 = 0;
    let mut i: usize = 0;
    while i < 25
        invariant
            i <= 25,
            target < 25,
            sum == distances(b@.squares, b@.turn, target as int, i as int),
            0 <= sum <= 4 * i,
        decreases 25 - i,
    {
        let p = b.squares[i];
        if p.as_u8() >= 2 && p.turn() == b.turn {
            sum = sum + king_steps(target, i);
        }
        i += 1;
    }
    sum
}

/// The static score of the board for the side to move.
pub fn evaluate(b: &Board) -> (score: i32)
    ensures
        score == score_of(b@),
        -200000 < score < 200000,
{
    let sum = material_balance(b);
    let distance = mover_remoteness(b);
    match b.turn {
        Turn::Black => sum - distance,
        Turn::White => -sum - distance,
    }
}

/// The piece in the other colour; what is no piece stays what it is.
pub open spec fn recolored(p: Piece) -> Piece {
    if p.is_real() {
        p.flipped()
    } else {
        p
    }
}

/// The square in the same column of the opposite row.
pub open spec fn opposite(square: int) -> int {
    (4 - square / 5) * 5 + square % 5
}

/// The position seen from the other side of the board: the rows in
/// reverse order and every piece in the other colour, with the same side
/// to move.
pub open spec fn mirrored(pos: Position) -> Position {
    Position {
        squares: Seq::new(pos.squares.len(), |i: int| recolored(pos.squares[opposite(i)])),
        hands: Seq::new(pos.hands.len(), |i: int| recolored(pos.hands[i])),
        turn: pos.turn,
        won: pos.won,
    }
}

/// A piece in the other colour has the opposite value, on the board and in hand.
pub proof fn lemma_recolored_value(p: Piece)
    ensures
        value_of(recolored(p)) == -value_of(p),
        hand_value_of(recolored(p)) == -hand_value_of(p),
{
}

/// The material of the squares of one row.
pub open spec fn row_material(squares: Seq<Piece>, row: int) -> int {
    value_of(squares[5 * row]) + value_of(squares[5 * row + 1]) + value_of(squares[5 * row + 2])
        + value_of(squares[5 * row + 3]) + value_of(squares[5 * row + 4])
}

/// The material of the first rows is the sum over these rows.
proof fn lemma_material_by_rows(squares: Seq<Piece>, rows: int)
    requires
        0 <= rows,
    ensures
        material(squares, 5 * rows) == if rows == 0 {
            0
        } else {
            material(squares, 5 * (rows - 1)) + row_material(squares, rows - 1)
        },
{
    if rows > 0 {
        reveal_with_fuel(material, 6);
    }
}

/// The hand material of recoloured hands is the opposite.
proof fn lemma_hands_recolored(hands: Seq<Piece>, n: int)
    requires
        0 <= n <= hands.len(),
    ensures
        hand_material(Seq::new(hands.len(), |i: int| recolored(hands[i])), n) == -hand_material(
            hands,
            n,
        ),
    decreases n,
{
    if n > 0 {
        lemma_hands_recolored(hands, n - 1);
        lemma_recolored_value(hands[n - 1]);
    }
}

/// Mirroring a position turns its material balance into the opposite.
pub proof fn lemma_mirrored_balance(pos: Position)
    requires
        pos.wf(),
    ensures
        balance(mirrored(pos)) == -balance(pos),
{
    let a = pos.squares;
    let b = mirrored(pos).squares;
    lemma_hands_recolored(pos.hands, 10);
    assert forall|r: int| 0 <= r < 5 implies row_material(b, r) == -row_material(a, 4 - r) by {
        lemma_recolored_value(a[5 * (4 - r)]);
        lemma_recolored_value(a[5 * (4 - r) + 1]);
        lemma_recolored_value(a[5 * (4 - r) + 2]);
        lemma_recolored_value(a[5 * (4 - r) + 3]);
        lemma_recolored_value(a[5 * (4 - r) + 4]);
        assert(opposite(5 * r) == 5 * (4 - r));
        assert(opposite(5 * r + 1) == 5 * (4 - r) + 1);
        assert(opposite(5 * r + 2) == 5 * (4 - r) + 2);
        assert(opposite(5 * r + 3) == 5 * (4 - r) + 3);
        assert(opposite(5 * r + 4) == 5 * (4 - r) + 4);
    }
    lemma_material_by_rows(a, 5);
    lemma_material_by_rows(a, 4);
    lemma_material_by_rows(a, 3);
    lemma_material_by_rows(a, 2);
    lemma_material_by_rows(a, 1);
    lemma_material_by_rows(a, 0);
    lemma_material_by_rows(b, 5);
    lemma_material_by_rows(b, 4);
    lemma_material_by_rows(b, 3);
    lemma_material_by_rows(b, 2);
    lemma_material_by_rows(b, 1);
    lemma_material_by_rows(b, 0);
    assert(row_material(b, 0) == -row_material(a, 4));
    assert(row_material(b, 1) == -row_material(a, 3));
    assert(row_material(b, 2) == -row_material(a, 2));
    assert(row_material(b, 3) == -row_material(a, 1));
    assert(row_material(b, 4) == -row_material(a, 0));
}

/// Mirroring a position turns its score into the opposite, wherever the
/// score is material alone: that is, where in neither position a piece of
/// the mover stands off the square of the other king.
pub proof fn lemma_mirrored_score(pos: Position)
    requires
        pos.wf(),
        remoteness(pos) == 0,
        remoteness(mirrored(pos)) == 0,
    ensures
        score_of(mirrored(pos)) == -score_of(pos),
{
    lemma_mirrored_balance(pos);
}

/// In general the scores of a position and of its mirror image add up to
/// the two distance terms, taken negative.
pub proof fn lemma_mirrored_score_sum(pos: Position)
    requires
        pos.wf(),
    ensures
        score_of(mirrored(pos)) + score_of(pos) == -remoteness(mirrored(pos)) - remoteness(pos),
{
    lemma_mirrored_balance(pos);
}

} // verus!
