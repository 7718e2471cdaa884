//! The census of pieces: how many of each shape are on the board and in the
//! hands together, whatever their colour and whether promoted or not.

use super::board::{first_absent, lemma_first_absent, initial_position, Position};
use super::{Move, Piece};
use vstd::prelude::*;

verus! {

/// The shape of a piece: 1 king, 2 gold, 3 silver, 4 bishop, 5 rook,
/// 6 pawn, a promoted piece counting as its plain form; 0 for no piece.
pub open spec fn shape(p: Piece) -> int {
    p.demoted().id() / 2
}

/// How many of the first `n` of `items` have the shape `k`.
pub open spec fn count_shape(items: Seq<Piece>, k: int, n: int) -> int
    decreases n,
{
    if n <= 0 {
        0
    } else if shape(items[n - 1]) == k {
        count_shape(items, k, n - 1) + 1
    } else {
        count_shape(items, k, n - 1)
    }
}

/// How many pieces of the shape `k` the position holds, on the board and in
/// the hands.
pub open spec fn census(pos: Position, k: int) -> int {
    count_shape(pos.squares, k, pos.squares.len() as int) + count_shape(
        pos.hands,
        k,
        pos.hands.len() as int,
    )
}

/// The move does what it says: the piece it names is the one it lifts, from
/// a square other than the destination or out of a hand slot onto a free
/// square.
pub open spec fn faithful(pos: Position, m: Move) -> bool {
    &&& m.fits()
    &&& if m.is_drop() {
        pos.hands[m.slot()] == m.piece && pos.squares[m.dst as int] == Piece::Absent
    } else {
        pos.squares[m.src as int] == m.piece && m.src != m.dst
    }
}

/// A captured piece finds a free hand slot.
pub open spec fn has_room(pos: Position, m: Move) -> bool {
    pos.squares[m.dst as int] != Piece::Absent ==> first_absent(pos.hands, 0) < pos.hands.len()
}

/// The position after the first `n` of `moves`.
pub open spec fn played(pos: Position, moves: Seq<Move>, n: int) -> Position
    decreases n,
{
    if n <= 0 {
        pos
    } else {
        played(pos, moves, n - 1).put(moves[n - 1])
    }
}

/// Each of the first `n` of `moves` is faithful where it is played, and
/// finds room for what it captures.
pub open spec fn playable(pos: Position, moves: Seq<Move>, n: int) -> bool
    decreases n,
{
    if n <= 0 {
        true
    } else {
        &&& playable(pos, moves, n - 1)
        &&& faithful(played(pos, moves, n - 1), moves[n - 1])
        &&& has_room(played(pos, moves, n - 1), moves[n - 1])
    }
}

/// Replacing one entry changes the count by what left and what came.
pub proof fn lemma_count_update(items: Seq<Piece>, k: int, n: int, i: int, p: Piece)
    requires
        0 <= i < items.len(),
        0 <= n <= items.len(),
    ensures
        count_shape(items.update(i, p), k, n) == count_shape(items, k, n) + if i < n {
            (if shape(p) == k {
                1int
            } else {
                0int
            }) - (if shape(items[i]) == k {
                1int
            } else {
                0int
            })
        } else {
            0int
        },
    decreases n,
{
    if n > 0 {
        lemma_count_update(items, k, n - 1, i, p);
    }
}

/// Promoting, demoting and changing colour keep the shape.
pub proof fn lemma_shape_kept(p: Piece)
    ensures
        shape(p.flipped().demoted()) == shape(p),
        p.is_promotable() ==> shape(p.promoted()) == shape(p),
        shape(Piece::Absent) == 0,
{
}

/// A faithful move that finds room for what it captures keeps the number of
/// pieces of every shape.
pub proof fn lemma_census_kept(pos: Position, m: Move, k: int)
    requires
        pos.wf(),
        faithful(pos, m),
        has_room(pos, m),
        1 <= k,
    ensures
        census(pos.put(m), k) == census(pos, k),
        pos.put(m).wf(),
{
    let took = pos.squares[m.dst as int];
    let placed = Position::placed(m);
    lemma_shape_kept(took);
    lemma_shape_kept(m.piece);
    if m.is_drop() {
        lemma_count_update(pos.hands, k, 10, m.slot(), Piece::Absent);
        lemma_count_update(pos.squares, k, 25, m.dst as int, placed);
    } else {
        let lifted = pos.squares.update(m.src as int, Piece::Absent);
        lemma_count_update(pos.squares, k, 25, m.src as int, Piece::Absent);
        lemma_count_update(lifted, k, 25, m.dst as int, placed);
        if took != Piece::Absent {
            let slot = first_absent(pos.hands, 0);
            lemma_first_absent(pos.hands, 0);
            lemma_count_update(pos.hands, k, 10, slot, took.flipped().demoted());
        }
    }
}

/// Playing faithful moves, each finding room for what it captures, keeps
/// the number of pieces of every shape.
pub proof fn lemma_census_kept_in_play(pos: Position, moves: Seq<Move>, n: int, k: int)
    requires
        pos.wf(),
        0 <= n <= moves.len(),
        playable(pos, moves, n),
        1 <= k,
    ensures
        census(played(pos, moves, n), k) == census(pos, k),
        played(pos, moves, n).wf(),
    decreases n,
{
    if n > 0 {
        lemma_census_kept_in_play(pos, moves, n - 1, k);
        lemma_census_kept(played(pos, moves, n - 1), moves[n - 1], k);
    }
}

/// From the initial position on, the material stays what it was: two of
/// each shape.
pub proof fn lemma_material_from_start(moves: Seq<Move>, n: int, k: int)
    requires
        0 <= n <= moves.len(),
        playable(initial_position(), moves, n),
        1 <= k <= 6,
    ensures
        census(played(initial_position(), moves, n), k) == 2,
{
    lemma_census_kept_in_play(initial_position(), moves, n, k);
    reveal_with_fuel(count_shape, 26);
    assert(census(initial_position(), k) == 2);
}

/// No hand slot holds a promoted piece.
pub open spec fn hands_plain(pos: Position) -> bool {
    forall|i: int| 0 <= i < pos.hands.len() ==> !(#[trigger] pos.hands[i]).is_promoted()
}

/// A captured piece goes to the hand in its plain form: if no promoted
/// piece is in hand before a move, none is after it.
pub proof fn lemma_hands_stay_plain(pos: Position, m: Move)
    requires
        pos.wf(),
        m.fits(),
        hands_plain(pos),
    ensures
        hands_plain(pos.put(m)),
{
    let emptied = if m.is_drop() {
        pos.hands.update(m.slot(), Piece::Absent)
    } else {
        pos.hands
    };
    lemma_first_absent(emptied, 0);
    let took = pos.squares[m.dst as int];
    assert(!took.flipped().demoted().is_promoted());
}

} // verus!
