//! The one-ply mate detector.

use super::legal::lemma_moves_legal;
use super::move_gen::{
    evasion_moves, evasions_of, in_check, is_checked, moves_of, valid_moves,
};
use super::rays::MoveTable;
use crate::game::board::Position;
use crate::game::{Board, Move};
use vstd::prelude::*;

verus! {

/// What the detector found for the side to move.
#[derive(Copy, Clone, Debug, PartialEq, Eq, Structural)]
pub enum MateResult {
    Unknown,
    Win,
    Lose,
}

/// The side to move is in check and no move resolves it.
pub open spec fn mated(pos: Position) -> bool {
    in_check(pos) && evasions_of(pos).len() == 0
}

/// Some move of the side to move leaves the other side mated.
pub open spec fn can_mate(pos: Position) -> bool {
    exists|i: int|
        0 <= i < moves_of(pos, pos.turn, true).len() && mated(
            pos.put(#[trigger] moves_of(pos, pos.turn, true)[i]),
        )
}

/// The verdict on `pos`: lost if the side to move is mated, won if it can
/// mate in one move, unknown otherwise.
pub open spec fn mate_of(pos: Position) -> MateResult {
    if mated(pos) {
        MateResult::Lose
    } else if can_mate(pos) {
        MateResult::Win
    } else {
        MateResult::Unknown
    }
}

/// Whether the side to move is in check with no evasion.
pub fn is_mated(b: &Board, table: &MoveTable) -> (yes: bool)
    requires
        table.wf(),
    ensures
        yes == mated(b@),
{
    is_checked(b, table) && evasion_moves(b, table).len() == 0
}

/// The verdict of the one-ply mate search on `b`.
pub fn is_checkmate(b: &Board, table: &MoveTable) -> (r: MateResult)
    requires
        table.wf(),
    ensures
        r == mate_of(b@),
{
    if is_mated(b, table) {
        return MateResult::Lose;
    }
    let moves = valid_moves(b, b.turn, true, table);
    let mut next_board = b.duplicate();
    let mut i: usize = 0;
    while i < moves.len()
        invariant
            i <= moves.len(),
            table.wf(),
            moves@ == moves_of(b@, b@.turn, true),
            !mated(b@),
            forall|j: int| 0 <= j < i ==> !mated(b@.put(#[trigger] moves@[j])),
        decreases moves.len() - i,
    {
        let m = moves[i];
        proof {
            b.lemma_wf();
            lemma_moves_legal(b@, b@.turn, true, i as int);
        }
        next_board.copy_from(b);
        next_board.put_move(&m);
        if is_mated(&next_board, table) {
            proof {
                assert(mated(b@.put(moves_of(b@, b@.turn, true)[i as int])));
            }
            return MateResult::Win;
        }
        i += 1;
    }
    MateResult::Unknown
}

/// A position that the detector calls lost is one in which the side to move
/// is in check and has no evasion.
pub proof fn lemma_lose_is_mate(pos: Position)
    requires
        mate_of(pos) == MateResult::Lose,
    ensures
        in_check(pos),
        evasions_of(pos) == Seq::<Move>::empty(),
{
    assert(evasions_of(pos) =~= Seq::<Move>::empty());
}

} // verus!
