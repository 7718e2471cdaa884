use vstd::prelude::*;

verus! {

/// The side to move.
#[derive(Copy, Clone, Debug, PartialEq, Eq, Structural, Hash)]
pub enum Turn {
    Black,
    White,
}

impl Turn {
    /// The other side.
    pub open spec fn other(self) -> Turn {
        match self {
            Turn::Black => Turn::White,
            Turn::White => Turn::Black,
        }
    }

    /// The sign by which a score counted for Black is turned into one for this side.
    pub open spec fn sign(self) -> int {
        match self {
            Turn::Black => 1,
            Turn::White => -1,
        }
    }

    /// The side that moves after this one.
    #[verifier::when_used_as_spec(other)]
    pub fn next(self) -> (t: Turn)
        ensures
            t == self.other(),
    {
        match self {
            Turn::Black => Turn::White,
            Turn::White => Turn::Black,
        }
    }

    /// `1` for Black and `-1` for White.
    pub fn val(self) -> (v: i8)
        ensures
            v == self.sign(),
    {
        match self {
            Turn::Black => 1,
            Turn::White => -1,
        }
    }
}

/// Passing the move twice gives it back to the same side.
pub proof fn lemma_next_is_involution(t: Turn)
    ensures
        t.other().other() == t,
        t.other() != t,
        t.other().sign() == -t.sign(),
{
}

} // verus!
