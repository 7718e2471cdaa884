use super::Turn;
use vstd::prelude::*;

verus! {

/// What a square or a hand slot holds.
///
/// The pieces are numbered so that a piece and its counterpart of the other
/// colour are neighbours (Black even, White odd), and so that the promoted form
/// of a piece is eight above its plain form.
#[derive(Copy, Clone, Debug, PartialEq, Eq, Structural, PartialOrd, Ord, Hash)]
pub enum Piece {
    Absent,
    Invalid,
    BKing,
    WKing,
    BGold,
    WGold,
    BSilver,
    WSilver,
    BBishop,
    WBishop,
    BRook,
    WRook,
    BPawn,
    WPawn,
    BSilverP,
    WSilverP,
    BBishopP,
    WBishopP,
    BRookP,
    WRookP,
    BPawnP,
    WPawnP,
}

/// Number of distinct piece numbers.
pub const PIECE_KINDS: u8 = 22;

impl Piece {
    /// The number of this piece.
    pub open spec fn id(self) -> int {
        match self {
            Piece::Absent => 0,
            Piece::Invalid => 1,
            Piece::BKing => 2,
            Piece::WKing => 3,
            Piece::BGold => 4,
            Piece::WGold => 5,
            Piece::BSilver => 6,
            Piece::WSilver => 7,
            Piece::BBishop => 8,
            Piece::WBishop => 9,
            Piece::BRook => 10,
            Piece::WRook => 11,
            Piece::BPawn => 12,
            Piece::WPawn => 13,
            Piece::BSilverP => 14,
            Piece::WSilverP => 15,
            Piece::BBishopP => 16,
            Piece::WBishopP => 17,
            Piece::BRookP => 18,
            Piece::WRookP => 19,
            Piece::BPawnP => 20,
            Piece::WPawnP => 21,
        }
    }

    /// The piece with number `i`; `Invalid` for a number that no piece has.
    pub open spec fn of_id(i: int) -> Piece {
        if i == 0 {
            Piece::Absent
        } else if i == 2 {
            Piece::BKing
        } else if i == 3 {
            Piece::WKing
        } else if i == 4 {
            Piece::BGold
        } else if i == 5 {
            Piece::WGold
        } else if i == 6 {
            Piece::BSilver
        } else if i == 7 {
            Piece::WSilver
        } else if i == 8 {
            Piece::BBishop
        } else if i == 9 {
            Piece::WBishop
        } else if i == 10 {
            Piece::BRook
        } else if i == 11 {
            Piece::WRook
        } else if i == 12 {
            Piece::BPawn
        } else if i == 13 {
            Piece::WPawn
        } else if i == 14 {
            Piece::BSilverP
        } else if i == 15 {
            Piece::WSilverP
        } else if i == 16 {
            Piece::BBishopP
        } else if i == 17 {
            Piece::WBishopP
        } else if i == 18 {
            Piece::BRookP
        } else if i == 19 {
            Piece::WRookP
        } else if i == 20 {
            Piece::BPawnP
        } else if i == 21 {
            Piece::WPawnP
        } else {
            Piece::Invalid
        }
    }

    /// The colour, read off the parity of the number.  It means something only
    /// for a real piece: `Absent` counts as Black and `Invalid` as White.
    pub open spec fn color(self) -> Turn {
        if self.id() % 2 == 0 {
            Turn::Black
        } else {
            Turn::White
        }
    }

    /// The neighbour in the numbering: the same shape in the other colour.
    pub open spec fn flipped(self) -> Piece {
        if self.id() % 2 == 0 {
            Piece::of_id(self.id() + 1)
        } else {
            Piece::of_id(self.id() - 1)
        }
    }

    /// This shape in the colour `turn`.
    pub open spec fn colored(self, turn: Turn) -> Piece {
        if self.color() == turn {
            self
        } else {
            self.flipped()
        }
    }

    /// A piece that really stands somewhere: neither `Absent` nor `Invalid`.
    pub open spec fn is_real(self) -> bool {
        self.id() >= 2
    }

    /// Silver, bishop, rook or pawn in plain form.
    pub open spec fn is_promotable(self) -> bool {
        6 <= self.id() <= 13
    }

    /// One of the four promoted forms.
    pub open spec fn is_promoted(self) -> bool {
        self.id() >= 14
    }

    /// The promoted form of a promotable piece (eight above it).
    pub open spec fn promoted(self) -> Piece {
        Piece::of_id(self.id() + 8)
    }

    /// The plain form: eight below for a promoted piece, else the piece itself.
    pub open spec fn demoted(self) -> Piece {
        if self.is_promoted() {
            Piece::of_id(self.id() - 8)
        } else {
            self
        }
    }

    /// A king of either colour.
    pub open spec fn is_king(self) -> bool {
        self == Piece::BKing || self == Piece::WKing
    }

    /// No piece at all.
    pub open spec fn absent(self) -> bool {
        self == Piece::Absent
    }

    /// Whether this is `Absent`.
    #[verifier::when_used_as_spec(absent)]
    pub fn is_absent(self) -> (b: bool)
        ensures
            b == (self == Piece::Absent),
            b == (self.id() == 0),
    {
        self.as_u8() == 0
    }

    /// The piece with the number `i`.
    pub fn from_u8(i: u8) -> (p: Piece)
        requires
            i < PIECE_KINDS,
        ensures
            p == Piece::of_id(i as int),
            p.id() == i,
    {
        match i {
            0 => Piece::Absent,
            1 => Piece::Invalid,
            2 => Piece::BKing,
            3 => Piece::WKing,
            4 => Piece::BGold,
            5 => Piece::WGold,
            6 => Piece::BSilver,
            7 => Piece::WSilver,
            8 => Piece::BBishop,
            9 => Piece::WBishop,
            10 => Piece::BRook,
            11 => Piece::WRook,
            12 => Piece::BPawn,
            13 => Piece::WPawn,
            14 => Piece::BSilverP,
            15 => Piece::WSilverP,
            16 => Piece::BBishopP,
            17 => Piece::WBishopP,
            18 => Piece::BRookP,
            19 => Piece::WRookP,
            20 => Piece::BPawnP,
            _ => Piece::WPawnP,
        }
    }

    /// The number of the piece.
    pub fn as_u8(self) -> (i: u8)
        ensures
            i == self.id(),
            i < PIECE_KINDS,
    {
        match self {
            Piece::Absent => 0,
            Piece::Invalid => 1,
            Piece::BKing => 2,
            Piece::WKing => 3,
            Piece::BGold => 4,
            Piece::WGold => 5,
            Piece::BSilver => 6,
            Piece::WSilver => 7,
            Piece::BBishop => 8,
            Piece::WBishop => 9,
            Piece::BRook => 10,
            Piece::WRook => 11,
            Piece::BPawn => 12,
            Piece::WPawn => 13,
            Piece::BSilverP => 14,
            Piece::WSilverP => 15,
            Piece::BBishopP => 16,
            Piece::WBishopP => 17,
            Piece::BRookP => 18,
            Piece::WRookP => 19,
            Piece::BPawnP => 20,
            Piece::WPawnP => 21,
        }
    }

    /// The colour of the piece.
    #[verifier::when_used_as_spec(color)]
    pub fn turn(self) -> (t: Turn)
        ensures
            t == self.color(),
    {
        if self.as_u8() % 2 == 0 {
            Turn::Black
        } else {
            Turn::White
        }
    }

    /// This shape in the colour `turn`.
    #[verifier::when_used_as_spec(colored)]
    pub fn of_turn(self, turn: Turn) -> (p: Piece)
        ensures
            p == self.colored(turn),
    {
        if self.turn() == turn {
            self
        } else {
            self.flip()
        }
    }

    /// The same shape in the other colour.
    #[verifier::when_used_as_spec(flipped)]
    pub fn flip(self) -> (p: Piece)
        ensures
            p == self.flipped(),
    {
        let i: u8 = self.as_u8();
        if i % 2 == 0 {
            Piece::from_u8(i + 1)
        } else {
            Piece::from_u8(i - 1)
        }
    }

    /// The promoted form of a promotable piece.
    pub fn promote(self) -> (p: Piece)
        requires
            self.is_promotable(),
        ensures
            p == self.promoted(),
            p.id() == self.id() + 8,
    {
        Piece::from_u8(self.as_u8() + 8)
    }

    /// The plain form of a piece.
    pub fn demote(self) -> (p: Piece)
        ensures
            p == self.demoted(),
    {
        let i: u8 = self.as_u8();
        if i >= 14 {
            Piece::from_u8(i - 8)
        } else {
            self
        }
    }
}

/// A piece is the piece of its number, and the numbers below `PIECE_KINDS`
/// are the numbers of the pieces.
pub proof fn lemma_id_roundtrip(p: Piece, i: int)
    ensures
        0 <= p.id() < 22,
        Piece::of_id(p.id()) == p,
        0 <= i < 22 ==> Piece::of_id(i).id() == i,
{
}

/// Flipping toggles the lowest bit of the number: it changes the colour,
/// keeps the shape, and undoes itself.
pub proof fn lemma_flip(p: Piece)
    ensures
        p.flipped().id() == if p.id() % 2 == 0 { p.id() + 1 } else { p.id() - 1 },
        p.flipped().id() / 2 == p.id() / 2,
        p.flipped().color() == p.color().other(),
        p.flipped().flipped() == p,
{
}

/// Forcing a colour gives that colour and keeps the shape.
pub proof fn lemma_of_turn(p: Piece, t: Turn)
    ensures
        p.colored(t).color() == t,
        p.colored(t).id() / 2 == p.id() / 2,
        p.colored(p.color()) == p,
{
}

/// Promotion adds eight to the number and keeps the colour; demotion undoes it.
pub proof fn lemma_promote(p: Piece)
    requires
        p.is_promotable(),
    ensures
        p.promoted().id() == p.id() + 8,
        p.promoted().is_promoted(),
        p.promoted().color() == p.color(),
        p.promoted().demoted() == p,
{
}

} // verus!
