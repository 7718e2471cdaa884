use super::moves::{DROP_BASE, HAND_SLOTS, SQUARES};
use super::{Move, Piece, Turn};
use vstd::prelude::*;

verus! {

/// The complete position.
///
/// The 25 squares are stored row by row; row 0 is White's back rank and row 4
/// is Black's.  `hands` holds the captured pieces of both sides, `Absent`
/// marking a free slot.  `won` names the side that has captured a king.
#[derive(Clone, Debug, PartialEq)]
pub struct Board {
    pub squares: [Piece; 25],
    pub turn: Turn,
    pub hands: [Piece; 10],
    pub won: Option<Turn>,
}

/// The mathematical value of a `Board`.
pub struct Position {
    pub squares: Seq<Piece>,
    pub hands: Seq<Piece>,
    pub turn: Turn,
    pub won: Option<Turn>,
}

/// The first index at or after `from` at which `s` holds `Absent`; the length
/// of `s` if there is none.
pub open spec fn first_absent(s: Seq<Piece>, from: int) -> int
    decreases s.len() - from,
{
    if from >= s.len() {
        s.len() as int
    } else if s[from] == Piece::Absent {
        from
    } else {
        first_absent(s, from + 1)
    }
}

/// The first index at or after `from` at which `s` holds `p`; the length of
/// `s` if there is none.
pub open spec fn first_of(s: Seq<Piece>, p: Piece, from: int) -> int
    decreases s.len() - from,
{
    if from >= s.len() {
        s.len() as int
    } else if s[from] == p {
        from
    } else {
        first_of(s, p, from + 1)
    }
}

/// `first_of` finds an entry equal to `p` with none before it.
pub proof fn lemma_first_of(s: Seq<Piece>, p: Piece, from: int)
    requires
        0 <= from <= s.len(),
    ensures
        from <= first_of(s, p, from) <= s.len(),
        first_of(s, p, from) < s.len() ==> s[first_of(s, p, from)] == p,
        forall|j: int| from <= j < first_of(s, p, from) ==> s[j] != p,
    decreases s.len() - from,
{
    if from < s.len() && s[from] != p {
        lemma_first_of(s, p, from + 1);
    }
}

/// The hands after `p` went into the first free slot; unchanged if no slot is free.
pub open spec fn stowed(hands: Seq<Piece>, p: Piece) -> Seq<Piece> {
    let i = first_absent(hands, 0);
    if i < hands.len() {
        hands.update(i, p)
    } else {
        hands
    }
}

/// `first_absent` finds an `Absent` entry with none before it.
pub proof fn lemma_first_absent(s: Seq<Piece>, from: int)
    requires
        0 <= from,
    ensures
        from <= first_absent(s, from) || s.len() < from,
        first_absent(s, from) <= s.len() || s.len() < from,
        first_absent(s, from) < s.len() ==> s[first_absent(s, from)] == Piece::Absent,
        forall|j: int| from <= j < first_absent(s, from) ==> s[j] != Piece::Absent,
    decreases s.len() - from,
{
    if from < s.len() && s[from] != Piece::Absent {
        lemma_first_absent(s, from + 1);
    }
}

impl Position {
    /// Both arrays have their fixed lengths.
    pub open spec fn wf(self) -> bool {
        self.squares.len() == SQUARES && self.hands.len() == HAND_SLOTS
    }

    /// What stands on the destination of `m` before the move.
    pub open spec fn taken(self, m: Move) -> Piece {
        self.squares[m.dst as int]
    }

    /// What `m` puts on its destination.
    pub open spec fn placed(m: Move) -> Piece {
        if m.promote {
            m.piece.promoted()
        } else {
            m.piece
        }
    }

    /// The position after `m`: the source is cleared, the destination holds
    /// the moved piece, the turn passes, and a captured piece joins the hands
    /// in its plain form and in the capturer's colour.  Capturing a king
    /// records the winner.
    pub open spec fn put(self, m: Move) -> Position {
        let took = self.taken(m);
        let lifted = if m.is_drop() {
            self.squares
        } else {
            self.squares.update(m.src as int, Piece::Absent)
        };
        let emptied = if m.is_drop() {
            self.hands.update(m.slot(), Piece::Absent)
        } else {
            self.hands
        };
        Position {
            squares: lifted.update(m.dst as int, Position::placed(m)),
            hands: if took == Piece::Absent {
                emptied
            } else {
                stowed(emptied, took.flipped().demoted())
            },
            turn: self.turn.other(),
            won: if took.is_king() {
                Some(took.color().other())
            } else {
                self.won
            },
        }
    }

    /// The same position with the other side to move.
    pub open spec fn passed(self) -> Position {
        Position { turn: self.turn.other(), ..self }
    }

    /// Some square holds `p`.
    pub open spec fn has(self, p: Piece) -> bool {
        exists|i: int| 0 <= i < self.squares.len() && self.squares[i] == p
    }
}

/// The squares of the initial position, row 0 first.
pub open spec fn initial_squares() -> Seq<Piece> {
    seq![
        Piece::WRook, Piece::WBishop, Piece::WSilver, Piece::WGold, Piece::WKing,
        Piece::Absent, Piece::Absent, Piece::Absent, Piece::Absent, Piece::WPawn,
        Piece::Absent, Piece::Absent, Piece::Absent, Piece::Absent, Piece::Absent,
        Piece::BPawn, Piece::Absent, Piece::Absent, Piece::Absent, Piece::Absent,
        Piece::BKing, Piece::BGold, Piece::BSilver, Piece::BBishop, Piece::BRook,
    ]
}

/// The initial position: both camps set up, empty hands, Black to move.
pub open spec fn initial_position() -> Position {
    Position {
        squares: initial_squares(),
        hands: Seq::new(HAND_SLOTS as nat, |i: int| Piece::Absent),
        turn: Turn::Black,
        won: None,
    }
}

/// The position with nothing on it and Black to move.
pub open spec fn empty_position() -> Position {
    Position {
        squares: Seq::new(SQUARES as nat, |i: int| Piece::Absent),
        hands: Seq::new(HAND_SLOTS as nat, |i: int| Piece::Absent),
        turn: Turn::Black,
        won: None,
    }
}

/// The first index at or after `from` whose piece has a number above that
/// of `p`; the length of `sorted` if there is none.
pub open spec fn slot_above(sorted: Seq<Piece>, p: Piece, from: int) -> int
    decreases sorted.len() - from,
{
    if from >= sorted.len() {
        sorted.len() as int
    } else if sorted[from].id() > p.id() {
        from
    } else {
        slot_above(sorted, p, from + 1)
    }
}

/// The first `n` of `items` by rising number.
pub open spec fn by_number(items: Seq<Piece>, n: int) -> Seq<Piece>
    decreases n,
{
    if n <= 0 {
        Seq::empty()
    } else {
        let before = by_number(items, n - 1);
        before.insert(slot_above(before, items[n - 1], 0), items[n - 1])
    }
}

/// No piece has a lower number than one before it.
pub open spec fn rising(items: Seq<Piece>) -> bool {
    forall|i: int, j: int| 0 <= i < j < items.len() ==> items[i].id() <= items[j].id()
}

/// The code `hash` with `p` appended: one zero bit for `Absent`, else a one
/// bit followed by the five bits of the piece's number.
pub open spec fn packed(hash: u128, p: Piece) -> u128 {
    if p == Piece::Absent {
        hash << 1
    } else {
        ((hash << 6) | 32) | (p.id() as u128)
    }
}

/// The code `hash` with the first `n` of `items` appended in order.
pub open spec fn packed_all(hash: u128, items: Seq<Piece>, n: int) -> u128
    decreases n,
{
    if n <= 0 {
        hash
    } else {
        packed(packed_all(hash, items, n - 1), items[n - 1])
    }
}

impl Position {
    /// The code of the position: the side to move (0 for Black, 1 for
    /// White), then the squares in order, then the hands by rising number.
    /// A position with two pieces on the board takes 96 bits; bits beyond
    /// 128 are lost.
    pub open spec fn code(self) -> u128 {
        let start: u128 = if self.turn == Turn::Black {
            0
        } else {
            1
        };
        packed_all(
            packed_all(start, self.squares, self.squares.len() as int),
            by_number(self.hands, self.hands.len() as int),
            self.hands.len() as int,
        )
    }

    /// Which side, if any, is the only one with a king on the board.
    pub open spec fn survivor(self) -> Option<Turn> {
        if self.has(Piece::BKing) && !self.has(Piece::WKing) {
            Some(Turn::Black)
        } else if self.has(Piece::WKing) && !self.has(Piece::BKing) {
            Some(Turn::White)
        } else {
            None
        }
    }
}

/// What `slot_above` finds.
pub proof fn lemma_slot_above(sorted: Seq<Piece>, p: Piece, from: int)
    requires
        0 <= from <= sorted.len(),
    ensures
        from <= slot_above(sorted, p, from) <= sorted.len(),
        slot_above(sorted, p, from) < sorted.len() ==> sorted[slot_above(sorted, p, from)].id()
            > p.id(),
        forall|j: int| from <= j < slot_above(sorted, p, from) ==> (#[trigger] sorted[j]).id() <= p.id(),
    decreases sorted.len() - from,
{
    if from < sorted.len() && sorted[from].id() <= p.id() {
        lemma_slot_above(sorted, p, from + 1);
    }
}

/// Sorting by number keeps every piece, as often as it occurs, and leaves
/// the numbers rising.
pub proof fn lemma_by_number(items: Seq<Piece>, n: int)
    requires
        0 <= n <= items.len(),
    ensures
        by_number(items, n).len() == n,
        rising(by_number(items, n)),
        by_number(items, n).to_multiset() == items.subrange(0, n).to_multiset(),
    decreases n,
{
    if n <= 0 {
        assert(by_number(items, n) =~= items.subrange(0, n));
    } else {
        let before = by_number(items, n - 1);
        let x = items[n - 1];
        let slot = slot_above(before, x, 0);
        lemma_by_number(items, n - 1);
        lemma_slot_above(before, x, 0);
        let after = before.insert(slot, x);
        assert(rising(after)) by {
            assert forall|i: int, j: int| 0 <= i < j < after.len() implies after[i].id()
                <= after[j].id() by {
                if j < slot {
                    assert(after[i] == before[i] && after[j] == before[j]);
                } else if j == slot {
                    assert(after[i] == before[i]);
                } else if i < slot {
                    assert(after[i] == before[i] && after[j] == before[j - 1]);
                    assert(before[slot].id() <= before[j - 1].id() || slot == j - 1);
                } else if i == slot {
                    assert(after[j] == before[j - 1]);
                    assert(before[slot].id() <= before[j - 1].id() || slot == j - 1);
                } else {
                    assert(after[i] == before[i - 1] && after[j] == before[j - 1]);
                }
            }
        }
        assert(items.subrange(0, n) =~= items.subrange(0, n - 1).push(x));
        vstd::seq_lib::to_multiset_insert(before, slot, x);
        vstd::seq_lib::to_multiset_build(items.subrange(0, n - 1), x);
    }
}

/// The pieces of `hands` by rising number.
pub fn sort_hands(hands: &[Piece; 10]) -> (sorted: Vec<Piece>)
    ensures
        sorted@ == by_number(hands@, 10),
        sorted@.len() == 10,
{
    let mut sorted: Vec<Piece> = Vec::new();
    let mut i: usize = 0;
    while i < 10
        invariant
            i <= 10,
            sorted@ == by_number(hands@, i as int),
            sorted@.len() == i,
        decreases 10 - i,
    {
        let x = hands[i];
        let mut j: usize = 0;
        while j < sorted.len() && sorted[j].as_u8() <= x.as_u8()
            invariant
                j <= sorted.len(),
                slot_above(sorted@, x, 0) == slot_above(sorted@, x, j as int),
            decreases sorted.len() - j,
        {
            j += 1;
        }
        sorted.insert(j, x);
        i += 1;
    }
    sorted
}

/// Appends one piece to a code.
pub fn pack(hash: u128, p: Piece) -> (h: u128)
    ensures
        h == packed(hash, p),
{
    if p.is_absent() {
        hash << 1
    } else {
        ((hash << 6) | 32) | (p.as_u8() as u128)
    }
}

impl View for Board {
    type V = Position;

    open spec fn view(&self) -> Position {
        Position { squares: self.squares@, hands: self.hands@, turn: self.turn, won: self.won }
    }
}

/// The first free hand slot; the number of slots if none is free.
pub fn free_slot(hands: &[Piece; 10]) -> (slot: usize)
    ensures
        slot == first_absent(hands@, 0),
        slot <= HAND_SLOTS,
{
    let mut i: usize = 0;
    while i < 10
        invariant
            i <= 10,
            first_absent(hands@, 0) == first_absent(hands@, i as int),
        decreases 10 - i,
    {
        if hands[i].is_absent() {
            return i;
        }
        i += 1;
    }
    i
}

/// The first square that holds `p`; the number of squares if none does.
pub fn find_piece(squares: &[Piece; 25], p: Piece) -> (at: usize)
    ensures
        at == first_of(squares@, p, 0),
        at <= SQUARES,
{
    let mut i: usize = 0;
    while i < 25
        invariant
            i <= 25,
            first_of(squares@, p, 0) == first_of(squares@, p, i as int),
        decreases 25 - i,
    {
        if squares[i] == p {
            return i;
        }
        i += 1;
    }
    i
}

/// The first hand slot that holds `p`; the number of slots if none does.
pub fn find_hand(hands: &[Piece; 10], p: Piece) -> (slot: usize)
    ensures
        slot == first_of(hands@, p, 0),
        slot <= HAND_SLOTS,
{
    let mut i: usize = 0;
    while i < 10
        invariant
            i <= 10,
            first_of(hands@, p, 0) == first_of(hands@, p, i as int),
        decreases 10 - i,
    {
        if hands[i] == p {
            return i;
        }
        i += 1;
    }
    i
}

impl Board {
    /// The value of a board always has its 25 squares and 10 hand slots.
    pub proof fn lemma_wf(self)
        ensures
            self@.wf(),
    {
    }

    /// The initial position.
    pub fn init() -> (b: Board)
        ensures
            b@ == initial_position(),
    {
        let s = [
            Piece::WRook, Piece::WBishop, Piece::WSilver, Piece::WGold, Piece::WKing,
            Piece::Absent, Piece::Absent, Piece::Absent, Piece::Absent, Piece::WPawn,
            Piece::Absent, Piece::Absent, Piece::Absent, Piece::Absent, Piece::Absent,
            Piece::BPawn, Piece::Absent, Piece::Absent, Piece::Absent, Piece::Absent,
            Piece::BKing, Piece::BGold, Piece::BSilver, Piece::BBishop, Piece::BRook,
        ];
        let b = Board { squares: s, turn: Turn::Black, hands: [Piece::Absent;10], won: None };
        proof {
            assert(b@.squares =~= initial_squares());
            assert(b@.hands =~= initial_position().hands);
        }
        b
    }

    /// A board with nothing on it.
    pub fn empty() -> (b: Board)
        ensures
            b@ == empty_position(),
    {
        let b = Board {
            squares: [Piece::Absent;25],
            turn: Turn::Black,
            hands: [Piece::Absent;10],
            won: None,
        };
        proof {
            assert(b@.squares =~= empty_position().squares);
            assert(b@.hands =~= empty_position().hands);
        }
        b
    }

    /// A second board with the same position.
    pub fn duplicate(&self) -> (b: Board)
        ensures
            b@ == self@,
    {
        Board { squares: self.squares, turn: self.turn, hands: self.hands, won: self.won }
    }

    /// Overwrites this board with `from`.
    pub fn copy_from(&mut self, from: &Board)
        ensures
            final(self)@ == from@,
    {
        self.squares = from.squares;
        self.turn = from.turn;
        self.hands = from.hands;
        self.won = from.won;
    }

    /// What stands on the square `pos`.
    pub fn at(&self, pos: usize) -> (p: Piece)
        requires
            pos < SQUARES,
        ensures
            p == self@.squares[pos as int],
    {
        self.squares[pos]
    }

    /// Plays `m`, without asking whether the rules allow it.
    pub fn put_move(&mut self, m: &Move)
        requires
            m.fits(),
        ensures
            final(self)@ == old(self)@.put(*m),
            final(self)@.turn == old(self)@.turn.other(),
    {
        let took = self.squares[m.dst as usize];
        if m.src >= DROP_BASE {
            self.hands[(m.src - DROP_BASE) as usize] = Piece::Absent;
        } else {
            self.squares[m.src as usize] = Piece::Absent;
        }
        if m.promote {
            self.squares[m.dst as usize] = m.piece.promote();
        } else {
            self.squares[m.dst as usize] = m.piece;
        }
        self.turn = self.turn.next();
        if took != Piece::Absent {
            let gained = took.flip().demote();
            let slot = free_slot(&self.hands);
            if slot < 10 {
                self.hands[slot] = gained;
            }
            if took == Piece::BKing || took == Piece::WKing {
                self.won = Some(took.turn().next());
            }
        }
        proof {
            assert(self@.squares =~= old(self)@.put(*m).squares);
            assert(self@.hands =~= old(self)@.put(*m).hands);
        }
    }

    /// Passes the move to the other side, leaving everything else.
    pub fn flip_turn(&mut self)
        ensures
            final(self)@ == old(self)@.passed(),
    {
        self.turn = self.turn.next();
    }

    /// Whether exactly one side still has its king on the board, and if so
    /// which; Black stands in the second place when the answer is no.
    pub fn is_finished(&self) -> (r: (bool, Turn))
        ensures
            r.0 == self@.survivor().is_some(),
            r.1 == match self@.survivor() {
                Some(t) => t,
                None => Turn::Black,
            },
    {
        let mut b_king = false;
        let mut w_king = false;
        let mut i: usize = 0;
        while i < 25
            invariant
                i <= 25,
                b_king == exists|j: int| 0 <= j < i && self@.squares[j] == Piece::BKing,
                w_king == exists|j: int| 0 <= j < i && self@.squares[j] == Piece::WKing,
            decreases 25 - i,
        {
            let p = self.squares[i];
            if p == Piece::BKing {
                b_king = true;
            } else if p == Piece::WKing {
                w_king = true;
            }
            i += 1;
        }
        if !b_king && w_king {
            (true, Turn::White)
        } else if b_king && !w_king {
            (true, Turn::Black)
        } else {
            (false, Turn::Black)
        }
    }

    /// A code of the position in which the order of the hands does not count.
    pub fn u128_repr(&self) -> (hash: u128)
        ensures
            hash == self@.code(),
    {
        let mut hash: u128 = match self.turn {
            Turn::Black => 0,
            Turn::White => 1,
        };
        let ghost start = hash;
        let mut i: usize = 0;
        while i < 25
            invariant
                i <= 25,
                hash == packed_all(start, self@.squares, i as int),
            decreases 25 - i,
        {
            hash = pack(hash, self.squares[i]);
            i += 1;
        }
        let hands_sorted = sort_hands(&self.hands);
        let ghost middle = hash;
        let mut j: usize = 0;
        while j < 10
            invariant
                j <= 10,
                hands_sorted@.len() == 10,
                hash == packed_all(middle, hands_sorted@, j as int),
            decreases 10 - j,
        {
            hash = pack(hash, hands_sorted[j]);
            j += 1;
        }
        hash
    }
}

} // verus!
