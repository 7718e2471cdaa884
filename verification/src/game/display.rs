//! The board as text for a terminal: Black's pieces in green, White's in yellow.

use super::board::Position;
use super::{Board, Piece};
use vstd::prelude::*;
use vstd::string::StringExecFns;

verus! {

/// The two columns that `p` takes on the screen.
pub open spec fn glyph(p: Piece) -> Seq<char> {
    match p {
        Piece::Absent => "  "@,
        Piece::Invalid => "  "@,
        Piece::BKing => "\x1b[32m王\x1b[m"@,
        Piece::WKing => "\x1b[33m王\x1b[m"@,
        Piece::BGold => "\x1b[32m金\x1b[m"@,
        Piece::WGold => "\x1b[33m金\x1b[m"@,
        Piece::BSilver => "\x1b[32m銀\x1b[m"@,
        Piece::WSilver => "\x1b[33m銀\x1b[m"@,
        Piece::BBishop => "\x1b[32m角\x1b[m"@,
        Piece::WBishop => "\x1b[33m角\x1b[m"@,
        Piece::BRook => "\x1b[32m飛\x1b[m"@,
        Piece::WRook => "\x1b[33m飛\x1b[m"@,
        Piece::BPawn => "\x1b[32m歩\x1b[m"@,
        Piece::WPawn => "\x1b[33m歩\x1b[m"@,
        Piece::BSilverP => "\x1b[32m全\x1b[m"@,
        Piece::WSilverP => "\x1b[33m全\x1b[m"@,
        Piece::BBishopP => "\x1b[32m馬\x1b[m"@,
        Piece::WBishopP => "\x1b[33m馬\x1b[m"@,
        Piece::BRookP => "\x1b[32m龍\x1b[m"@,
        Piece::WRookP => "\x1b[33m龍\x1b[m"@,
        Piece::BPawnP => "\x1b[32mと\x1b[m"@,
        Piece::WPawnP => "\x1b[33mと\x1b[m"@,
    }
}

/// The number of a row as text.
pub open spec fn row_label(y: int) -> Seq<char> {
    if y == 0 {
        "0"@
    } else if y == 1 {
        "1"@
    } else if y == 2 {
        "2"@
    } else if y == 3 {
        "3"@
    } else {
        "4"@
    }
}

/// The first `n` squares of row `y`, a blank after each but the fifth,
/// which ends the line.
pub open spec fn cells_text(squares: Seq<Piece>, y: int, n: int) -> Seq<char>
    decreases n,
{
    if n <= 0 {
        Seq::empty()
    } else if n == 5 {
        cells_text(squares, y, n - 1) + glyph(squares[5 * y + n - 1]) + "\n"@
    } else {
        cells_text(squares, y, n - 1) + glyph(squares[5 * y + n - 1]) + " "@
    }
}

/// One row of the board: its number, a bar, and its five squares.
pub open spec fn row_text(squares: Seq<Piece>, y: int) -> Seq<char> {
    row_label(y) + " |"@ + cells_text(squares, y, 5)
}

/// The first `n` rows of the board.
pub open spec fn rows_text(squares: Seq<Piece>, n: int) -> Seq<char>
    decreases n,
{
    if n <= 0 {
        Seq::empty()
    } else {
        rows_text(squares, n - 1) + row_text(squares, n - 1)
    }
}

/// The pieces in the first `n` hand slots, each followed by a blank.
pub open spec fn hands_text(hands: Seq<Piece>, n: int) -> Seq<char>
    decreases n,
{
    if n <= 0 {
        Seq::empty()
    } else if hands[n - 1] != Piece::Absent {
        hands_text(hands, n - 1) + glyph(hands[n - 1]) + " "@
    } else {
        hands_text(hands, n - 1)
    }
}

/// The whole board as text: a heading, the five rows, and the hands.
pub open spec fn board_text(pos: Position) -> Seq<char> {
    "   0  1  2  3  4 \n"@ + "   --------------\n"@ + rows_text(pos.squares, 5) + "Hands: "@
        + hands_text(pos.hands, 10)
}

impl Piece {
    /// The piece as it is shown on a terminal.
    pub fn to_str(self) -> (s: &'static str)
        ensures
            s@ == glyph(self),
    {
        match self {
            Piece::Absent => "  ",
            Piece::Invalid => "  ",
            Piece::BKing => "\x1b[32m王\x1b[m",
            Piece::WKing => "\x1b[33m王\x1b[m",
            Piece::BGold => "\x1b[32m金\x1b[m",
            Piece::WGold => "\x1b[33m金\x1b[m",
            Piece::BSilver => "\x1b[32m銀\x1b[m",
            Piece::WSilver => "\x1b[33m銀\x1b[m",
            Piece::BBishop => "\x1b[32m角\x1b[m",
            Piece::WBishop => "\x1b[33m角\x1b[m",
            Piece::BRook => "\x1b[32m飛\x1b[m",
            Piece::WRook => "\x1b[33m飛\x1b[m",
            Piece::BPawn => "\x1b[32m歩\x1b[m",
            Piece::WPawn => "\x1b[33m歩\x1b[m",
            Piece::BSilverP => "\x1b[32m全\x1b[m",
            Piece::WSilverP => "\x1b[33m全\x1b[m",
            Piece::BBishopP => "\x1b[32m馬\x1b[m",
            Piece::WBishopP => "\x1b[33m馬\x1b[m",
            Piece::BRookP => "\x1b[32m龍\x1b[m",
            Piece::WRookP => "\x1b[33m龍\x1b[m",
            Piece::BPawnP => "\x1b[32mと\x1b[m",
            Piece::WPawnP => "\x1b[33mと\x1b[m",
        }
    }
}

/// The number of a row as text.
fn row_label_of(y: usize) -> (s: &'static str)
    ensures
        s@ == row_label(y as int),
{
    if y == 0 {
        "0"
    } else if y == 1 {
        "1"
    } else if y == 2 {
        "2"
    } else if y == 3 {
        "3"
    } else {
        "4"
    }
}

impl Board {
    /// Appends one row of the board to `buf`.
    fn push_row(&self, y: usize, buf: &mut String)
        requires
            y < 5,
        ensures
            final(buf)@ == old(buf)@ + row_text(self@.squares, y as int),
    {
        buf.append(row_label_of(y));
        buf.append(" |");
        let ghost head = buf@;
        let mut x: usize = 0;
        proof {
            assert(buf@ =~= head + cells_text(self@.squares, y as int, 0));
        }
        while x < 5
            invariant
                x <= 5,
                y < 5,
                buf@ == head + cells_text(self@.squares, y as int, x as int),
            decreases 5 - x,
        {
            buf.append(self.at(y * 5 + x).to_str());
            if x == 4 {
                buf.append("\n");
            } else {
                buf.append(" ");
            }
            proof {
                assert(buf@ =~= head + cells_text(self@.squares, y as int, x + 1));
            }
            x += 1;
        }
        proof {
            assert(buf@ =~= old(buf)@ + row_text(self@.squares, y as int));
        }
    }

    /// The board as text for a terminal.
    pub fn to_text(&self) -> (text: String)
        ensures
            text@ == board_text(self@),
    {
        let mut buf = String::from_str("   0  1  2  3  4 \n");
        buf.append("   --------------\n");
        let ghost head = buf@;
        let mut y: usize = 0;
        proof {
            assert(buf@ =~= head + rows_text(self@.squares, 0));
        }
        while y < 5
            invariant
                y <= 5,
                buf@ == head + rows_text(self@.squares, y as int),
            decreases 5 - y,
        {
            self.push_row(y, &mut buf);
            proof {
                assert(buf@ =~= head + rows_text(self@.squares, y + 1));
            }
            y += 1;
        }
        buf.append("Hands: ");
        let ghost body = buf@;
        let mut h: usize = 0;
        proof {
            assert(buf@ =~= body + hands_text(self@.hands, 0));
        }
        while h < 10
            invariant
                h <= 10,
                buf@ == body + hands_text(self@.hands, h as int),
            decreases 10 - h,
        {
            let p = self.hands[h];
            if p != Piece::Absent {
                buf.append(p.to_str());
                buf.append(" ");
            }
            proof {
                assert(buf@ =~= body + hands_text(self@.hands, h + 1));
            }
            h += 1;
        }
        proof {
            assert(buf@ =~= board_text(self@));
        }
        buf
    }
}

} // verus!
