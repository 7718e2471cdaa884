use minishogi::game::{Move, Piece, Turn};

const ALL: [Piece; 22] = [
    Piece::Absent,
    Piece::Invalid,
    Piece::BKing,
    Piece::WKing,
    Piece::BGold,
    Piece::WGold,
    Piece::BSilver,
    Piece::WSilver,
    Piece::BBishop,
    Piece::WBishop,
    Piece::BRook,
    Piece::WRook,
    Piece::BPawn,
    Piece::WPawn,
    Piece::BSilverP,
    Piece::WSilverP,
    Piece::BBishopP,
    Piece::WBishopP,
    Piece::BRookP,
    Piece::WRookP,
    Piece::BPawnP,
    Piece::WPawnP,
];

#[test]
fn numbers_run_in_order() {
    for (i, p) in ALL.iter().enumerate() {
        assert_eq!(p.as_u8() as usize, i);
        assert_eq!(Piece::from_u8(i as u8), *p);
    }
}

#[test]
fn flip_toggles_the_lowest_bit() {
    for p in ALL {
        assert_eq!(p.flip().as_u8(), p.as_u8() ^ 1);
        assert_eq!(p.flip().flip(), p);
        assert_eq!(p.flip().turn(), p.turn().next());
    }
}

#[test]
fn colour_is_the_parity() {
    assert_eq!(Piece::BKing.turn(), Turn::Black);
    assert_eq!(Piece::WKing.turn(), Turn::White);
    assert_eq!(Piece::BPawnP.turn(), Turn::Black);
    assert_eq!(Piece::WPawnP.turn(), Turn::White);
    assert_eq!(Piece::Absent.turn(), Turn::Black);
    assert_eq!(Piece::Invalid.turn(), Turn::White);
}

#[test]
fn of_turn_forces_the_colour() {
    for p in ALL {
        for t in [Turn::Black, Turn::White] {
            assert_eq!(p.of_turn(t).turn(), t);
            assert_eq!(p.of_turn(t).as_u8() / 2, p.as_u8() / 2);
        }
        assert_eq!(p.of_turn(p.turn()), p);
    }
    assert_eq!(Piece::BGold.of_turn(Turn::White), Piece::WGold);
    assert_eq!(Piece::WRookP.of_turn(Turn::Black), Piece::BRookP);
}

#[test]
fn promotion_is_eight_above() {
    assert_eq!(Piece::BSilver.promote(), Piece::BSilverP);
    assert_eq!(Piece::WBishop.promote(), Piece::WBishopP);
    assert_eq!(Piece::BRook.promote(), Piece::BRookP);
    assert_eq!(Piece::WPawn.promote(), Piece::WPawnP);
    for p in &ALL[6..14] {
        assert_eq!(p.promote().as_u8(), p.as_u8() + 8);
        assert_eq!(p.promote().demote(), *p);
        assert_eq!(p.promote().turn(), p.turn());
    }
    for p in &ALL[0..14] {
        assert_eq!(p.demote(), *p);
    }
}

#[test]
fn only_absent_is_absent() {
    for p in ALL {
        assert_eq!(p.is_absent(), p == Piece::Absent);
    }
}

#[test]
fn glyphs() {
    assert_eq!(Piece::Absent.to_str(), "  ");
    assert_eq!(Piece::Invalid.to_str(), "  ");
    assert_eq!(Piece::BKing.to_str(), "\x1b[32m王\x1b[m");
    assert_eq!(Piece::WKing.to_str(), "\x1b[33m王\x1b[m");
    assert_eq!(Piece::BPawnP.to_str(), "\x1b[32mと\x1b[m");
    let shapes = ["王", "金", "銀", "角", "飛", "歩", "全", "馬", "龍", "と"];
    for (i, p) in ALL.iter().enumerate().skip(2) {
        let colour = if i % 2 == 0 { 32 } else { 33 };
        assert_eq!(p.to_str(), format!("\x1b[{}m{}\x1b[m", colour, shapes[i / 2 - 1]));
    }
}

#[test]
fn turn_values() {
    assert_eq!(Turn::Black.next(), Turn::White);
    assert_eq!(Turn::White.next(), Turn::Black);
    assert_eq!(Turn::Black.val(), 1);
    assert_eq!(Turn::White.val(), -1);
}

#[test]
fn move_fields() {
    let m = Move::new(&Piece::BSilver, 7, 2, true);
    assert_eq!(m.piece, Piece::BSilver);
    assert_eq!(m.src, 7);
    assert_eq!(m.dst, 2);
    assert!(m.promote);
    assert_eq!(m, Move { piece: Piece::BSilver, src: 7, dst: 2, promote: true });
}
