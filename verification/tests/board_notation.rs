use minishogi::game::board_gen::{from_bytes, from_str, piece_repr};
use minishogi::game::{Board, Piece, Turn};

#[test]
fn test_with_hands() {
    let generated = from_str("31wk,33bp,15bk,__bg,__wp").unwrap();
    let mut expected = Board::empty();
    expected.squares[2] = Piece::WKing;
    expected.squares[12] = Piece::BPawn;
    expected.squares[24] = Piece::BKing;
    expected.hands[0] = Piece::BGold;
    expected.hands[1] = Piece::WPawn;
    assert_eq!(generated, expected);
}

#[test]
fn initial_board_in_notation() {
    let b = from_str("11wk,21wg,31ws,41wb,51wr,12wp,54bp,15br,25bb,35bs,45bg,55bk").unwrap();
    assert_eq!(b, Board::init());
}

#[test]
fn promoted_pieces_use_capital_letters() {
    let b = from_str("11bS,21wB,31bR,41wP").unwrap();
    assert_eq!(b.squares[4], Piece::BSilverP);
    assert_eq!(b.squares[3], Piece::WBishopP);
    assert_eq!(b.squares[2], Piece::BRookP);
    assert_eq!(b.squares[1], Piece::WPawnP);
    assert_eq!(b.turn, Turn::Black);
    assert_eq!(b.won, None);
}

#[test]
fn later_token_replaces_earlier_on_same_square() {
    let b = from_str("33bp,33wg").unwrap();
    assert_eq!(b.squares[12], Piece::WGold);
}

#[test]
fn eleventh_hand_piece_is_left_out() {
    let b = from_str("__bp,__bp,__bp,__bp,__bp,__bp,__bp,__bp,__bp,__bp,__wg").unwrap();
    for i in 0..10 {
        assert_eq!(b.hands[i], Piece::BPawn);
    }
}

#[test]
fn malformed_notation_is_rejected() {
    assert!(from_str("").is_none());
    assert!(from_str("31wk,").is_none());
    assert!(from_str("31w").is_none());
    assert!(from_str("61wk").is_none());
    assert!(from_str("30wk").is_none());
    assert!(from_str("31xk").is_none());
    assert!(from_str("31wx").is_none());
    assert!(from_str("31wk;33bp").is_none());
    assert!(from_str("_1wk").is_none());
    assert!(from_bytes(&[0xff, 0x31, 0x77, 0x6b]).is_none());
}

#[test]
fn kind_letters() {
    assert_eq!(piece_repr(b'k'), Piece::BKing);
    assert_eq!(piece_repr(b'g'), Piece::BGold);
    assert_eq!(piece_repr(b's'), Piece::BSilver);
    assert_eq!(piece_repr(b'b'), Piece::BBishop);
    assert_eq!(piece_repr(b'r'), Piece::BRook);
    assert_eq!(piece_repr(b'p'), Piece::BPawn);
    assert_eq!(piece_repr(b'S'), Piece::BSilverP);
    assert_eq!(piece_repr(b'B'), Piece::BBishopP);
    assert_eq!(piece_repr(b'R'), Piece::BRookP);
    assert_eq!(piece_repr(b'P'), Piece::BPawnP);
    assert_eq!(piece_repr(b'K'), Piece::Invalid);
    assert_eq!(piece_repr(b'x'), Piece::Invalid);
}
