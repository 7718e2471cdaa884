use minishogi::game::board::{find_hand, find_piece, free_slot, pack, sort_hands};
use minishogi::game::board_gen::from_str;
use minishogi::game::{Board, Move, Piece, Turn};

#[test]
fn initial_setup() {
    let b = Board::init();
    let white = [
        Piece::WRook,
        Piece::WBishop,
        Piece::WSilver,
        Piece::WGold,
        Piece::WKing,
    ];
    for i in 0..5 {
        assert_eq!(b.at(i), white[i]);
        assert_eq!(b.at(24 - i), white[i].flip());
    }
    assert_eq!(b.at(9), Piece::WPawn);
    assert_eq!(b.at(15), Piece::BPawn);
    let pieces = b.squares.iter().filter(|p| !p.is_absent()).count();
    assert_eq!(pieces, 12);
    assert!(b.hands.iter().all(|p| p.is_absent()));
    assert_eq!(b.turn, Turn::Black);
    assert_eq!(b.won, None);
}

#[test]
fn empty_board() {
    let b = Board::empty();
    assert!(b.squares.iter().all(|p| p.is_absent()));
    assert!(b.hands.iter().all(|p| p.is_absent()));
    assert_eq!(b.turn, Turn::Black);
    assert_eq!(b.won, None);
}

#[test]
fn step_clears_source_and_passes_turn() {
    let mut b = Board::init();
    b.put_move(&Move::new(&Piece::BPawn, 15, 10, false));
    assert_eq!(b.at(15), Piece::Absent);
    assert_eq!(b.at(10), Piece::BPawn);
    assert_eq!(b.turn, Turn::White);
    assert!(b.hands.iter().all(|p| p.is_absent()));
    assert_eq!(b.won, None);
}

#[test]
fn capture_goes_to_hand_in_the_capturers_colour() {
    let mut b = Board::init();
    b.put_move(&Move::new(&Piece::BRook, 24, 9, false));
    assert_eq!(b.at(9), Piece::BRook);
    assert_eq!(b.hands[0], Piece::BPawn);
    assert_eq!(b.hands[1], Piece::Absent);
    assert_eq!(b.won, None);
}

#[test]
fn captured_promoted_piece_is_demoted() {
    let mut b = from_str("11wk,33wR,34bg,15bk,__bp").unwrap();
    b.put_move(&Move::new(&Piece::BGold, 17, 12, false));
    assert_eq!(b.hands[0], Piece::BPawn);
    assert_eq!(b.hands[1], Piece::BRook);
}

#[test]
fn promotion_adds_eight() {
    let mut b = from_str("11wk,32bp,15bk").unwrap();
    b.put_move(&Move::new(&Piece::BPawn, 7, 2, true));
    assert_eq!(b.at(2), Piece::BPawnP);
    assert_eq!(b.at(2).as_u8(), Piece::BPawn.as_u8() + 8);
    assert_eq!(b.at(7), Piece::Absent);
}

#[test]
fn drop_clears_the_hand_slot() {
    let mut b = from_str("11wk,15bk,__wp,__bg").unwrap();
    b.put_move(&Move::new(&Piece::BGold, 101, 12, false));
    assert_eq!(b.at(12), Piece::BGold);
    assert_eq!(b.hands[0], Piece::WPawn);
    assert_eq!(b.hands[1], Piece::Absent);
    assert_eq!(b.turn, Turn::White);
}

#[test]
fn capturing_a_king_names_the_winner() {
    let mut b = from_str("11wk,12bg,15bk").unwrap();
    b.put_move(&Move::new(&Piece::BGold, 9, 4, false));
    assert_eq!(b.won, Some(Turn::Black));
    assert_eq!(b.hands[0], Piece::BKing);
    let mut w = from_str("11wk,14wg,15bk").unwrap();
    w.flip_turn();
    w.put_move(&Move::new(&Piece::WGold, 19, 24, false));
    assert_eq!(w.won, Some(Turn::White));
    assert_eq!(w.hands[0], Piece::WKing);
}

#[test]
fn capture_with_full_hands_is_lost() {
    let mut b = from_str(
        "11wk,12bg,15bk,__bp,__bp,__bp,__bp,__bp,__bp,__bp,__bp,__bp,__bp",
    )
    .unwrap();
    b.put_move(&Move::new(&Piece::BGold, 9, 4, false));
    assert!(b.hands.iter().all(|p| *p == Piece::BPawn));
    assert_eq!(b.won, Some(Turn::Black));
}

#[test]
fn material_is_kept_through_a_game() {
    let mut b = Board::init();
    let moves = [
        Move::new(&Piece::BRook, 24, 9, false),
        Move::new(&Piece::WKing, 4, 9, false),
        Move::new(&Piece::BPawn, 100, 12, false),
        Move::new(&Piece::WRook, 101, 10, false),
        Move::new(&Piece::BPawn, 12, 7, false),
        Move::new(&Piece::WRook, 10, 20, true),
    ];
    let kinds = |b: &Board| {
        let mut count = [0; 11];
        for p in b.squares.iter().chain(b.hands.iter()) {
            let id = p.as_u8();
            let base = if id >= 14 { id - 8 } else { id };
            count[(base / 2) as usize] += 1;
        }
        count
    };
    let before = kinds(&b);
    assert_eq!(&before[1..7], &[2, 2, 2, 2, 2, 2]);
    for m in &moves {
        b.put_move(m);
        let now = kinds(&b);
        assert_eq!(&now[1..7], &before[1..7]);
    }
    assert_eq!(b.won, Some(Turn::White));
}

#[test]
fn flip_turn_only_changes_the_turn() {
    let mut b = Board::init();
    b.flip_turn();
    assert_eq!(b.turn, Turn::White);
    assert_eq!(b.squares, Board::init().squares);
    b.flip_turn();
    assert_eq!(b, Board::init());
}

#[test]
fn copy_from_overwrites_everything() {
    let mut scratch = Board::empty();
    let mut b = Board::init();
    b.put_move(&Move::new(&Piece::BRook, 24, 9, false));
    scratch.copy_from(&b);
    assert_eq!(scratch, b);
    assert_eq!(b.duplicate(), b);
}

#[test]
fn finished_when_one_king_is_left() {
    assert_eq!(Board::init().is_finished(), (false, Turn::Black));
    assert_eq!(Board::empty().is_finished(), (false, Turn::Black));
    let only_black = from_str("15bk,33wg").unwrap();
    assert_eq!(only_black.is_finished(), (true, Turn::Black));
    let only_white = from_str("11wk,33bg").unwrap();
    assert_eq!(only_white.is_finished(), (true, Turn::White));
}

#[test]
fn code_of_a_position() {
    assert_eq!(Board::empty().u128_repr(), 0);
    let mut white = Board::empty();
    white.flip_turn();
    assert_eq!(white.u128_repr(), 1u128 << 35);
    let b = from_str("55bk").unwrap();
    // 20 free squares, then the king as 1_00010, then 4 squares and 10 slots.
    assert_eq!(b.u128_repr(), 0b100010u128 << 14);
    let held = from_str("__wp,__bg").unwrap();
    let swapped = from_str("__bg,__wp").unwrap();
    assert_eq!(held.u128_repr(), swapped.u128_repr());
    // hands by number: eight free slots sort first, then gold (4), then pawn (13)
    assert_eq!(held.u128_repr(), (0b100100u128 << 6) | 0b101101);
    assert_ne!(held.u128_repr(), Board::empty().u128_repr());
}

#[test]
fn packing_one_piece() {
    assert_eq!(pack(1, Piece::Absent), 2);
    assert_eq!(pack(1, Piece::BKing), (1 << 6) | 32 | 2);
    assert_eq!(pack(0, Piece::WPawnP), 32 | 21);
    assert_eq!(pack(u128::MAX, Piece::Absent), u128::MAX - 1);
}

#[test]
fn hands_sorted_by_number() {
    let b = from_str("__wp,__bg,__bp,__wr").unwrap();
    let sorted = sort_hands(&b.hands);
    let mut expected = vec![Piece::Absent; 6];
    expected.extend([Piece::BGold, Piece::WRook, Piece::BPawn, Piece::WPawn]);
    assert_eq!(sorted, expected);
}

#[test]
fn finding_squares_and_slots() {
    let b = from_str("31wk,15bk,__wp,__bg").unwrap();
    assert_eq!(find_piece(&b.squares, Piece::WKing), 2);
    assert_eq!(find_piece(&b.squares, Piece::BKing), 24);
    assert_eq!(find_piece(&b.squares, Piece::BGold), 25);
    assert_eq!(find_piece(&b.squares, Piece::Absent), 0);
    assert_eq!(find_hand(&b.hands, Piece::BGold), 1);
    assert_eq!(find_hand(&b.hands, Piece::BPawn), 10);
    assert_eq!(free_slot(&b.hands), 2);
    let full = from_str("__bp,__bp,__bp,__bp,__bp,__bp,__bp,__bp,__bp,__bp").unwrap();
    assert_eq!(free_slot(&full.hands), 10);
}

#[test]
fn board_as_text() {
    let text = Board::empty().to_text();
    let mut expected = String::from("   0  1  2  3  4 \n   --------------\n");
    for y in 0..5 {
        expected.push_str(&format!("{} |              \n", y));
    }
    expected.push_str("Hands: ");
    assert_eq!(text, expected);
    let b = from_str("51wk,__bg").unwrap();
    let text = b.to_text();
    assert!(text.contains("0 |\x1b[33m王\x1b[m            \n"));
    assert!(text.ends_with("Hands: \x1b[32m金\x1b[m "));
}
