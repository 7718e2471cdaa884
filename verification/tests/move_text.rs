use minishogi::cui::{parse, parse_bytes, to_pos};
use minishogi::game::board_gen::from_str;
use minishogi::game::{Board, Move, Piece};

#[test]
fn squares_from_digits() {
    assert_eq!(to_pos(b'1', b'1'), 4);
    assert_eq!(to_pos(b'5', b'1'), 0);
    assert_eq!(to_pos(b'3', b'3'), 12);
    assert_eq!(to_pos(b'1', b'5'), 24);
    assert_eq!(to_pos(b'5', b'5'), 20);
}

#[test]
fn step_as_four_digits() {
    let b = Board::init();
    assert_eq!(
        parse(&b, "5453\n".to_string()),
        Some(Move::new(&Piece::BPawn, 15, 10, false))
    );
    assert_eq!(
        parse(&b, "1512p\n".to_string()),
        Some(Move::new(&Piece::BRook, 24, 9, true))
    );
    assert_eq!(
        parse(&b, "3333".to_string()),
        Some(Move::new(&Piece::Absent, 12, 12, false))
    );
}

#[test]
fn drop_as_letter_and_two_digits() {
    let b = from_str("11wk,15bk,__wp,__bg,__bg").unwrap();
    assert_eq!(
        parse(&b, "g32\n".to_string()),
        Some(Move::new(&Piece::BGold, 101, 7, false))
    );
    let mut w = b.clone();
    w.flip_turn();
    assert_eq!(
        parse(&w, "p33".to_string()),
        Some(Move::new(&Piece::WPawn, 100, 12, false))
    );
}

#[test]
fn text_that_spells_no_move() {
    let b = from_str("11wk,15bk,__bg").unwrap();
    assert_eq!(parse(&b, "".to_string()), None);
    assert_eq!(parse(&b, "\n".to_string()), None);
    assert_eq!(parse(&b, "54".to_string()), None);
    assert_eq!(parse(&b, "5463".to_string()), None);
    assert_eq!(parse(&b, "5406".to_string()), None);
    assert_eq!(parse(&b, "g3".to_string()), None);
    assert_eq!(parse(&b, "g36".to_string()), None);
    assert_eq!(parse(&b, "x32".to_string()), None);
    assert_eq!(parse(&b, "s32".to_string()), None);
    assert_eq!(parse_bytes(&b, &[0xe7, 0x8e, 0x8b]), None);
}
