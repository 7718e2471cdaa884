use minishogi::game::board_gen::from_str;
use minishogi::game::{Board, Move, Piece};
use minishogi::logic::checkmate::{is_checkmate, is_mated, MateResult};
use minishogi::logic::move_gen::{evasion_moves, is_checked};
use minishogi::logic::rays::MoveTable;

#[test]
fn king_is_in_front_of_gold() {
    let table = MoveTable::new();
    let mut b = from_str("31wk,32bg,33bp,55bk").unwrap();
    b.flip_turn();
    assert_eq!(is_checkmate(&b, &table), MateResult::Lose);
}

#[test]
fn king_is_in_front_of_silver() {
    let table = MoveTable::new();
    let mut b = from_str("31wk,32bs,33bp,55bk").unwrap();
    b.flip_turn();
    assert_eq!(is_checkmate(&b, &table), MateResult::Unknown);
}

#[test]
fn lost_position_is_check_without_evasion() {
    let table = MoveTable::new();
    let mut b = from_str("31wk,32bg,33bp,55bk").unwrap();
    b.flip_turn();
    assert_eq!(is_checkmate(&b, &table), MateResult::Lose);
    assert!(is_checked(&b, &table));
    assert!(evasion_moves(&b, &table).is_empty());
    assert!(is_mated(&b, &table));
}

#[test]
fn gold_drop_mates_in_one() {
    let table = MoveTable::new();
    let b = from_str("31wk,33bp,55bk,__bg").unwrap();
    assert_eq!(is_checkmate(&b, &table), MateResult::Win);
}

#[test]
fn initial_position_is_undecided() {
    let table = MoveTable::new();
    assert_eq!(is_checkmate(&Board::init(), &table), MateResult::Unknown);
    assert!(!is_checked(&Board::init(), &table));
}

#[test]
fn side_without_king_is_not_in_check() {
    let table = MoveTable::new();
    let mut b = Board::empty();
    b.put_move(&Move::new(&Piece::BRook, 109, 12, false));
    b.flip_turn();
    b.flip_turn();
    assert!(!is_checked(&b, &table));
}
