use minishogi::game::board_gen::from_str;
use minishogi::game::{Board, Move, Piece, Turn};
use minishogi::logic::move_gen::{
    all_valid_moves, check_moves, evasion_moves, is_checked, qsearch_moves, valid_moves,
};
use minishogi::logic::rays::{piece_rays, MoveTable};
use std::collections::HashSet;

#[test]
fn qsearch_moves_taking() {
    let table = MoveTable::new();
    let mut b = Board::empty();
    b.put_move(&Move::new(&Piece::WKing, 109, 2, false));
    b.put_move(&Move::new(&Piece::WGold, 109, 6, false));
    b.put_move(&Move::new(&Piece::WSilver, 109, 8, false));
    b.put_move(&Move::new(&Piece::BGold, 109, 12, false));
    b.put_move(&Move::new(&Piece::BKing, 109, 17, false));
    b.flip_turn();

    assert!(!is_checked(&b, &table));

    let result: HashSet<Move> = qsearch_moves(&b, &table).into_iter().collect();
    let expected: HashSet<Move> = vec![
        Move::new(&Piece::BGold, 12, 6, false),
        Move::new(&Piece::BGold, 12, 7, false),
        Move::new(&Piece::BGold, 12, 8, false),
    ]
    .into_iter()
    .collect();
    assert_eq!(result, expected);
}

#[test]
fn qsearch_moves_evasion() {
    let table = MoveTable::new();
    let mut b = Board::empty();
    b.put_move(&Move::new(&Piece::WKing, 109, 2, false));
    b.put_move(&Move::new(&Piece::WGold, 109, 6, false));
    b.put_move(&Move::new(&Piece::WSilver, 109, 8, false));
    b.put_move(&Move::new(&Piece::BKing, 109, 12, false));

    assert!(is_checked(&b, &table));

    let result: HashSet<Move> = qsearch_moves(&b, &table).into_iter().collect();
    let expected: HashSet<Move> = vec![
        Move::new(&Piece::BKing, 12, 16, false),
        Move::new(&Piece::BKing, 12, 17, false),
        Move::new(&Piece::BKing, 12, 18, false),
    ]
    .into_iter()
    .collect();
    assert_eq!(result, expected);
    assert_eq!(evasion_moves(&b, &table), qsearch_moves(&b, &table));
}

#[test]
fn initial_position_has_fourteen_moves() {
    let table = MoveTable::new();
    let b = Board::init();
    let moves = all_valid_moves(&b, &table);
    let expected = vec![
        Move::new(&Piece::BPawn, 15, 10, false),
        Move::new(&Piece::BKing, 20, 16, false),
        Move::new(&Piece::BGold, 21, 16, false),
        Move::new(&Piece::BGold, 21, 17, false),
        Move::new(&Piece::BSilver, 22, 16, false),
        Move::new(&Piece::BSilver, 22, 17, false),
        Move::new(&Piece::BSilver, 22, 18, false),
        Move::new(&Piece::BBishop, 23, 17, false),
        Move::new(&Piece::BBishop, 23, 11, false),
        Move::new(&Piece::BBishop, 23, 19, false),
        Move::new(&Piece::BRook, 24, 19, false),
        Move::new(&Piece::BRook, 24, 14, false),
        Move::new(&Piece::BRook, 24, 9, false),
    ];
    assert_eq!(moves.len(), 14);
    for m in &expected {
        assert!(moves.contains(m), "missing {:?}", m);
    }
    assert!(moves.contains(&Move::new(&Piece::BBishop, 23, 5, false)));
}

#[test]
fn every_move_passes_the_turn() {
    let table = MoveTable::new();
    let b = from_str("31wk,33bp,15bk,__bg,__wp").unwrap();
    let moves = all_valid_moves(&b, &table);
    assert!(!moves.is_empty());
    for m in &moves {
        let mut next = b.clone();
        next.put_move(m);
        assert_eq!(next.turn, b.turn.next());
    }
}

#[test]
fn drops_go_to_free_squares_only() {
    let table = MoveTable::new();
    let b = from_str("31wk,33bp,15bk,__bg,__wp,__bg").unwrap();
    let moves = all_valid_moves(&b, &table);
    let drops: Vec<&Move> = moves.iter().filter(|m| m.src >= 100).collect();
    assert_eq!(drops.len(), 22);
    for m in drops {
        assert_eq!(b.squares[m.dst as usize], Piece::Absent);
        assert_eq!(m.piece, Piece::BGold);
        assert_eq!(m.src, 100);
        assert!(!m.promote);
    }
}

#[test]
fn sliding_stops_at_the_first_piece() {
    let table = MoveTable::new();
    let b = from_str("31wk,15bk,35br,33wp,45bg").unwrap();
    let moves = valid_moves(&b, Turn::Black, false, &table);
    let rook: Vec<u8> = moves.iter().filter(|m| m.piece == Piece::BRook).map(|m| m.dst).collect();
    assert_eq!(rook, vec![17, 12, 23]);
    assert!(!moves.iter().any(|m| m.piece == Piece::BRook && m.dst == 7));
    assert!(!moves.iter().any(|m| m.piece == Piece::BRook && m.dst == 21));
}

#[test]
fn no_moves_once_a_king_is_captured() {
    let table = MoveTable::new();
    let mut b = Board::init();
    b.put_move(&Move::new(&Piece::BKing, 20, 14, false));
    b.put_move(&Move::new(&Piece::WPawn, 9, 14, false));
    assert_eq!(b.won, Some(Turn::White));
    assert!(all_valid_moves(&b, &table).is_empty());
    assert!(qsearch_moves(&b, &table).is_empty());
}

#[test]
fn silver_may_promote_on_the_last_rank() {
    let table = MoveTable::new();
    let b = from_str("11wk,32bs,15bk").unwrap();
    let moves = valid_moves(&b, Turn::Black, false, &table);
    assert!(moves.contains(&Move::new(&Piece::BSilver, 7, 2, true)));
    assert!(moves.contains(&Move::new(&Piece::BSilver, 7, 2, false)));
    assert!(moves.contains(&Move::new(&Piece::BSilver, 7, 11, false)));
    assert!(!moves.contains(&Move::new(&Piece::BSilver, 7, 11, true)));
}

#[test]
fn pawn_must_promote_on_the_last_rank() {
    let table = MoveTable::new();
    let b = from_str("11wk,32bp,15bk").unwrap();
    let moves = valid_moves(&b, Turn::Black, false, &table);
    assert!(moves.contains(&Move::new(&Piece::BPawn, 7, 2, true)));
    assert!(!moves.contains(&Move::new(&Piece::BPawn, 7, 2, false)));
}

#[test]
fn white_moves_down_the_board() {
    let table = MoveTable::new();
    let mut b = from_str("11wk,32wp,15bk").unwrap();
    b.flip_turn();
    let moves = all_valid_moves(&b, &table);
    assert!(moves.contains(&Move::new(&Piece::WPawn, 7, 12, false)));
    assert!(!moves.iter().any(|m| m.piece == Piece::WPawn && m.dst == 2));
}

#[test]
fn rays_of_each_shape() {
    assert_eq!(piece_rays(Piece::BKing).len(), 8);
    assert_eq!(piece_rays(Piece::WGold).len(), 6);
    assert_eq!(piece_rays(Piece::BSilver).len(), 5);
    assert_eq!(piece_rays(Piece::BBishop).len(), 4);
    assert_eq!(piece_rays(Piece::WRook).len(), 4);
    assert_eq!(piece_rays(Piece::BPawn).len(), 1);
    assert_eq!(piece_rays(Piece::BSilverP).len(), 6);
    assert_eq!(piece_rays(Piece::WPawnP).len(), 6);
    assert_eq!(piece_rays(Piece::BBishopP).len(), 8);
    assert_eq!(piece_rays(Piece::WRookP).len(), 8);
    assert_eq!(piece_rays(Piece::Absent).len(), 0);
    assert_eq!(piece_rays(Piece::Invalid).len(), 0);
    let black = piece_rays(Piece::BPawn)[0];
    let white = piece_rays(Piece::WPawn)[0];
    assert_eq!((black.dy, black.dx, black.reach), (-1, 0, 1));
    assert_eq!((white.dy, white.dx, white.reach), (1, 0, 1));
}

#[test]
fn table_holds_the_rays_clipped_to_the_board() {
    let table = MoveTable::new();
    let cell = table.rays(Piece::BRook, 0);
    assert_eq!(cell.len(), 4);
    assert!(cell[0].is_empty());
    assert!(cell[1].is_empty());
    let right: Vec<u8> = cell[2].iter().map(|m| m.dst).collect();
    assert_eq!(right, vec![1, 2, 3, 4]);
    assert!(cell[2].iter().all(|m| m.promote));
    let down: Vec<u8> = cell[3].iter().map(|m| m.dst).collect();
    assert_eq!(down, vec![5, 10, 15, 20]);
    assert!(cell[3].iter().all(|m| !m.promote));
}

#[test]
fn checking_moves() {
    let table = MoveTable::new();
    let b = from_str("31wk,34bg,55bk").unwrap();
    let checks = check_moves(&b, &table);
    assert!(checks.is_empty());
    let b = from_str("31wk,33bg,55bk").unwrap();
    let checks = check_moves(&b, &table);
    assert_eq!(
        checks,
        vec![
            Move::new(&Piece::BGold, 12, 6, false),
            Move::new(&Piece::BGold, 12, 7, false),
            Move::new(&Piece::BGold, 12, 8, false),
        ]
    );
}

#[test]
fn capture_on_the_last_rank() {
    let table = MoveTable::new();
    let b = from_str("31wg,32bs,52bb,41wp,15bk").unwrap();
    let moves = valid_moves(&b, Turn::Black, false, &table);
    // the silver takes with or without promoting; the bishop has to promote
    assert!(moves.contains(&Move::new(&Piece::BSilver, 7, 2, true)));
    assert!(moves.contains(&Move::new(&Piece::BSilver, 7, 2, false)));
    assert!(moves.contains(&Move::new(&Piece::BBishop, 5, 1, true)));
    assert!(!moves.contains(&Move::new(&Piece::BBishop, 5, 1, false)));
    let silver_to_2 = moves.iter().filter(|m| m.src == 7 && m.dst == 2).count();
    assert_eq!(silver_to_2, 2);
}

#[test]
fn drops_are_of_plain_pieces_held_by_the_mover() {
    let table = MoveTable::new();
    let b = from_str("31wk,33bp,15bk,__bg,__wp,__bs,__br").unwrap();
    let moves = all_valid_moves(&b, &table);
    let drops: Vec<&Move> = moves.iter().filter(|m| m.src >= 100).collect();
    assert_eq!(drops.len(), 3 * 22);
    for m in drops {
        assert!(m.src < 110);
        assert_eq!(b.hands[(m.src - 100) as usize], m.piece);
        assert_eq!(m.piece.turn(), b.turn);
        assert!(m.piece.as_u8() < 14);
        assert!(!m.promote);
        assert_eq!(b.squares[m.dst as usize], Piece::Absent);
    }
}
