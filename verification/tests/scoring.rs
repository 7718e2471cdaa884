use minishogi::game::board_gen::from_str;
use minishogi::game::{Board, Move, Piece};
use minishogi::logic::evaluator::{
    evaluate, king_steps, material_balance, mover_remoteness, piece_worth, KING_WORTH,
};
use minishogi::logic::ordering::{
    count_support, draw_many, jitter_of, move_priority, reorder_with, sort_ranked,
    update_move_order_table, MoveOrderTable, Ranked, ORDER_CAP,
};

#[test]
fn worth_of_each_shape() {
    assert_eq!(KING_WORTH, 5000);
    assert_eq!(piece_worth(Piece::BKing), 5000);
    assert_eq!(piece_worth(Piece::WKing), 5000);
    assert_eq!(piece_worth(Piece::BGold), 567);
    assert_eq!(piece_worth(Piece::WSilver), 528);
    assert_eq!(piece_worth(Piece::BBishop), 951);
    assert_eq!(piece_worth(Piece::WRook), 1087);
    assert_eq!(piece_worth(Piece::BPawn), 93);
    assert_eq!(piece_worth(Piece::WSilverP), 582);
    assert_eq!(piece_worth(Piece::BBishopP), 1101);
    assert_eq!(piece_worth(Piece::WRookP), 1550);
    assert_eq!(piece_worth(Piece::BPawnP), 598);
    assert_eq!(piece_worth(Piece::Absent), 0);
    assert_eq!(piece_worth(Piece::Invalid), 0);
}

#[test]
fn initial_position_scores_minus_the_distances() {
    let b = Board::init();
    assert_eq!(material_balance(&b), 0);
    assert_eq!(mover_remoteness(&b), 24);
    assert_eq!(evaluate(&b), -24);
    let mut w = Board::init();
    w.flip_turn();
    assert_eq!(evaluate(&w), -24);
}

#[test]
fn score_is_for_the_side_to_move() {
    let mut b = from_str("11wk,33bg,15bk").unwrap();
    assert_eq!(material_balance(&b), 567);
    // the gold stands two steps and the king four steps from the white king
    assert_eq!(mover_remoteness(&b), 6);
    assert_eq!(evaluate(&b), 567 - 6);
    b.flip_turn();
    assert_eq!(mover_remoteness(&b), 4);
    assert_eq!(evaluate(&b), -567 - 4);
}

#[test]
fn hand_pieces_count_nine_tenths() {
    let b = from_str("__bg").unwrap();
    assert_eq!(evaluate(&b), 510);
    let w = from_str("__wg").unwrap();
    assert_eq!(evaluate(&w), -510);
    let p = from_str("__bp,__ws,__br,__wb").unwrap();
    assert_eq!(material_balance(&p), 83 - 475 + 978 - 855);
}

#[test]
fn no_distance_term_without_the_other_king() {
    let b = from_str("15bk,33bg").unwrap();
    assert_eq!(mover_remoteness(&b), 0);
    assert_eq!(evaluate(&b), 5567);
}

#[test]
fn mirror_image_has_the_opposite_material() {
    let b = from_str("11wk,33bg,15bk,24wp,52bR,__bs,__wp").unwrap();
    let mut mirror = Board::empty();
    for i in 0..25 {
        let p = b.squares[(4 - i / 5) * 5 + i % 5];
        mirror.squares[i] = if p.is_absent() { p } else { p.flip() };
    }
    for i in 0..10 {
        let p = b.hands[i];
        mirror.hands[i] = if p.is_absent() { p } else { p.flip() };
    }
    assert_eq!(material_balance(&mirror), -material_balance(&b));
    assert_eq!(
        evaluate(&mirror) + evaluate(&b),
        -mover_remoteness(&mirror) - mover_remoteness(&b)
    );
    let lone = from_str("33bg,__wp").unwrap();
    let mut lone_mirror = Board::empty();
    lone_mirror.squares[12] = Piece::WGold;
    lone_mirror.hands[0] = Piece::BPawn;
    assert_eq!(evaluate(&lone), 567 - 83);
    assert_eq!(evaluate(&lone_mirror), -evaluate(&lone));
}

#[test]
fn distance_in_king_steps() {
    assert_eq!(king_steps(0, 0), 0);
    assert_eq!(king_steps(0, 24), 4);
    assert_eq!(king_steps(12, 4), 2);
    assert_eq!(king_steps(7, 11), 1);
    assert_eq!(king_steps(20, 4), 4);
    assert_eq!(king_steps(10, 14), 4);
}

#[test]
fn jitter_is_below_three_thousand() {
    assert_eq!(jitter_of(0), 0);
    assert_eq!(jitter_of(9), 0);
    assert_eq!(jitter_of(29_990), 2999);
    assert_eq!(jitter_of(30_000), 0);
    assert_eq!(jitter_of(u32::MAX), 429_496_729 % 3000);
    for d in draw_many(50) {
        assert!((0..3000).contains(&jitter_of(d)));
    }
    assert_eq!(draw_many(0).len(), 0);
    assert_eq!(draw_many(7).len(), 7);
}

#[test]
fn priority_terms_add_up() {
    let stats = MoveOrderTable::new();
    let mut b = Board::init();
    b.put_move(&Move::new(&Piece::BBishop, 23, 12, false));
    b.flip_turn();
    let power = [0usize; 25];
    // capture of the king on 4: (5000 + 5000) * 100, step, bishop, on the king's square
    let take_king = Move::new(&Piece::BBishop, 14, 4, true);
    assert_eq!(
        move_priority(&b, &take_king, &power, &stats, 0),
        1_000_000 + 10_000 + 951 + 4000
    );
    // capture of the rook on 0: four columns off the king
    let take_rook = Move::new(&Piece::BBishop, 14, 0, true);
    assert_eq!(
        move_priority(&b, &take_rook, &power, &stats, 0),
        608_700 + 10_000 + 951 + 2000
    );
    // quiet step to 8: one row and one column off the king
    let quiet = Move::new(&Piece::BBishop, 14, 8, false);
    assert_eq!(move_priority(&b, &quiet, &power, &stats, 0), 10_000 + 951 + 3000);
    assert_eq!(
        move_priority(&b, &quiet, &power, &stats, 12_345),
        10_000 + 951 + 3000 + 1234
    );
}

#[test]
fn unsupported_drop_is_discouraged() {
    let stats = MoveOrderTable::new();
    let b = from_str("11wk,15bk,__bg").unwrap();
    let drop = Move::new(&Piece::BGold, 100, 12, false);
    let mut power = [0usize; 25];
    assert_eq!(move_priority(&b, &drop, &power, &stats, 0), -10_000 + 567 + 2000);
    power[12] = 1;
    assert_eq!(move_priority(&b, &drop, &power, &stats, 0), 567 + 2000);
}

#[test]
fn support_counts_steps_only() {
    let moves = vec![
        Move::new(&Piece::BGold, 17, 12, false),
        Move::new(&Piece::BKing, 16, 12, false),
        Move::new(&Piece::BPawn, 100, 12, false),
        Move::new(&Piece::BGold, 17, 11, false),
    ];
    let power = count_support(&moves);
    assert_eq!(power[12], 2);
    assert_eq!(power[11], 1);
    assert_eq!(power.iter().sum::<usize>(), 3);
}

#[test]
fn statistics_count_and_decay() {
    let mut stats = MoveOrderTable::new();
    assert_eq!(stats.counts.len(), 550);
    let m = Move::new(&Piece::BGold, 17, 12, false);
    let other = Move::new(&Piece::WPawn, 9, 14, false);
    update_move_order_table(&mut stats, &other);
    update_move_order_table(&mut stats, &other);
    update_move_order_table(&mut stats, &other);
    for _ in 0..ORDER_CAP {
        update_move_order_table(&mut stats, &m);
    }
    assert_eq!(stats.count(&m), 1000);
    assert_eq!(stats.count(&other), 3);
    update_move_order_table(&mut stats, &m);
    assert_eq!(stats.count(&m), 500);
    assert_eq!(stats.count(&other), 1);
    assert_eq!(stats.counts.iter().filter(|c| **c != 0).count(), 2);
    let b = from_str("11wk,15bk").unwrap();
    let power = [0usize; 25];
    assert_eq!(
        move_priority(&b, &m, &power, &stats, 0),
        10_000 + 567 + 1000 + 1000 + 500
    );
}

#[test]
fn sorting_is_stable_and_descending() {
    let a = Move::new(&Piece::BGold, 1, 2, false);
    let b = Move::new(&Piece::BGold, 3, 4, false);
    let c = Move::new(&Piece::BGold, 5, 6, false);
    let d = Move::new(&Piece::BGold, 7, 8, false);
    let items = vec![
        Ranked { m: a, priority: 5 },
        Ranked { m: b, priority: 9 },
        Ranked { m: c, priority: 5 },
        Ranked { m: d, priority: -1 },
    ];
    let sorted: Vec<Move> = sort_ranked(&items).iter().map(|r| r.m).collect();
    assert_eq!(sorted, vec![b, a, c, d]);
    assert!(sort_ranked(&Vec::new()).is_empty());
}

#[test]
fn order_follows_the_draws() {
    let stats = MoveOrderTable::new();
    let b = from_str("11wk,15bk,33bg").unwrap();
    let moves = vec![
        Move::new(&Piece::BGold, 12, 11, false),
        Move::new(&Piece::BGold, 12, 13, false),
    ];
    // 11 is three columns off the king, 13 one column: 500 apart per column
    let plain = reorder_with(&b, &moves, &stats, &vec![0, 0]);
    assert_eq!(plain, vec![moves[1], moves[0]]);
    let nudged = reorder_with(&b, &moves, &stats, &vec![20_000, 0]);
    assert_eq!(nudged, vec![moves[0], moves[1]]);
    let tied = reorder_with(&b, &moves, &stats, &vec![10_000, 0]);
    assert_eq!(tied, vec![moves[0], moves[1]]);
}
