use minishogi::game::board_gen::from_str;
use minishogi::game::{Board, Move, Piece};
use minishogi::logic::evaluator::evaluate;
use minishogi::logic::minimax::{SCORE_LIMIT, WIN_THRESH};
use minishogi::logic::move_gen::{all_valid_moves, qsearch_moves};
use minishogi::logic::ordering::{reorder_moves, MoveOrderTable};
use minishogi::logic::rays::MoveTable;
use minishogi::logic::searcher::{
    add_nodes, evaluate_leaf, find_best_move, invalid_move, q_rec_search, rec_search, search_at,
    search_result_of,
};

#[test]
fn takes_king_immediately() {
    let table = MoveTable::new();
    let mut stats = MoveOrderTable::new();
    let mut b = Board::init();
    b.put_move(&Move::new(&Piece::BKing, 20, 14, false));

    let result = find_best_move(&b, &table, &mut stats);
    assert_eq!(result.unwrap().m, Move::new(&Piece::WPawn, 9, 14, false));
}

#[test]
fn reorder_moves_test() {
    let stats = MoveOrderTable::new();
    let mut b = Board::init();
    b.put_move(&Move::new(&Piece::BBishop, 23, 12, false));
    b.flip_turn();

    let moves = vec![
        Move::new(&Piece::BBishop, 14, 8, false), // nothing
        Move::new(&Piece::BBishop, 14, 0, true),  // take piece with promote
        Move::new(&Piece::BBishop, 14, 4, true),  // win with promote
    ];

    let reordered_moves = reorder_moves(&b, &moves, &stats);
    assert_eq!(reordered_moves, vec![moves[2], moves[1], moves[0]]);
}

#[test]
fn takes_king_immediately_even_our_when_king_will_taken_next_turn() {
    let table = MoveTable::new();
    let mut stats = MoveOrderTable::new();
    let mut b = Board::init();
    b.put_move(&Move::new(&Piece::BKing, 20, 9, false));
    b.flip_turn();

    let result = find_best_move(&b, &table, &mut stats);
    assert_eq!(result.unwrap().m, Move::new(&Piece::BKing, 9, 4, false));
}

#[test]
fn avoid_checkmate() {
    let table = MoveTable::new();
    let mut stats = MoveOrderTable::new();
    let mut b = from_str("41wk,43bg,22bg,15bk").unwrap();
    b.flip_turn();
    let result = find_best_move(&b, &table, &mut stats);
    assert_eq!(result.unwrap().m, Move::new(&Piece::WKing, 1, 0, false));
}

#[test]
fn avoid_checkmate_by_taking() {
    let table = MoveTable::new();
    let mut stats = MoveOrderTable::new();
    let mut b = from_str("51wk,11br,12br,52bs,42bs,15bk").unwrap();
    b.flip_turn();
    let result = find_best_move(&b, &table, &mut stats);
    assert_eq!(result.unwrap().m, Move::new(&Piece::WKing, 0, 5, false));
}

#[test]
fn checkmate_with_1_moves() {
    let table = MoveTable::new();
    let mut stats = MoveOrderTable::new();
    let b = from_str("41wk,43bg,15bk,__bs").unwrap();
    let result = find_best_move(&b, &table, &mut stats);
    assert_eq!(result.unwrap().m, Move::new(&Piece::BSilver, 100, 6, false),);
}

#[test]
fn checkmate_with_3_moves() {
    let table = MoveTable::new();
    let mut stats = MoveOrderTable::new();
    let b = from_str("11wr,21wk,41bP,52bR,55bk,__bs,__wg,__ws").unwrap();
    let result = find_best_move(&b, &table, &mut stats);
    assert_eq!(result.unwrap().m, Move::new(&Piece::BPawnP, 1, 2, false));
}

#[test]
fn forced_mate_scores_above_the_threshold() {
    let table = MoveTable::new();
    let mut stats = MoveOrderTable::new();
    let b = from_str("41wk,43bg,15bk,__bs").unwrap();
    let result = find_best_move(&b, &table, &mut stats).unwrap();
    assert!(result.score > WIN_THRESH);
    assert_eq!(result.score, SCORE_LIMIT - 1);
    assert!(result.searched >= 1);
}

#[test]
fn no_move_on_a_finished_board() {
    let table = MoveTable::new();
    let mut stats = MoveOrderTable::new();
    let mut b = Board::init();
    b.put_move(&Move::new(&Piece::BKing, 20, 14, false));
    b.put_move(&Move::new(&Piece::WPawn, 9, 14, false));
    assert!(find_best_move(&b, &table, &mut stats).is_none());
    assert!(search_at(&b, 2, &table, &mut stats).is_none());
    let r = rec_search(&b, 2, 3, -SCORE_LIMIT, SCORE_LIMIT, &table, &mut stats);
    assert_eq!(r.score, -SCORE_LIMIT + 2);
    assert_eq!(r.m, invalid_move());
    assert_eq!(r.searched, 1);
    let q = q_rec_search(&b, 4, 6, -SCORE_LIMIT, SCORE_LIMIT, &table, &stats);
    assert_eq!(q.score, -SCORE_LIMIT + 4);
}

#[test]
fn no_move_on_an_empty_board() {
    let table = MoveTable::new();
    let mut stats = MoveOrderTable::new();
    assert!(find_best_move(&Board::empty(), &table, &mut stats).is_none());
}

#[test]
fn leaf_scores() {
    let table = MoveTable::new();
    let mut lost = from_str("31wk,32bg,33bp,55bk").unwrap();
    lost.flip_turn();
    let r = evaluate_leaf(&lost, 3, &table);
    assert_eq!(r.score, -SCORE_LIMIT + 3);
    assert_eq!(r.searched, 1);
    assert_eq!(r.m, invalid_move());
    let won = from_str("31wk,33bp,55bk,__bg").unwrap();
    assert_eq!(evaluate_leaf(&won, 2, &table).score, SCORE_LIMIT - 2);
    let quiet = Board::init();
    assert_eq!(evaluate_leaf(&quiet, 2, &table).score, -24);
}

#[test]
fn search_result_and_node_counts() {
    let r = search_result_of(17, 3);
    assert_eq!(r.m, Move::new(&Piece::Absent, 0, 0, false));
    assert_eq!(r.score, 17);
    assert_eq!(r.searched, 3);
    assert_eq!(add_nodes(2, 3), 5);
    assert_eq!(add_nodes(i32::MAX, 1), i32::MAX);
    assert_eq!(add_nodes(i32::MAX - 1, 1), i32::MAX);
}

#[test]
fn one_ply_search_agrees_with_the_best_reply() {
    let table = MoveTable::new();
    let mut stats = MoveOrderTable::new();
    let b = from_str("11wk,33bg,15bk,24wp").unwrap();
    let found = search_at(&b, 1, &table, &mut stats).unwrap();
    let mut best = -SCORE_LIMIT;
    for m in all_valid_moves(&b, &table) {
        let mut next = b.clone();
        next.put_move(&m);
        let reply = rec_search(&next, 1, 1, -SCORE_LIMIT, SCORE_LIMIT, &table, &mut stats);
        if -reply.score > best {
            best = -reply.score;
        }
    }
    assert_eq!(found.score, best);
}

#[test]
fn king_is_taken_first_and_ends_the_search() {
    let table = MoveTable::new();
    let mut stats = MoveOrderTable::new();
    let mut b = Board::init();
    b.put_move(&Move::new(&Piece::BKing, 20, 14, false));
    for _ in 0..20 {
        let r = rec_search(&b, 0, 1, -SCORE_LIMIT, SCORE_LIMIT, &table, &mut stats);
        assert_eq!(r.m, Move::new(&Piece::WPawn, 9, 14, false));
        assert_eq!(r.score, 99_999_999);
        assert_eq!(r.searched, 1);
        let deep = rec_search(&b, 2, 5, -SCORE_LIMIT, SCORE_LIMIT, &table, &mut stats);
        assert_eq!(deep.m, Move::new(&Piece::WPawn, 9, 14, false));
        assert_eq!(deep.score, SCORE_LIMIT - 3);
        assert_eq!(deep.searched, 1);
    }
    let horizon = rec_search(&b, 1, 1, -SCORE_LIMIT, SCORE_LIMIT, &table, &mut stats);
    assert_eq!(horizon.m, Move::new(&Piece::WPawn, 9, 14, false));
    assert_eq!(horizon.score, SCORE_LIMIT - 2);
    assert_eq!(horizon.searched, 1);
    let quiet = q_rec_search(&b, 3, 5, -SCORE_LIMIT, SCORE_LIMIT, &table, &stats);
    assert_eq!(quiet.m, Move::new(&Piece::WPawn, 9, 14, false));
    assert_eq!(quiet.score, SCORE_LIMIT - 4);
    assert_eq!(quiet.searched, 1);
    assert!(stats.counts.iter().all(|c| *c == 0));
    let found = find_best_move(&b, &table, &mut stats).unwrap();
    assert_eq!(found.m, Move::new(&Piece::WPawn, 9, 14, false));
    assert_eq!(found.score, SCORE_LIMIT - 1);
    assert_eq!(found.searched, 1);
    let at = search_at(&b, 3, &table, &mut stats).unwrap();
    assert_eq!(at.m, Move::new(&Piece::WPawn, 9, 14, false));
    assert_eq!(at.score, SCORE_LIMIT - 1);
    assert_eq!(at.searched, 1);
    assert!(stats.counts.iter().all(|c| *c == 0));
}

#[test]
fn horizon_node_is_the_quiescence_search_from_the_static_score() {
    let table = MoveTable::new();
    let mut stats = MoveOrderTable::new();
    // no capture, no check: the leaf score, no move, one position
    let quiet = from_str("11wk,15bk,35bg").unwrap();
    assert!(qsearch_moves(&quiet, &table).is_empty());
    let r = rec_search(&quiet, 3, 3, -SCORE_LIMIT, SCORE_LIMIT, &table, &mut stats);
    assert_eq!(r.score, evaluate(&quiet));
    assert_eq!(r.score, 567 - 8);
    assert_eq!(r.m, invalid_move());
    assert_eq!(r.searched, 1);
    // a mated side at the horizon: the mate score of that depth
    let mut lost = from_str("31wk,32bg,33bp,55bk").unwrap();
    lost.flip_turn();
    let l = rec_search(&lost, 2, 2, -SCORE_LIMIT, SCORE_LIMIT, &table, &mut stats);
    assert_eq!(l.score, -SCORE_LIMIT + 2);
    assert_eq!(l.m, invalid_move());
    assert_eq!(l.searched, 1);
    // captures exist: never below the static score
    let busy = from_str("11wk,33bg,15bk,34wp,32wr").unwrap();
    assert!(!qsearch_moves(&busy, &table).is_empty());
    let q = rec_search(&busy, 1, 1, -SCORE_LIMIT, SCORE_LIMIT, &table, &mut stats);
    assert!(q.score >= evaluate(&busy));
    assert!(q.searched >= 1);
    let same = q_rec_search(&busy, 1, 4, evaluate(&busy), SCORE_LIMIT, &table, &stats);
    assert_eq!(q.score, same.score);
    assert!(stats.counts.iter().all(|c| *c == 0));
}

#[test]
fn leaving_the_king_to_be_taken_is_the_loss_two_plies_on() {
    let table = MoveTable::new();
    let mut stats = MoveOrderTable::new();
    let mut b = from_str("31wk,32bg,33bp,55bk").unwrap();
    b.flip_turn();
    let found = find_best_move(&b, &table, &mut stats).unwrap();
    assert_eq!(found.score, -SCORE_LIMIT + 2);
    assert!(found.searched >= 1);
    assert!(all_valid_moves(&b, &table).contains(&found.m));
    let r = rec_search(&b, 1, 3, -SCORE_LIMIT, SCORE_LIMIT, &table, &mut stats);
    assert_eq!(r.score, -SCORE_LIMIT + 3);
    let shallow = search_at(&b, 1, &table, &mut stats).unwrap();
    assert_eq!(shallow.score, -SCORE_LIMIT + 2);
}

#[test]
fn searches_count_the_positions_they_score() {
    let table = MoveTable::new();
    let mut stats = MoveOrderTable::new();
    let b = from_str("41wk,43bg,15bk,__bs").unwrap();
    let r = find_best_move(&b, &table, &mut stats).unwrap();
    assert!(r.score > 90_000_000 && r.score < 100_000_000);
    assert!(r.searched >= 1);
    let one = search_at(&Board::init(), 1, &table, &mut stats).unwrap();
    assert!(one.searched >= 14);
    let three = find_best_move(&Board::init(), &table, &mut stats).unwrap();
    assert!(three.searched >= 1);
    assert!(all_valid_moves(&Board::init(), &table).contains(&three.m));
}

#[test]
fn finished_node_counts_its_best_move() {
    let table = MoveTable::new();
    // no move at all: the node is finished at once and counts "no move"
    let mut stats = MoveOrderTable::new();
    let r = rec_search(&Board::empty(), 0, 2, -5, 5, &table, &mut stats);
    assert_eq!(r.m, invalid_move());
    assert_eq!(r.score, -5);
    assert_eq!(r.searched, 0);
    assert_eq!(stats.counts[0], 1);
    assert_eq!(stats.counts.iter().sum::<i32>(), 1);
    // one ply over the initial position: no cutoff, so the best move is counted
    let mut stats = MoveOrderTable::new();
    let b = Board::init();
    let r = rec_search(&b, 0, 1, -SCORE_LIMIT, SCORE_LIMIT, &table, &mut stats);
    assert!(r.score <= WIN_THRESH);
    assert_eq!(stats.count(&r.m), 1);
    assert_eq!(stats.counts.iter().sum::<i32>(), 1);
    // a captured king and a horizon node leave the statistics alone
    let mut stats = MoveOrderTable::new();
    rec_search(&b, 2, 2, -SCORE_LIMIT, SCORE_LIMIT, &table, &mut stats);
    let mut over = Board::init();
    over.put_move(&Move::new(&Piece::BKing, 20, 14, false));
    over.put_move(&Move::new(&Piece::WPawn, 9, 14, false));
    rec_search(&over, 0, 3, -SCORE_LIMIT, SCORE_LIMIT, &table, &mut stats);
    assert!(stats.counts.iter().all(|c| *c == 0));
}

#[test]
fn king_capture_is_ordered_first() {
    let table = MoveTable::new();
    let stats = MoveOrderTable::new();
    let mut b = Board::init();
    b.put_move(&Move::new(&Piece::BKing, 20, 14, false));
    let moves = all_valid_moves(&b, &table);
    for _ in 0..20 {
        let ordered = reorder_moves(&b, &moves, &stats);
        assert_eq!(ordered[0], Move::new(&Piece::WPawn, 9, 14, false));
        assert_eq!(ordered.len(), moves.len());
    }
}
