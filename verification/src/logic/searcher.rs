//! The search: negamax with alpha-beta pruning, a quiescence extension at
//! the horizon, and iterative deepening on top.

use super::checkmate::{is_checkmate, MateResult};
use super::evaluator::{evaluate, score_of};
use super::bounds::{
    lemma_king_capture_is_quiet_move, lemma_qsearch_fits, lemma_shallow_value,
};
use super::legal::lemma_moves_legal;
use super::minimax::{
    answers, best_quiet_reply, best_reply, is_best, leaf_value, lemma_best_quiet_reply,
    lemma_best_reply, lemma_progress_done, lemma_progress_step, progress, quiet_reply_value,
    quiet_value, reply_value, search_value, QSEARCH_DEPTH, SCORE_LIMIT, SEARCH_DEPTH,
    WIN_THRESH,
};
use super::move_gen::{
    all_valid_moves, king_en_prise, moves_of, qsearch_moves, qsearch_of, some_takes_king,
    takes_king,
};
use super::ordering::{
    bumped, order_key, reorder_moves, update_move_order_table, MoveOrderTable,
};
use super::rays::MoveTable;
use crate::game::board::Position;
use crate::game::{Board, Move, Piece};
use vstd::prelude::*;

verus! {

/// What a search found: the best move, its score for the side to move, and
/// the number of positions that were scored.
#[derive(Copy, Clone, Debug)]
pub struct SearchResult {
    pub m: Move,
    pub score: i32,
    pub searched: i32,
}

/// The deepest horizon at which the quiescence extension still fits the
/// type of a depth.
pub const DEPTH_LIMIT: u8 = 252;

/// The move that stands for "no move".
pub open spec fn no_move() -> Move {
    Move { piece: Piece::Absent, src: 0, dst: 0, promote: false }
}

/// The move that stands for "no move".
pub fn invalid_move() -> (m: Move)
    ensures
        m == no_move(),
{
    Move::new(&Piece::Absent, 0, 0, false)
}

/// A result that names no move.
pub fn search_result_of(score: i32, searched: i32) -> (r: SearchResult)
    ensures
        r.m == no_move(),
        r.score == score,
        r.searched == searched,
{
    SearchResult { m: invalid_move(), score, searched }
}

/// The sum of two node counts, or the largest count if the sum is beyond it.
pub fn add_nodes(a: i32, b: i32) -> (sum: i32)
    requires
        a >= 0,
        b >= 0,
    ensures
        sum == if a + b > i32::MAX {
            i32::MAX as int
        } else {
            a + b
        },
        sum >= 0,
{
    if a > i32::MAX - b {
        i32::MAX
    } else {
        a + b
    }
}

/// The values of the moves `ordered`, for the mover in `pos`.
pub open spec fn replies_of(pos: Position, ordered: Seq<Move>, depth: int, max_depth: int) -> Seq<
    int,
> {
    Seq::new(ordered.len(), |k: int| reply_value(pos, ordered[k], depth, max_depth))
}

/// The values of the moves `ordered` in the quiescence search.
pub open spec fn quiet_replies_of(pos: Position, ordered: Seq<Move>, depth: int, cap: int) -> Seq<
    int,
> {
    Seq::new(ordered.len(), |k: int| quiet_reply_value(pos, ordered[k], depth, cap))
}

/// In whatever order the moves are searched, the value of the node is the
/// best of their values.
proof fn lemma_best_of_reordered(
    pos: Position,
    moves: Seq<Move>,
    ordered: Seq<Move>,
    depth: int,
    max_depth: int,
)
    requires
        ordered.to_multiset() == moves.to_multiset(),
        depth < max_depth,
    ensures
        is_best(
            best_reply(pos, moves, moves.len() as int, depth, max_depth),
            replies_of(pos, ordered, depth, max_depth),
        ),
{
    let v = best_reply(pos, moves, moves.len() as int, depth, max_depth);
    let replies = replies_of(pos, ordered, depth, max_depth);
    lemma_best_reply(pos, moves, moves.len() as int, depth, max_depth);
    assert forall|k: int| 0 <= k < replies.len() implies replies[k] <= v by {
        vstd::seq_lib::to_multiset_contains(ordered, ordered[k]);
        vstd::seq_lib::to_multiset_contains(moves, ordered[k]);
        assert(ordered.contains(ordered[k]));
        let j = choose|j: int| 0 <= j < moves.len() && moves[j] == ordered[k];
        assert(reply_value(pos, moves[j], depth, max_depth) <= v);
    }
    if v != -SCORE_LIMIT {
        let j = choose|j: int|
            0 <= j < moves.len() && #[trigger] reply_value(pos, moves[j], depth, max_depth) == v;
        vstd::seq_lib::to_multiset_contains(ordered, moves[j]);
        vstd::seq_lib::to_multiset_contains(moves, moves[j]);
        assert(moves.contains(moves[j]));
        let k = choose|k: int| 0 <= k < ordered.len() && ordered[k] == moves[j];
        assert(replies[k] == v);
    }
}

/// The same for the quiescence search.
proof fn lemma_best_of_reordered_quiet(
    pos: Position,
    moves: Seq<Move>,
    ordered: Seq<Move>,
    depth: int,
    cap: int,
)
    requires
        ordered.to_multiset() == moves.to_multiset(),
        depth < cap,
    ensures
        is_best(
            best_quiet_reply(pos, moves, moves.len() as int, depth, cap),
            quiet_replies_of(pos, ordered, depth, cap),
        ),
{
    let v = best_quiet_reply(pos, moves, moves.len() as int, depth, cap);
    let replies = quiet_replies_of(pos, ordered, depth, cap);
    lemma_best_quiet_reply(pos, moves, moves.len() as int, depth, cap);
    assert forall|k: int| 0 <= k < replies.len() implies replies[k] <= v by {
        vstd::seq_lib::to_multiset_contains(ordered, ordered[k]);
        vstd::seq_lib::to_multiset_contains(moves, ordered[k]);
        assert(ordered.contains(ordered[k]));
        let j = choose|j: int| 0 <= j < moves.len() && moves[j] == ordered[k];
        assert(quiet_reply_value(pos, moves[j], depth, cap) <= v);
    }
    if v != -SCORE_LIMIT {
        let j = choose|j: int|
            0 <= j < moves.len() && #[trigger] quiet_reply_value(pos, moves[j], depth, cap) == v;
        vstd::seq_lib::to_multiset_contains(ordered, moves[j]);
        vstd::seq_lib::to_multiset_contains(moves, moves[j]);
        assert(moves.contains(moves[j]));
        let k = choose|k: int| 0 <= k < ordered.len() && ordered[k] == moves[j];
        assert(replies[k] == v);
    }
}

/// Every move of a reordered list is a move of the list.
proof fn lemma_reordered_member(moves: Seq<Move>, ordered: Seq<Move>, k: int) -> (j: int)
    requires
        ordered.to_multiset() == moves.to_multiset(),
        0 <= k < ordered.len(),
    ensures
        0 <= j < moves.len(),
        moves[j] == ordered[k],
{
    vstd::seq_lib::to_multiset_contains(ordered, ordered[k]);
    vstd::seq_lib::to_multiset_contains(moves, ordered[k]);
    assert(ordered.contains(ordered[k]));
    choose|j: int| 0 <= j < moves.len() && moves[j] == ordered[k]
}

/// The score of a position at which the search stops.
pub fn evaluate_leaf(b: &Board, depth: u8, table: &MoveTable) -> (r: SearchResult)
    requires
        table.wf(),
    ensures
        r.m == no_move(),
        r.score == leaf_value(b@, depth as int),
        r.searched == 1,
        -SCORE_LIMIT <= r.score <= SCORE_LIMIT,
{
    match is_checkmate(b, table) {
        MateResult::Unknown => search_result_of(evaluate(b), 1),
        MateResult::Win => search_result_of(SCORE_LIMIT - (depth as i32), 1),
        MateResult::Lose => search_result_of(-SCORE_LIMIT + (depth as i32), 1),
    }
}

/// The quiescence search of `b`, `depth` plies from the root, within the
/// window `alpha`, `beta`, ending at `max_depth`.  A move onto a king is
/// searched first and ends the search of the node.
pub fn q_rec_search(
    b: &Board,
    depth: u8,
    max_depth: u8,
    alpha: i32,
    beta: i32,
    table: &MoveTable,
    statistics: &MoveOrderTable,
) -> (r: SearchResult)
    requires
        table.wf(),
        statistics.wf(),
        -SCORE_LIMIT <= alpha <= SCORE_LIMIT,
        -SCORE_LIMIT <= beta <= SCORE_LIMIT,
    ensures
        -SCORE_LIMIT <= r.score <= SCORE_LIMIT,
        r.searched >= 1,
        r.m == no_move() || r.m.fits(),
        answers(quiet_value(b@, depth as int, max_depth as int), alpha as int, beta as int, r.score as int),
        (b@.won.is_some() || depth >= max_depth || qsearch_of(b@).len() == 0) ==> r.score
            == quiet_value(b@, depth as int, max_depth as int) && r.m == no_move() && r.searched
            == 1,
        !(b@.won.is_some() || depth >= max_depth || qsearch_of(b@).len() == 0) ==> r.score >= alpha,
        b@.won.is_none() && depth < max_depth && alpha < SCORE_LIMIT - depth - 1 && some_takes_king(
            b@,
            qsearch_of(b@),
        ) ==> takes_king(b@, r.m) && qsearch_of(b@).contains(r.m) && r.score == SCORE_LIMIT - depth
            - 1 && r.searched == 1,
    decreases max_depth - depth,
{
    if b.won.is_some() {
        return search_result_of(-SCORE_LIMIT + (depth as i32), 1);
    }
    if depth >= max_depth {
        return evaluate_leaf(b, depth, table);
    }
    let moves = qsearch_moves(b, table);
    if moves.len() == 0 {
        return evaluate_leaf(b, depth, table);
    }
    let ordered = reorder_moves(b, moves.as_slice(), statistics);
    let mut best: SearchResult = search_result_of(alpha, 0);
    let mut next_board = b.duplicate();
    let ghost replies = quiet_replies_of(b@, ordered@, depth as int, max_depth as int);
    let ghost value = quiet_value(b@, depth as int, max_depth as int);
    let ghost mut chosen: int = -1;
    proof {
        lemma_best_of_reordered_quiet(b@, moves@, ordered@, depth as int, max_depth as int);
        assert forall|k: int| 0 <= k < ordered@.len() implies (#[trigger] ordered@[k]).fits() by {
            lemma_reordered_member(moves@, ordered@, k);
        }
    }
    let mut i: usize = 0;
    while i < ordered.len()
        invariant
            i <= ordered.len(),
            table.wf(),
            statistics.wf(),
            depth < max_depth,
            -SCORE_LIMIT <= alpha <= SCORE_LIMIT,
            -SCORE_LIMIT <= beta <= SCORE_LIMIT,
            -SCORE_LIMIT <= best.score <= SCORE_LIMIT,
            best.searched >= 0,
            forall|k: int| 0 <= k < ordered@.len() ==> (#[trigger] ordered@[k]).fits(),
            ordered@.len() > 0,
            i > 0 ==> best.searched >= 1,
            ordered@.to_multiset() == qsearch_of(b@).to_multiset(),
            some_takes_king(b@, qsearch_of(b@)) ==> takes_king(b@, ordered@[0]),
            some_takes_king(b@, qsearch_of(b@)) && alpha < SCORE_LIMIT - depth - 1 ==> i == 0,
            i == 0 ==> best.searched == 0 && best.score == alpha,
            replies == quiet_replies_of(b@, ordered@, depth as int, max_depth as int),
            value == quiet_value(b@, depth as int, max_depth as int),
            b@.won.is_none(),
            qsearch_of(b@).len() > 0,
            is_best(value, replies),
            progress(replies, i as int, alpha as int, beta as int, best.score as int, chosen),
            chosen >= 0 ==> chosen < i && best.m == ordered@[chosen],
            chosen < 0 ==> best.m == no_move(),
        decreases ordered.len() - i,
    {
        let m = ordered[i];
        next_board.copy_from(b);
        next_board.put_move(&m);
        let result = q_rec_search(
            &next_board,
            depth + 1,
            max_depth,
            -beta,
            -best.score,
            table,
            statistics,
        );
        let score: i32 = -result.score;
        best.searched = add_nodes(best.searched, result.searched);
        proof {
            lemma_progress_step(
                replies,
                i as int,
                alpha as int,
                beta as int,
                best.score as int,
                chosen,
                quiet_value(next_board@, depth + 1, max_depth as int),
                result.score as int,
            );
        }
        if score > best.score {
            best.m = m;
            best.score = score;
            proof {
                chosen = i as int;
            }
        }
        if score > beta || score > WIN_THRESH {
            proof {
                lemma_progress_done(
                    replies,
                    i + 1,
                    alpha as int,
                    beta as int,
                    best.score as int,
                    chosen,
                    value,
                );
                if chosen >= 0 {
                    lemma_reordered_member(qsearch_of(b@), ordered@, chosen);
                }
            }
            return best;
        }
        i += 1;
    }
    proof {
        lemma_progress_done(
            replies,
            i as int,
            alpha as int,
            beta as int,
            best.score as int,
            chosen,
            value,
        );
    }
    best
}

/// What the answer `r` of a full-width search of `pos` says about the move
/// it names: an answer that did not beat `alpha` names no move; one that did
/// names a generated move, worth at least the answer unless the answer is a
/// forced loss.
pub open spec fn names_best(
    pos: Position,
    depth: int,
    max_depth: int,
    alpha: int,
    r: SearchResult,
) -> bool {
    &&& r.score >= alpha
    &&& (r.score == alpha ==> r.m == no_move())
    &&& (r.score > alpha ==> moves_of(pos, pos.turn, true).contains(r.m) && (r.score
        >= -WIN_THRESH ==> reply_value(pos, r.m, depth, max_depth) >= r.score))
}

/// What a search returns at the horizon: the answer of the quiescence
/// search that starts from the static score.  Where no quiescence move
/// exists this is the leaf score itself, with no move and one position
/// scored; otherwise it is at least the static score.
pub open spec fn at_horizon(pos: Position, depth: int, beta: int, r: SearchResult) -> bool {
    &&& answers(quiet_value(pos, depth, depth + QSEARCH_DEPTH), score_of(pos), beta, r.score as int)
    &&& (qsearch_of(pos).len() == 0 ==> r.score == leaf_value(pos, depth) && r.m == no_move()
        && r.searched == 1)
    &&& (qsearch_of(pos).len() > 0 ==> r.score >= score_of(pos))
}

/// The result `r` takes a king at once: it names a generated move onto a
/// king, scores the win one ply on, and scored one position.
pub open spec fn takes_king_now(pos: Position, depth: int, r: SearchResult) -> bool {
    &&& takes_king(pos, r.m)
    &&& moves_of(pos, pos.turn, true).contains(r.m)
    &&& r.score == SCORE_LIMIT - depth - 1
    &&& r.searched == 1
}

/// No line of play from `pos` to the horizon runs into a position without
/// a move: each ends at the horizon or with a captured king.
pub open spec fn lively(pos: Position, depth: int, max_depth: int) -> bool
    decreases max_depth - depth,
{
    if pos.won.is_some() || depth >= max_depth {
        true
    } else {
        let moves = moves_of(pos, pos.turn, true);
        &&& moves.len() > 0
        &&& forall|i: int| 0 <= i < moves.len() ==> lively(pos.put(#[trigger] moves[i]), depth + 1, max_depth)
    }
}

/// The search of `b`, `depth` plies from the root, within the window
/// `alpha`, `beta`, with the horizon at `max_depth`.
///
/// A move onto a king is searched first and ends the search of the node.
/// The statistics change only where a node below the horizon has searched
/// all its moves without a cutoff: its best move is then counted.
pub fn rec_search(
    b: &Board,
    depth: u8,
    max_depth: u8,
    alpha: i32,
    beta: i32,
    table: &MoveTable,
    statistics: &mut MoveOrderTable,
) -> (r: SearchResult)
    requires
        table.wf(),
        old(statistics).wf(),
        depth <= DEPTH_LIMIT,
        max_depth <= DEPTH_LIMIT,
        -SCORE_LIMIT <= alpha <= SCORE_LIMIT,
        -SCORE_LIMIT <= beta <= SCORE_LIMIT,
    ensures
        final(statistics).wf(),
        -SCORE_LIMIT <= r.score <= SCORE_LIMIT,
        r.searched >= 0,
        r.m == no_move() || r.m.fits(),
        answers(search_value(b@, depth as int, max_depth as int), alpha as int, beta as int, r.score as int),
        b@.won.is_some() ==> r.m == no_move() && r.score == -SCORE_LIMIT + depth && r.searched
            == 1,
        b@.won.is_none() && depth < max_depth ==> names_best(
            b@,
            depth as int,
            max_depth as int,
            alpha as int,
            r,
        ),
        b@.won.is_none() && depth >= max_depth ==> at_horizon(b@, depth as int, beta as int, r),
        b@.won.is_some() || depth >= max_depth ==> r.searched >= 1,
        b@.won.is_some() || depth >= max_depth ==> final(statistics)@ == old(statistics)@,
        king_en_prise(b@) && (depth >= max_depth || alpha < SCORE_LIMIT - depth - 1)
            ==> takes_king_now(b@, depth as int, r) && final(statistics)@ == old(statistics)@,
        b@.won.is_none() && depth < max_depth && beta > -SCORE_LIMIT + depth + 2 && r.m
            != no_move() && b@.put(r.m).won.is_none() && king_en_prise(b@.put(r.m)) ==> r.score
            == -SCORE_LIMIT + depth + 2,
        lively(b@, depth as int, max_depth as int) ==> r.searched >= 1,
        b@.won.is_none() && depth < max_depth && r.score <= beta && r.score <= WIN_THRESH
            ==> exists|before: Seq<i32>|
            final(statistics)@ == #[trigger] bumped(before, order_key(r.m)),
        b@.won.is_none() && depth < max_depth && moves_of(b@, b@.turn, true).len() == 0
            ==> final(statistics)@ == bumped(old(statistics)@, order_key(no_move())),
    decreases max_depth - depth,
{
    if b.won.is_some() {
        return search_result_of(-SCORE_LIMIT + (depth as i32), 1);
    }
    if depth >= max_depth {
        proof {
            b.lemma_wf();
            if king_en_prise(b@) {
                lemma_king_capture_is_quiet_move(b@);
                assert forall|k: int| 0 <= k < qsearch_of(b@).len() implies moves_of(
                    b@,
                    b@.turn,
                    true,
                ).contains(#[trigger] qsearch_of(b@)[k]) by {
                    lemma_qsearch_fits(b@, k);
                }
            }
        }
        return q_rec_search(
            b,
            depth,
            depth + QSEARCH_DEPTH,
            evaluate(b),
            beta,
            table,
            statistics,
        );
    }
    let moves = all_valid_moves(b, table);
    proof {
        b.lemma_wf();
        assert forall|k: int| 0 <= k < moves@.len() implies (#[trigger] moves@[k]).fits() by {
            lemma_moves_legal(b@, b@.turn, true, k);
        }
    }
    let ordered = reorder_moves(b, moves.as_slice(), statistics);
    let mut best: SearchResult = search_result_of(alpha, 0);
    let mut next_board = b.duplicate();
    let ghost replies = replies_of(b@, ordered@, depth as int, max_depth as int);
    let ghost value = search_value(b@, depth as int, max_depth as int);
    let ghost start = statistics@;
    let ghost mut chosen: int = -1;
    proof {
        lemma_best_of_reordered(b@, moves@, ordered@, depth as int, max_depth as int);
        assert forall|k: int| 0 <= k < ordered@.len() implies (#[trigger] ordered@[k]).fits() by {
            lemma_reordered_member(moves@, ordered@, k);
        }
    }
    let mut i: usize = 0;
    while i < ordered.len()
        invariant
            i <= ordered.len(),
            table.wf(),
            statistics.wf(),
            depth < max_depth <= DEPTH_LIMIT,
            -SCORE_LIMIT <= alpha <= SCORE_LIMIT,
            -SCORE_LIMIT <= beta <= SCORE_LIMIT,
            -SCORE_LIMIT <= best.score <= SCORE_LIMIT,
            best.searched >= 0,
            forall|k: int| 0 <= k < ordered@.len() ==> (#[trigger] ordered@[k]).fits(),
            ordered@.to_multiset() == moves_of(b@, b@.turn, true).to_multiset(),
            ordered@.len() == moves_of(b@, b@.turn, true).len(),
            replies == replies_of(b@, ordered@, depth as int, max_depth as int),
            value == search_value(b@, depth as int, max_depth as int),
            b@.won.is_none(),
            is_best(value, replies),
            progress(replies, i as int, alpha as int, beta as int, best.score as int, chosen),
            chosen >= 0 ==> chosen < i && best.m == ordered@[chosen],
            chosen < 0 ==> best.m == no_move(),
            king_en_prise(b@) ==> takes_king(b@, ordered@[0]),
            king_en_prise(b@) && alpha < SCORE_LIMIT - depth - 1 ==> i == 0,
            start == old(statistics)@,
            i == 0 ==> best.searched == 0 && best.score == alpha && statistics@ == start,
            lively(b@, depth as int, max_depth as int) && i > 0 ==> best.searched >= 1,
            chosen >= 0 && beta > -SCORE_LIMIT + depth + 2 && b@.put(
                best.m,
            ).won.is_none() && king_en_prise(b@.put(best.m)) ==> best.score == -SCORE_LIMIT + depth
                + 2,
        decreases ordered.len() - i,
    {
        let m = ordered[i];
        next_board.copy_from(b);
        next_board.put_move(&m);
        proof {
            lemma_child_is_lively(b@, ordered@, i as int, depth as int, max_depth as int);
        }
        let result = rec_search(
            &next_board,
            depth + 1,
            max_depth,
            -beta,
            -best.score,
            table,
            statistics,
        );
        let score: i32 = -result.score;
        best.searched = add_nodes(best.searched, result.searched);
        proof {
            lemma_progress_step(
                replies,
                i as int,
                alpha as int,
                beta as int,
                best.score as int,
                chosen,
                search_value(next_board@, depth + 1, max_depth as int),
                result.score as int,
            );
        }
        if score > best.score {
            best.m = m;
            best.score = score;
            proof {
                chosen = i as int;
            }
        }
        if score > beta || score > WIN_THRESH {
            proof {
                lemma_progress_done(
                    replies,
                    i + 1,
                    alpha as int,
                    beta as int,
                    best.score as int,
                    chosen,
                    value,
                );
                if chosen >= 0 {
                    lemma_reordered_member(moves_of(b@, b@.turn, true), ordered@, chosen);
                }
            }
            return best;
        }
        i += 1;
    }
    proof {
        lemma_progress_done(
            replies,
            i as int,
            alpha as int,
            beta as int,
            best.score as int,
            chosen,
            value,
        );
        if chosen >= 0 {
            lemma_reordered_member(moves_of(b@, b@.turn, true), ordered@, chosen);
        }
    }
    let ghost before = statistics@;
    update_move_order_table(statistics, &best.m);
    proof {
        assert(statistics@ == bumped(before, order_key(best.m)));
    }
    best
}

/// In a lively position, the position after each move is lively too.
proof fn lemma_child_is_lively(
    pos: Position,
    ordered: Seq<Move>,
    i: int,
    depth: int,
    max_depth: int,
)
    requires
        pos.won.is_none(),
        depth < max_depth,
        ordered.to_multiset() == moves_of(pos, pos.turn, true).to_multiset(),
        0 <= i < ordered.len(),
    ensures
        lively(pos, depth, max_depth) ==> lively(pos.put(ordered[i]), depth + 1, max_depth),
{
    lemma_reordered_member(moves_of(pos, pos.turn, true), ordered, i);
}

/// How far the score `s` of a search with the full window pins the value
/// `v` down: between the thresholds it is the value; above, the value is
/// at least as high; below, at most as low.
pub open spec fn agrees(v: int, s: int) -> bool {
    &&& (-WIN_THRESH <= s <= WIN_THRESH ==> v == s)
    &&& (s > WIN_THRESH ==> v >= s)
    &&& (s < -WIN_THRESH ==> v <= s)
}

/// The result `r` is what a search of `pos` to the horizon `d` may return:
/// a generated move, with a score that agrees with the minimax value at that
/// horizon, and which is worth that score unless the position is lost.  A
/// move after which the other side can take a king scores as the loss two
/// plies on.  At least one position was scored, unless some line of play
/// runs into a position without a move.
pub open spec fn found_at(pos: Position, d: int, r: SearchResult) -> bool {
    &&& moves_of(pos, pos.turn, true).contains(r.m)
    &&& r.m != no_move()
    &&& r.score > -SCORE_LIMIT
    &&& agrees(search_value(pos, 0, d), r.score as int)
    &&& (r.score >= -WIN_THRESH ==> reply_value(pos, r.m, 0, d) >= r.score)
    &&& (pos.put(r.m).won.is_none() && king_en_prise(pos.put(r.m)) ==> r.score == -SCORE_LIMIT
        + 2)
    &&& r.searched >= 0
    &&& (d == 1 || lively(pos, 0, d) ==> r.searched >= 1)
}

/// The result `r` is what the iterative deepening may return when it stops
/// at the horizon `d`: no shallower horizon showed a forced win, and `d` is
/// the deepest horizon unless it shows one.
pub open spec fn settled_at(pos: Position, d: int, r: SearchResult) -> bool {
    &&& found_at(pos, d, r)
    &&& (d < SEARCH_DEPTH ==> r.score > WIN_THRESH)
    &&& forall|e: int| 1 <= e < d ==> #[trigger] search_value(pos, 0, e) <= WIN_THRESH
}

/// The full-window search of `b` to the horizon `max_depth`: `None` if it
/// finds no move.  A king that can be taken is taken.  The score agrees with the minimax value at that horizon;
/// where that value lies between the thresholds, score and value are equal
/// and the move returned is one that minimax would choose.
pub fn search_at(b: &Board, max_depth: u8, table: &MoveTable, statistics: &mut MoveOrderTable) -> (found:
    Option<SearchResult>)
    requires
        table.wf(),
        old(statistics).wf(),
        1 <= max_depth <= DEPTH_LIMIT,
    ensures
        final(statistics).wf(),
        found matches Some(r) ==> found_at(b@, max_depth as int, r),
        found is None ==> search_value(b@, 0, max_depth as int) == -SCORE_LIMIT,
        search_value(b@, 0, max_depth as int) > -SCORE_LIMIT ==> found is Some,
        b@.won.is_some() || moves_of(b@, b@.turn, true).len() == 0 ==> found is None,
        king_en_prise(b@) ==> found is Some && takes_king_now(b@, 0, found->0),
        king_en_prise(b@) ==> final(statistics)@ == old(statistics)@,
        found matches Some(r) ==> (-WIN_THRESH <= search_value(b@, 0, max_depth as int)
            <= WIN_THRESH ==> r.score == search_value(b@, 0, max_depth as int) && reply_value(
            b@,
            r.m,
            0,
            max_depth as int,
        ) == search_value(b@, 0, max_depth as int)),
{
    let result = rec_search(b, 0, max_depth, -SCORE_LIMIT, SCORE_LIMIT, table, statistics);
    proof {
        b.lemma_wf();
        let moves = moves_of(b@, b@.turn, true);
        if max_depth == 1 && moves.len() > 0 {
            reveal_with_fuel(lively, 2);
            assert(lively(b@, 0, 1));
        }
        lemma_best_reply(b@, moves, moves.len() as int, 0, max_depth as int);
        if b@.won.is_none() && moves.contains(result.m) {
            let j = choose|j: int| 0 <= j < moves.len() && moves[j] == result.m;
            lemma_moves_legal(b@, b@.turn, true, j);
            assert(reply_value(b@, moves[j], 0, max_depth as int) <= search_value(
                b@,
                0,
                max_depth as int,
            ));
        }
    }
    if result.m == invalid_move() {
        None
    } else {
        Some(result)
    }
}

/// The best move for the side to move, by iterative deepening up to
/// `SEARCH_DEPTH`: it stops at the first horizon that shows a forced win.
///
/// A king that can be taken is taken at once.
/// There is no answer once a king is captured or when no move exists.
/// Otherwise there is one, unless at the deepest horizon every move lets
/// the other side reach a position in which the mover has no move at all.
/// If the minimax value at any horizon up to `SEARCH_DEPTH` is a forced
/// win, the answer scores above `WIN_THRESH`.
pub fn find_best_move(b: &Board, table: &MoveTable, statistics: &mut MoveOrderTable) -> (found:
    Option<SearchResult>)
    requires
        table.wf(),
        old(statistics).wf(),
    ensures
        final(statistics).wf(),
        found matches Some(r) ==> exists|d: int|
            1 <= d <= SEARCH_DEPTH && #[trigger] settled_at(b@, d, r),
        found is None ==> b@.won.is_some() || moves_of(b@, b@.turn, true).len() == 0
            || search_value(b@, 0, SEARCH_DEPTH as int) == -SCORE_LIMIT,
        b@.won.is_some() || moves_of(b@, b@.turn, true).len() == 0 ==> found is None,
        (exists|k: int| 1 <= k <= SEARCH_DEPTH && #[trigger] search_value(b@, 0, k) > WIN_THRESH)
            ==> found is Some && found->0.score > WIN_THRESH,
        king_en_prise(b@) ==> found is Some && takes_king_now(b@, 0, found->0),
        king_en_prise(b@) ==> final(statistics)@ == old(statistics)@,
{
    let mut last_result: Option<SearchResult> = None;
    let mut depth: u8 = 1;
    while depth <= SEARCH_DEPTH
        invariant
            1 <= depth <= SEARCH_DEPTH + 1,
            table.wf(),
            statistics.wf(),
            depth == 1 ==> last_result is None && statistics@ == old(statistics)@,
            depth > 1 ==> last_result is Some && found_at(b@, depth - 1, last_result->0),
            depth > 1 ==> !king_en_prise(b@),
            forall|e: int| 1 <= e < depth ==> #[trigger] search_value(b@, 0, e) <= WIN_THRESH,
        decreases SEARCH_DEPTH + 1 - depth,
    {
        last_result = search_at(b, depth, table, statistics);
        match last_result {
            None => {
                proof {
                    b.lemma_wf();
                    if b@.won.is_none() && moves_of(b@, b@.turn, true).len() > 0 && depth < 3 {
                        lemma_shallow_value(b@, depth as int);
                    }
                }
                return None;
            },
            Some(r) => {
                if r.score > WIN_THRESH {
                    proof {
                        assert(settled_at(b@, depth as int, r));
                    }
                    return last_result;
                }
            },
        }
        depth += 1;
    }
    proof {
        assert(settled_at(b@, SEARCH_DEPTH as int, last_result->0));
    }
    last_result
}

} // verus!
