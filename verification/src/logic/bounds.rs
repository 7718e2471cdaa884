//! Bounds on scores and values: a static score is far below the mate
//! scores, and a value found `depth` plies from the root is no mate score
//! of fewer plies.

use super::evaluator::{distances, hand_material, material, score_of};
use super::legal::lemma_moves_legal;
use super::minimax::{
    horizon_value, leaf_value, lemma_best_quiet_reply, lemma_best_reply, quiet_reply_value,
    quiet_value, reply_value, search_value, QSEARCH_DEPTH, SCORE_LIMIT,
};
use super::move_gen::{
    king_en_prise, moves_of, picker, qsearch_of, some_takes_king, takes_king, Pick,
};
use crate::game::board::{lemma_first_absent, lemma_first_of, Position};
use crate::game::moves::SQUARES;
use crate::game::{Move, Piece, Turn};
use vstd::prelude::*;

verus! {

/// The largest static score, in absolute value, that any board has.
pub const SCORE_BOUND: i32 = 200_000;

/// The material of `n` squares is within `n` kings.
pub proof fn lemma_material_bound(squares: Seq<Piece>, n: int)
    requires
        0 <= n,
    ensures
        -5000 * n <= material(squares, n) <= 5000 * n,
    decreases n,
{
    if n > 0 {
        lemma_material_bound(squares, n - 1);
    }
}

/// The hand material of `n` slots is within `n` kings.
pub proof fn lemma_hand_material_bound(hands: Seq<Piece>, n: int)
    requires
        0 <= n,
    ensures
        -5000 * n <= hand_material(hands, n) <= 5000 * n,
    decreases n,
{
    if n > 0 {
        lemma_hand_material_bound(hands, n - 1);
    }
}

/// The distances from `n` squares sum to at most four each.
pub proof fn lemma_distances_bound(squares: Seq<Piece>, side: Turn, target: int, n: int)
    requires
        0 <= n <= SQUARES,
        0 <= target < SQUARES,
    ensures
        0 <= distances(squares, side, target, n) <= 4 * n,
    decreases n,
{
    if n > 0 {
        lemma_distances_bound(squares, side, target, n - 1);
    }
}

/// A static score is far from the mate scores.
pub proof fn lemma_score_bound(pos: Position)
    requires
        pos.wf(),
    ensures
        -SCORE_BOUND < score_of(pos) < SCORE_BOUND,
{
    lemma_material_bound(pos.squares, 25);
    lemma_hand_material_bound(pos.hands, 10);
    let target = super::move_gen::king_square(pos, pos.turn.other());
    lemma_first_of(pos.squares, Piece::BKing.colored(pos.turn.other()), 0);
    if target < 25 {
        lemma_distances_bound(pos.squares, pos.turn, target, 25);
    }
}

/// A move that fits leaves a well-formed position well formed.
pub proof fn lemma_put_wf(pos: Position, m: Move)
    requires
        pos.wf(),
        m.fits(),
    ensures
        pos.put(m).wf(),
{
    let emptied = if m.is_drop() {
        pos.hands.update(m.slot(), Piece::Absent)
    } else {
        pos.hands
    };
    lemma_first_absent(emptied, 0);
}

/// Every move of the quiescence search is a generated move, and fits.
pub proof fn lemma_qsearch_fits(pos: Position, i: int)
    requires
        pos.wf(),
        0 <= i < qsearch_of(pos).len(),
    ensures
        qsearch_of(pos)[i].fits(),
        moves_of(pos, pos.turn, true).contains(qsearch_of(pos)[i]),
{
    let all = moves_of(pos, pos.turn, true);
    let pick = if super::move_gen::in_check(pos) {
        Pick::Evasion
    } else {
        Pick::CaptureOrCheck
    };
    let m = qsearch_of(pos)[i];
    assert(all.filter(picker(pick, pos)).contains(m));
    all.lemma_filter_contains_rev(picker(pick, pos), m);
    let j = choose|j: int| 0 <= j < all.len() && all[j] == m;
    lemma_moves_legal(pos, pos.turn, true, j);
}

/// A move that takes a king is a move of the quiescence search: it is a
/// capture, and after it the mover is not in check.
pub proof fn lemma_king_capture_is_quiet_move(pos: Position)
    requires
        pos.wf(),
        king_en_prise(pos),
    ensures
        some_takes_king(pos, qsearch_of(pos)),
{
    let all = moves_of(pos, pos.turn, true);
    let i = choose|i: int| 0 <= i < all.len() && takes_king(pos, #[trigger] all[i]);
    let m = all[i];
    lemma_moves_legal(pos, pos.turn, true, i);
    let pick = if super::move_gen::in_check(pos) {
        Pick::Evasion
    } else {
        Pick::CaptureOrCheck
    };
    let after = pos.put(m).passed();
    assert(after.won.is_some());
    assert(moves_of(after, after.turn.other(), false).len() == 0);
    assert(!super::move_gen::in_check(after));
    assert(picker(pick, pos)(m));
    all.lemma_filter_contains(picker(pick, pos), i);
    let quiet = qsearch_of(pos);
    let j = choose|j: int| 0 <= j < quiet.len() && quiet[j] == m;
    assert(takes_king(pos, quiet[j]));
}

/// A leaf score `depth` plies from the root is no mate score of fewer plies.
pub proof fn lemma_leaf_bound(pos: Position, depth: int)
    requires
        pos.wf(),
        0 <= depth <= 1000,
    ensures
        -SCORE_LIMIT + depth <= leaf_value(pos, depth) <= SCORE_LIMIT - depth,
{
    lemma_score_bound(pos);
}

/// A quiescence value `depth` plies from the root is no mate score of fewer plies.
pub proof fn lemma_quiet_bound(pos: Position, depth: int, cap: int)
    requires
        pos.wf(),
        0 <= depth <= 1000,
        cap <= 1000,
    ensures
        -SCORE_LIMIT + depth <= quiet_value(pos, depth, cap) <= SCORE_LIMIT - depth,
    decreases cap - depth,
{
    let moves = qsearch_of(pos);
    if pos.won.is_some() {
    } else if depth >= cap || moves.len() == 0 {
        lemma_leaf_bound(pos, depth);
    } else {
        lemma_best_quiet_reply(pos, moves, moves.len() as int, depth, cap);
        assert forall|k: int| 0 <= k < moves.len() implies -SCORE_LIMIT + depth
            <= #[trigger] quiet_reply_value(pos, moves[k], depth, cap) <= SCORE_LIMIT - depth by {
            lemma_qsearch_fits(pos, k);
            lemma_put_wf(pos, moves[k]);
            lemma_quiet_bound(pos.put(moves[k]), depth + 1, cap);
        }
        assert(-SCORE_LIMIT + depth <= quiet_reply_value(pos, moves[0], depth, cap));
    }
}

/// The value at the horizon, `depth` plies from the root, is no mate score
/// of fewer plies.
pub proof fn lemma_horizon_bound(pos: Position, depth: int)
    requires
        pos.wf(),
        0 <= depth <= 900,
    ensures
        -SCORE_LIMIT + depth <= horizon_value(pos, depth) <= SCORE_LIMIT - depth,
{
    lemma_leaf_bound(pos, depth);
    lemma_score_bound(pos);
    lemma_quiet_bound(pos, depth, depth + QSEARCH_DEPTH);
}

/// While no king is captured and a move exists, the value at the horizons
/// one and two is above `-SCORE_LIMIT`: the search to these horizons finds
/// a move.
pub proof fn lemma_shallow_value(pos: Position, horizon: int)
    requires
        pos.wf(),
        pos.won.is_none(),
        moves_of(pos, pos.turn, true).len() > 0,
        1 <= horizon <= 2,
    ensures
        search_value(pos, 0, horizon) > -SCORE_LIMIT,
{
    let moves = moves_of(pos, pos.turn, true);
    let m = moves[0];
    let next = pos.put(m);
    lemma_moves_legal(pos, pos.turn, true, 0);
    lemma_put_wf(pos, m);
    lemma_best_reply(pos, moves, moves.len() as int, 0, horizon);
    assert(reply_value(pos, moves[0], 0, horizon) <= search_value(pos, 0, horizon));
    if next.won.is_some() {
    } else if horizon == 1 {
        lemma_horizon_bound(next, 1);
    } else {
        let replies = moves_of(next, next.turn, true);
        lemma_best_reply(next, replies, replies.len() as int, 1, 2);
        let v = search_value(next, 1, 2);
        if v != -SCORE_LIMIT {
            let k = choose|k: int|
                0 <= k < replies.len() && #[trigger] reply_value(next, replies[k], 1, 2) == v;
            lemma_moves_legal(next, next.turn, true, k);
            lemma_put_wf(next, replies[k]);
            let after = next.put(replies[k]);
            if after.won.is_none() {
                lemma_horizon_bound(after, 2);
            }
        }
    }
}

} // verus!
