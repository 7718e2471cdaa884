//! The value that the search computes: plain minimax over the generated
//! moves, with the quiescence extension at the horizon, and what an
//! alpha-beta answer says about it.

use super::checkmate::{mate_of, MateResult};
use super::evaluator::score_of;
use super::move_gen::{moves_of, qsearch_of};
use crate::game::board::Position;
use crate::game::Move;
use vstd::prelude::*;

verus! {

/// Deepest full-width search of the iterative deepening.
pub const SEARCH_DEPTH: u8 = 3;

/// How many plies the quiescence search goes beyond the horizon.
pub const QSEARCH_DEPTH: u8 = 3;

/// No score is beyond this; a mate found at `depth` scores this less `depth`.
pub const SCORE_LIMIT: i32 = 100_000_000;

/// A score above this is a forced win.
pub const WIN_THRESH: i32 = 90_000_000;

/// The larger of two scores.
pub open spec fn max_of(a: int, b: int) -> int {
    if a >= b {
        a
    } else {
        b
    }
}

/// The score of a position at which the search stops: the static score,
/// unless the mate detector knows better.
pub open spec fn leaf_value(pos: Position, depth: int) -> int {
    match mate_of(pos) {
        MateResult::Unknown => score_of(pos),
        MateResult::Win => SCORE_LIMIT - depth,
        MateResult::Lose => -SCORE_LIMIT + depth,
    }
}

/// The minimax value of `pos` in the quiescence search, `depth` plies from
/// the root, with the search ending at `cap`.
pub open spec fn quiet_value(pos: Position, depth: int, cap: int) -> int
    decreases cap - depth, 1int, 0int,
{
    if pos.won.is_some() {
        -SCORE_LIMIT + depth
    } else if depth >= cap || qsearch_of(pos).len() == 0 {
        leaf_value(pos, depth)
    } else {
        best_quiet_reply(pos, qsearch_of(pos), qsearch_of(pos).len() as int, depth, cap)
    }
}

/// The best, for the mover in `pos`, of the values of the first `n` of
/// `moves` in the quiescence search.
pub open spec fn best_quiet_reply(pos: Position, moves: Seq<Move>, n: int, depth: int, cap: int) -> int
    decreases cap - depth, 0int, n,
{
    if n <= 0 || depth >= cap {
        -SCORE_LIMIT as int
    } else {
        max_of(
            best_quiet_reply(pos, moves, n - 1, depth, cap),
            -quiet_value(pos.put(moves[n - 1]), depth + 1, cap),
        )
    }
}

/// The value of a position at the horizon of the full-width search: the
/// leaf score if no quiescence move exists, else the better of standing pat
/// and the quiescence search.
pub open spec fn horizon_value(pos: Position, depth: int) -> int {
    if qsearch_of(pos).len() == 0 {
        leaf_value(pos, depth)
    } else {
        max_of(score_of(pos), quiet_value(pos, depth, depth + QSEARCH_DEPTH))
    }
}

/// The minimax value of `pos`, `depth` plies from the root, with the
/// horizon at `max_depth`.  A position in which a king has been captured is
/// lost for the side to move; one without moves counts as `-SCORE_LIMIT`.
pub open spec fn search_value(pos: Position, depth: int, max_depth: int) -> int
    decreases max_depth - depth, 1int, 0int,
{
    if pos.won.is_some() {
        -SCORE_LIMIT + depth
    } else if depth >= max_depth {
        horizon_value(pos, depth)
    } else {
        best_reply(
            pos,
            moves_of(pos, pos.turn, true),
            moves_of(pos, pos.turn, true).len() as int,
            depth,
            max_depth,
        )
    }
}

/// The best, for the mover in `pos`, of the values of the first `n` of `moves`.
pub open spec fn best_reply(pos: Position, moves: Seq<Move>, n: int, depth: int, max_depth: int) -> int
    decreases max_depth - depth, 0int, n,
{
    if n <= 0 || depth >= max_depth {
        -SCORE_LIMIT as int
    } else {
        max_of(
            best_reply(pos, moves, n - 1, depth, max_depth),
            -search_value(pos.put(moves[n - 1]), depth + 1, max_depth),
        )
    }
}

/// What the move `m` is worth to the mover in `pos`.
pub open spec fn reply_value(pos: Position, m: Move, depth: int, max_depth: int) -> int {
    -search_value(pos.put(m), depth + 1, max_depth)
}

/// What the move `m` is worth to the mover in `pos` in the quiescence search.
pub open spec fn quiet_reply_value(pos: Position, m: Move, depth: int, cap: int) -> int {
    -quiet_value(pos.put(m), depth + 1, cap)
}

/// `v` is the largest of `replies`, or `-SCORE_LIMIT` if that is larger.
pub open spec fn is_best(v: int, replies: Seq<int>) -> bool {
    &&& v >= -SCORE_LIMIT
    &&& forall|k: int| 0 <= k < replies.len() ==> replies[k] <= v
    &&& (v == -SCORE_LIMIT || exists|k: int| 0 <= k < replies.len() && replies[k] == v)
}

/// What a search with the window `alpha`, `beta` says by answering `s` for a
/// position of value `v`.  An answer above `alpha` that is no forced loss is
/// a lower bound; an answer below `beta` that is no forced win is an upper
/// bound.  So inside the window, and between the two thresholds, the answer
/// is the value.
pub open spec fn answers(v: int, alpha: int, beta: int, s: int) -> bool {
    &&& (s > alpha && s >= -WIN_THRESH ==> v >= s)
    &&& (s < beta && s <= WIN_THRESH ==> v <= s)
}

/// What is known after the first `i` moves of a node were searched: `best`
/// is the best score so far and `chosen` the index of the move that gave it
/// (-1 while no move has beaten `alpha`).
pub open spec fn progress(
    replies: Seq<int>,
    i: int,
    alpha: int,
    beta: int,
    best: int,
    chosen: int,
) -> bool {
    &&& alpha <= best
    &&& (best < beta && best <= WIN_THRESH ==> forall|k: int| 0 <= k < i ==> replies[k] <= best)
    &&& (best > alpha ==> 0 <= chosen < i && (best >= -WIN_THRESH ==> replies[chosen] >= best))
    &&& (best == alpha ==> chosen == -1)
}

/// Searching one more move keeps what is known: the child was searched with
/// the window turned round, and its answer, negated, is the score of the move.
pub proof fn lemma_progress_step(
    replies: Seq<int>,
    i: int,
    alpha: int,
    beta: int,
    best: int,
    chosen: int,
    child_value: int,
    child_answer: int,
)
    requires
        0 <= i < replies.len(),
        progress(replies, i, alpha, beta, best, chosen),
        replies[i] == -child_value,
        answers(child_value, -beta, -best, child_answer),
    ensures
        progress(
            replies,
            i + 1,
            alpha,
            beta,
            max_of(best, -child_answer),
            if -child_answer > best {
                i
            } else {
                chosen
            },
        ),
{
}

/// When a node is done, by a cutoff or by running out of moves, its best
/// score answers for its value.
pub proof fn lemma_progress_done(
    replies: Seq<int>,
    i: int,
    alpha: int,
    beta: int,
    best: int,
    chosen: int,
    v: int,
)
    requires
        0 <= i <= replies.len(),
        -SCORE_LIMIT <= alpha,
        progress(replies, i, alpha, beta, best, chosen),
        i == replies.len() || best > beta || best > WIN_THRESH,
        is_best(v, replies),
    ensures
        answers(v, alpha, beta, best),
{
}

/// The best of the first `n` replies is at least each of them, and is one
/// of them unless none beats `-SCORE_LIMIT`.
pub proof fn lemma_best_reply(pos: Position, moves: Seq<Move>, n: int, depth: int, max_depth: int)
    requires
        0 <= n <= moves.len(),
        depth < max_depth,
    ensures
        best_reply(pos, moves, n, depth, max_depth) >= -SCORE_LIMIT,
        forall|k: int|
            0 <= k < n ==> #[trigger] reply_value(pos, moves[k], depth, max_depth) <= best_reply(
                pos,
                moves,
                n,
                depth,
                max_depth,
            ),
        best_reply(pos, moves, n, depth, max_depth) == -SCORE_LIMIT || exists|k: int|
            0 <= k < n && #[trigger] reply_value(pos, moves[k], depth, max_depth) == best_reply(
                pos,
                moves,
                n,
                depth,
                max_depth,
            ),
    decreases n,
{
    if n > 0 {
        lemma_best_reply(pos, moves, n - 1, depth, max_depth);
        let before = best_reply(pos, moves, n - 1, depth, max_depth);
        let last = reply_value(pos, moves[n - 1], depth, max_depth);
        if before != -SCORE_LIMIT && before >= last {
            let k = choose|k: int|
                0 <= k < n - 1 && #[trigger] reply_value(pos, moves[k], depth, max_depth) == before;
            assert(reply_value(pos, moves[k], depth, max_depth) == best_reply(
                pos,
                moves,
                n,
                depth,
                max_depth,
            ));
        }
    }
}

/// The same for the quiescence search.
pub proof fn lemma_best_quiet_reply(pos: Position, moves: Seq<Move>, n: int, depth: int, cap: int)
    requires
        0 <= n <= moves.len(),
        depth < cap,
    ensures
        best_quiet_reply(pos, moves, n, depth, cap) >= -SCORE_LIMIT,
        forall|k: int|
            0 <= k < n ==> #[trigger] quiet_reply_value(pos, moves[k], depth, cap)
                <= best_quiet_reply(pos, moves, n, depth, cap),
        best_quiet_reply(pos, moves, n, depth, cap) == -SCORE_LIMIT || exists|k: int|
            0 <= k < n && #[trigger] quiet_reply_value(pos, moves[k], depth, cap)
                == best_quiet_reply(pos, moves, n, depth, cap),
    decreases n,
{
    if n > 0 {
        lemma_best_quiet_reply(pos, moves, n - 1, depth, cap);
        let before = best_quiet_reply(pos, moves, n - 1, depth, cap);
        let last = quiet_reply_value(pos, moves[n - 1], depth, cap);
        if before != -SCORE_LIMIT && before >= last {
            let k = choose|k: int|
                0 <= k < n - 1 && #[trigger] quiet_reply_value(pos, moves[k], depth, cap) == before;
            assert(quiet_reply_value(pos, moves[k], depth, cap) == best_quiet_reply(
                pos,
                moves,
                n,
                depth,
                cap,
            ));
        }
    }
}

} // verus!
