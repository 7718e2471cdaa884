//! The generator leaves nothing out: every step that slides over free
//! squares onto a square not held by the mover, and every drop of a piece
//! in hand onto a free square, is among the generated moves.

use super::legal::{
    clear_path, legal_drop, legal_step, lemma_first_blocked, lemma_on_board_before,
    lemma_run_end, slides,
};
use super::move_gen::{
    board_moves, drops_onto, first_blocked, hand_drops, moves_of, offers, ray_scan, run_end,
    scan_rays, slot_drops, square_moves,
};
use super::rays::{
    arrivals, lemma_rays_wf, on_board, ray_entry, ray_moves, rays_from, rays_of, square_at,
    Ray,
};
use crate::game::board::Position;
use crate::game::moves::{DROP_BASE, HAND_SLOTS, SQUARES};
use crate::game::{Move, Piece, Turn};
use vstd::prelude::*;

verus! {

/// The step along `r` at which the `i`-th of the moves listed from the
/// `k0`-th step on arrives.
pub open spec fn step_of(p: Piece, pos: int, r: Ray, k0: int, i: int) -> int
    decreases r.reach - k0 + 1,
{
    if k0 > r.reach || k0 < 1 {
        k0
    } else if on_board(pos, r, k0) {
        let a = arrivals(p, pos, square_at(pos, r, k0));
        if i < a.len() {
            k0
        } else {
            step_of(p, pos, r, k0 + 1, i - a.len())
        }
    } else {
        step_of(p, pos, r, k0 + 1, i)
    }
}

/// Each listed move arrives at its step, and the steps do not fall along
/// the list.
proof fn lemma_step_of(p: Piece, pos: int, r: Ray, k0: int, h: int, i: int)
    requires
        0 <= pos < SQUARES,
        1 <= k0,
        0 <= h <= i < ray_moves(p, pos, r, k0).len(),
    ensures
        k0 <= step_of(p, pos, r, k0, h) <= step_of(p, pos, r, k0, i),
        ray_entry(p, pos, r, ray_moves(p, pos, r, k0)[i], step_of(p, pos, r, k0, i)),
        ray_entry(p, pos, r, ray_moves(p, pos, r, k0)[h], step_of(p, pos, r, k0, h)),
    decreases r.reach - k0 + 1,
{
    if on_board(pos, r, k0) {
        let a = arrivals(p, pos, square_at(pos, r, k0));
        if i < a.len() {
        } else if h < a.len() {
            lemma_step_of(p, pos, r, k0 + 1, i - a.len(), i - a.len());
        } else {
            lemma_step_of(p, pos, r, k0 + 1, h - a.len(), i - a.len());
        }
    } else {
        lemma_step_of(p, pos, r, k0 + 1, h, i);
    }
}

/// Each way of arriving on the `k`-th square of a ray is listed, at its step.
proof fn lemma_listed(p: Piece, pos: int, r: Ray, k0: int, k: int, way: int) -> (i: int)
    requires
        0 <= pos < SQUARES,
        r.wf(),
        1 <= k0 <= k <= r.reach,
        on_board(pos, r, k),
        0 <= way < arrivals(p, pos, square_at(pos, r, k)).len(),
    ensures
        0 <= i < ray_moves(p, pos, r, k0).len(),
        ray_moves(p, pos, r, k0)[i] == arrivals(p, pos, square_at(pos, r, k))[way],
        step_of(p, pos, r, k0, i) == k,
    decreases k - k0,
{
    lemma_on_board_before(pos, r, k, k0);
    let a = arrivals(p, pos, square_at(pos, r, k0));
    if k0 == k {
        way
    } else {
        let rest = lemma_listed(p, pos, r, k0 + 1, k, way);
        a.len() + rest
    }
}

/// A listed move that slides over free squares onto a square that the
/// mover does not hold is open.
proof fn lemma_open(squares: Seq<Piece>, turn: Turn, p: Piece, pos: int, r: Ray, i: int)
    requires
        squares.len() == SQUARES,
        0 <= pos < SQUARES,
        r.wf(),
        0 <= i < ray_moves(p, pos, r, 1).len(),
        clear_path(squares, pos, r, step_of(p, pos, r, 1, i)),
        squares[ray_moves(p, pos, r, 1)[i].dst as int] == Piece::Absent || squares[ray_moves(
            p,
            pos,
            r,
            1,
        )[i].dst as int].color() != turn,
    ensures
        i < ray_scan(squares, turn, ray_moves(p, pos, r, 1)).len(),
        ray_scan(squares, turn, ray_moves(p, pos, r, 1))[i] == ray_moves(p, pos, r, 1)[i],
{
    let l = ray_moves(p, pos, r, 1);
    let k = step_of(p, pos, r, 1, i);
    let stop = first_blocked(squares, l, 0);
    lemma_first_blocked(squares, l, 0);
    lemma_step_of(p, pos, r, 1, i, i);
    assert forall|h: int| 0 <= h <= i implies squares[(#[trigger] l[h]).dst as int] == Piece::Absent
        || (step_of(p, pos, r, 1, h) == k && l[h].dst == l[i].dst) by {
        lemma_step_of(p, pos, r, 1, h, i);
        let j = step_of(p, pos, r, 1, h);
        if j < k {
            assert(squares[square_at(pos, r, j)] == Piece::Absent);
        }
    }
    if stop <= i {
        let target = l[stop].dst as int;
        lemma_step_of(p, pos, r, 1, stop, i);
        let j = step_of(p, pos, r, 1, stop);
        if j < k {
            assert(squares[square_at(pos, r, j)] == Piece::Absent);
        }
        assert(j == k);
        assert(l[stop].dst == l[i].dst);
        assert forall|h: int| stop <= h <= i implies (#[trigger] l[h]).dst == target by {
            lemma_step_of(p, pos, r, 1, stop, h);
            lemma_step_of(p, pos, r, 1, h, i);
        }
        lemma_run_past(l, target, stop, i);
        lemma_run_end(l, target, stop);
        assert(squares[target] != Piece::Absent);
        assert(squares[target].color() != turn);
        assert(ray_scan(squares, turn, l) == l.subrange(0, run_end(l, target, stop)));
    } else if stop < l.len() {
        lemma_run_end(l, l[stop].dst as int, stop);
        assert(ray_scan(squares, turn, l).len() >= stop);
    } else {
        assert(ray_scan(squares, turn, l) == l.subrange(0, stop));
    }
}

/// A run of moves to one square ends behind the last of them.
proof fn lemma_run_past(ray: Seq<Move>, square: int, from: int, i: int)
    requires
        0 <= from <= i < ray.len(),
        forall|h: int| from <= h <= i ==> (#[trigger] ray[h]).dst == square,
    ensures
        run_end(ray, square, from) > i,
    decreases i - from,
{
    if from < i {
        lemma_run_past(ray, square, from + 1, i);
    } else {
        super::legal::lemma_run_end(ray, square, i + 1);
    }
}

/// The open moves of each of the first `n` rays are among the open moves
/// of these rays together.
proof fn lemma_scan_rays_holds(
    squares: Seq<Piece>,
    turn: Turn,
    rays: Seq<Seq<Move>>,
    n: int,
    ri: int,
    i: int,
)
    requires
        0 <= ri < n <= rays.len(),
        0 <= i < ray_scan(squares, turn, rays[ri]).len(),
    ensures
        scan_rays(squares, turn, rays, n).contains(ray_scan(squares, turn, rays[ri])[i]),
    decreases n,
{
    let head = scan_rays(squares, turn, rays, n - 1);
    let all = scan_rays(squares, turn, rays, n);
    if ri == n - 1 {
        assert(all[head.len() + i] == ray_scan(squares, turn, rays[ri])[i]);
    } else {
        lemma_scan_rays_holds(squares, turn, rays, n - 1, ri, i);
        let j = choose|j: int|
            0 <= j < head.len() && head[j] == ray_scan(squares, turn, rays[ri])[i];
        assert(all[j] == head[j]);
    }
}

/// The moves from each of the squares below `n` are among the moves from
/// these squares together.
proof fn lemma_board_moves_holds(pos: Position, turn: Turn, n: int, at: int, m: Move)
    requires
        0 <= at < n,
        square_moves(pos, turn, at).contains(m),
    ensures
        board_moves(pos, turn, n).contains(m),
    decreases n,
{
    let head = board_moves(pos, turn, n - 1);
    let all = board_moves(pos, turn, n);
    if at == n - 1 {
        let j = choose|j: int|
            0 <= j < square_moves(pos, turn, at).len() && square_moves(pos, turn, at)[j] == m;
        assert(all[head.len() + j] == m);
    } else {
        lemma_board_moves_holds(pos, turn, n - 1, at, m);
        let j = choose|j: int| 0 <= j < head.len() && head[j] == m;
        assert(all[j] == m);
    }
}

/// Every step that the rules of movement allow is generated, in each way of
/// arriving that its piece has on its destination.
pub proof fn lemma_steps_complete(pos: Position, turn: Turn, dropping: bool, m: Move)
    requires
        pos.wf(),
        pos.won.is_none(),
        legal_step(pos, turn, m),
        arrivals(m.piece, m.src as int, m.dst as int).contains(m),
    ensures
        moves_of(pos, turn, dropping).contains(m),
{
    let p = m.piece;
    let src = m.src as int;
    let (ri, k) = choose|ri: int, k: int|
        0 <= ri < rays_of(m.piece).len() && #[trigger] slides(
            pos.squares,
            m,
            rays_of(m.piece)[ri],
            k,
        );
    let r = rays_of(p)[ri];
    lemma_rays_wf(p);
    let ways = arrivals(p, src, m.dst as int);
    let way = choose|way: int| 0 <= way < ways.len() && ways[way] == m;
    let i = lemma_listed(p, src, r, 1, k, way);
    let l = ray_moves(p, src, r, 1);
    lemma_open(pos.squares, turn, p, src, r, i);
    let rays = rays_from(p, src);
    assert(rays[ri] == l);
    lemma_scan_rays_holds(pos.squares, turn, rays, rays.len() as int, ri, i);
    lemma_board_moves_holds(pos, turn, SQUARES as int, src, m);
    let steps = board_moves(pos, turn, SQUARES as int);
    let j = choose|j: int| 0 <= j < steps.len() && steps[j] == m;
    assert(moves_of(pos, turn, dropping)[j] == m);
}

/// The drop of `p` out of slot `h` onto each free square below `n` is listed.
proof fn lemma_drops_onto_holds(squares: Seq<Piece>, p: Piece, h: int, n: int, dst: int)
    requires
        0 <= dst < n,
        squares[dst] == Piece::Absent,
    ensures
        drops_onto(squares, p, h, n).contains(
            Move { piece: p, src: (DROP_BASE + h) as u8, dst: dst as u8, promote: false },
        ),
    decreases n,
{
    let m = Move { piece: p, src: (DROP_BASE + h) as u8, dst: dst as u8, promote: false };
    let head = drops_onto(squares, p, h, n - 1);
    let all = drops_onto(squares, p, h, n);
    if dst == n - 1 {
        assert(all[head.len() as int] == m);
    } else {
        lemma_drops_onto_holds(squares, p, h, n - 1, dst);
        let j = choose|j: int| 0 <= j < head.len() && head[j] == m;
        assert(all[j] == m);
    }
}

/// The drops out of each of the slots below `n` are among the drops out of
/// these slots together.
proof fn lemma_hand_drops_holds(pos: Position, turn: Turn, n: int, h: int, m: Move)
    requires
        0 <= h < n,
        slot_drops(pos, turn, h).contains(m),
    ensures
        hand_drops(pos, turn, n).contains(m),
    decreases n,
{
    let head = hand_drops(pos, turn, n - 1);
    let all = hand_drops(pos, turn, n);
    if h == n - 1 {
        let j = choose|j: int|
            0 <= j < slot_drops(pos, turn, h).len() && slot_drops(pos, turn, h)[j] == m;
        assert(all[head.len() + j] == m);
    } else {
        lemma_hand_drops_holds(pos, turn, n - 1, h, m);
        let j = choose|j: int| 0 <= j < head.len() && head[j] == m;
        assert(all[j] == m);
    }
}

/// Every drop of a piece in hand onto a free square is generated, out of
/// the first slot that holds the piece.
pub proof fn lemma_drops_complete(pos: Position, turn: Turn, m: Move)
    requires
        pos.wf(),
        pos.won.is_none(),
        legal_drop(pos, turn, m),
        offers(pos.hands, turn, m.slot()),
    ensures
        moves_of(pos, turn, true).contains(m),
{
    let h = m.slot();
    lemma_drops_onto_holds(pos.squares, m.piece, h, SQUARES as int, m.dst as int);
    lemma_hand_drops_holds(pos, turn, HAND_SLOTS as int, h, m);
    let steps = board_moves(pos, turn, SQUARES as int);
    let drops = hand_drops(pos, turn, HAND_SLOTS as int);
    let j = choose|j: int| 0 <= j < drops.len() && drops[j] == m;
    assert(moves_of(pos, turn, true)[steps.len() + j] == m);
}

} // verus!
