//! What holds of every generated move: it moves a piece of the mover that is
//! really there, slides over free squares only, never lands on a piece of the
//! mover's own side, and drops only onto free squares.

use super::move_gen::{
    board_moves, drops_onto, first_blocked, hand_drops, moves_of, ray_scan, run_end, scan_rays,
    square_moves,
};
use super::rays::{
    arrivals, lemma_ray_step, on_board, promotes_on, ray_entry, ray_moves, rays_from, rays_of,
    square_at, Ray,
};
use crate::game::board::Position;
use crate::game::moves::{DROP_BASE, HAND_SLOTS, SQUARES};
use crate::game::{Move, Piece, Turn};
use vstd::prelude::*;

verus! {

/// The squares before the `k`-th along `r` from `src` are on the board and free.
pub open spec fn clear_path(squares: Seq<Piece>, src: int, r: Ray, k: int) -> bool {
    forall|j: int|
        1 <= j < k ==> on_board(src, r, j) && squares[#[trigger] square_at(src, r, j)]
            == Piece::Absent
}

/// `m` goes to the `k`-th square along `r`, over free squares only.
pub open spec fn slides(squares: Seq<Piece>, m: Move, r: Ray, k: int) -> bool {
    &&& 1 <= k <= r.reach
    &&& on_board(m.src as int, r, k)
    &&& m.dst == square_at(m.src as int, r, k)
    &&& clear_path(squares, m.src as int, r, k)
}

/// `m` is a move on the board that the rules of movement allow `turn`.
pub open spec fn legal_step(pos: Position, turn: Turn, m: Move) -> bool {
    &&& m.src < SQUARES
    &&& m.dst < SQUARES
    &&& m.piece != Piece::Absent
    &&& m.piece.color() == turn
    &&& pos.squares[m.src as int] == m.piece
    &&& (pos.squares[m.dst as int] == Piece::Absent || pos.squares[m.dst as int].color() != turn)
    &&& (m.promote ==> promotes_on(m.piece, m.dst as int))
    &&& exists|ri: int, k: int|
        0 <= ri < rays_of(m.piece).len() && #[trigger] slides(pos.squares, m, rays_of(m.piece)[ri], k)
}

/// `m` places a piece that `turn` holds in hand on a free square.
pub open spec fn legal_drop(pos: Position, turn: Turn, m: Move) -> bool {
    &&& DROP_BASE <= m.src < DROP_BASE + HAND_SLOTS
    &&& m.dst < SQUARES
    &&& !m.promote
    &&& m.piece != Piece::Absent
    &&& m.piece.color() == turn
    &&& pos.hands[m.slot()] == m.piece
    &&& pos.squares[m.dst as int] == Piece::Absent
}

/// `m` is a step or a drop that the rules of movement allow `turn` in `pos`.
pub open spec fn legal(pos: Position, turn: Turn, m: Move) -> bool {
    if m.is_drop() {
        legal_drop(pos, turn, m)
    } else {
        legal_step(pos, turn, m)
    }
}

/// A step along a unit direction times the number of steps.
proof fn lemma_unit_times(k: int, d: int)
    requires
        -1 <= d <= 1,
    ensures
        k * d == if d == 1 {
            k
        } else if d == -1 {
            -k
        } else {
            0
        },
{
    assert(k * 1 == k);
    assert(k * (-1) == -k) by (nonlinear_arith);
    assert(k * 0 == 0);
}

/// A ray that is on the board at its `k`-th step is on the board at every
/// step before it.
pub proof fn lemma_on_board_before(pos: int, r: Ray, k: int, j: int)
    requires
        0 <= pos < SQUARES,
        r.wf(),
        0 <= j <= k,
        on_board(pos, r, k),
    ensures
        on_board(pos, r, j),
        0 <= square_at(pos, r, j) < SQUARES,
{
    lemma_unit_times(k, r.dy as int);
    lemma_unit_times(k, r.dx as int);
    lemma_unit_times(j, r.dy as int);
    lemma_unit_times(j, r.dx as int);
}

/// What `first_blocked` finds: every destination before it is free, and the
/// one at it, if any, is not.
pub proof fn lemma_first_blocked(squares: Seq<Piece>, ray: Seq<Move>, from: int)
    requires
        0 <= from <= ray.len(),
    ensures
        from <= first_blocked(squares, ray, from) <= ray.len(),
        first_blocked(squares, ray, from) < ray.len() ==> squares[ray[first_blocked(
            squares,
            ray,
            from,
        )].dst as int] != Piece::Absent,
        forall|j: int|
            from <= j < first_blocked(squares, ray, from) ==> squares[(#[trigger] ray[j]).dst as int]
                == Piece::Absent,
    decreases ray.len() - from,
{
    if from < ray.len() && squares[ray[from].dst as int] == Piece::Absent {
        lemma_first_blocked(squares, ray, from + 1);
    }
}

/// What `run_end` finds: every move before it goes to `square`.
pub proof fn lemma_run_end(ray: Seq<Move>, square: int, from: int)
    requires
        0 <= from <= ray.len(),
    ensures
        from <= run_end(ray, square, from) <= ray.len(),
        forall|j: int| from <= j < run_end(ray, square, from) ==> (#[trigger] ray[j]).dst == square,
    decreases ray.len() - from,
{
    if from < ray.len() && ray[from].dst == square {
        lemma_run_end(ray, square, from + 1);
    }
}

/// Two different steps along a ray arrive on different squares.
pub proof fn lemma_steps_differ(pos: int, r: Ray, j: int, k: int)
    requires
        0 <= pos < SQUARES,
        r.wf(),
        j != k,
        on_board(pos, r, j),
        on_board(pos, r, k),
    ensures
        square_at(pos, r, j) != square_at(pos, r, k),
{
    lemma_unit_times(k, r.dy as int);
    lemma_unit_times(k, r.dx as int);
    lemma_unit_times(j, r.dy as int);
    lemma_unit_times(j, r.dx as int);
}

/// The open moves of a ray are its first moves; every move before an open
/// move goes to a free square or to the same square as it, and no open move
/// goes onto a piece of the mover's side.
pub proof fn lemma_ray_scan(squares: Seq<Piece>, turn: Turn, ray: Seq<Move>, i: int)
    requires
        0 <= i < ray_scan(squares, turn, ray).len(),
    ensures
        i < ray.len(),
        ray_scan(squares, turn, ray)[i] == ray[i],
        forall|h: int|
            0 <= h < i ==> squares[(#[trigger] ray[h]).dst as int] == Piece::Absent || ray[h].dst
                == ray[i].dst,
        squares[ray[i].dst as int] == Piece::Absent || squares[ray[i].dst as int].color() != turn,
{
    lemma_first_blocked(squares, ray, 0);
    let stop = first_blocked(squares, ray, 0);
    if stop < ray.len() {
        lemma_run_end(ray, ray[stop].dst as int, stop);
    }
}

/// A listed move before which all listed moves go to free squares, or to
/// its own destination, slides over free squares.
proof fn lemma_ray_clear(squares: Seq<Piece>, p: Piece, pos: int, r: Ray, k0: int, i: int) -> (k:
    int)
    requires
        0 <= pos < SQUARES,
        r.wf(),
        1 <= k0,
        clear_path(squares, pos, r, k0),
        0 <= i < ray_moves(p, pos, r, k0).len(),
        forall|h: int|
            0 <= h < i ==> squares[(#[trigger] ray_moves(p, pos, r, k0)[h]).dst as int]
                == Piece::Absent || ray_moves(p, pos, r, k0)[h].dst == ray_moves(
                p,
                pos,
                r,
                k0,
            )[i].dst,
    ensures
        k0 <= k,
        ray_entry(p, pos, r, ray_moves(p, pos, r, k0)[i], k),
        clear_path(squares, pos, r, k),
    decreases r.reach - k0 + 1,
{
    let l = ray_moves(p, pos, r, k0);
    let rest = ray_moves(p, pos, r, k0 + 1);
    if on_board(pos, r, k0) {
        let a = arrivals(p, pos, square_at(pos, r, k0));
        assert(l == a + rest);
        if i < a.len() {
            k0
        } else {
            assert(l[0] == a[0]);
            assert(l[0].dst == square_at(pos, r, k0)) by {
                lemma_on_board_before(pos, r, k0, k0);
            }
            assert(l[i] == rest[i - a.len()]);
            let far = lemma_ray_step(p, pos, r, k0 + 1, i - a.len());
            lemma_steps_differ(pos, r, k0, far);
            assert(squares[square_at(pos, r, k0)] == Piece::Absent);
            assert forall|h: int| 0 <= h < i - a.len() implies squares[(#[trigger] rest[h]).dst as int]
                == Piece::Absent || rest[h].dst == rest[i - a.len()].dst by {
                assert(rest[h] == l[h + a.len()]);
            }
            lemma_ray_clear(squares, p, pos, r, k0 + 1, i - a.len())
        }
    } else {
        let k = lemma_ray_step(p, pos, r, k0 + 1, i);
        lemma_on_board_before(pos, r, k, k0);
        k0
    }
}

/// Every open move of a ray of `p` from `at` is a legal step, if `p` stands
/// on `at` and belongs to `turn`.
proof fn lemma_ray_scan_legal(pos: Position, turn: Turn, at: int, ri: int, i: int)
    requires
        pos.wf(),
        0 <= at < SQUARES,
        pos.squares[at] != Piece::Absent,
        pos.squares[at].color() == turn,
        0 <= ri < rays_of(pos.squares[at]).len(),
        0 <= i < ray_scan(pos.squares, turn, rays_from(pos.squares[at], at)[ri]).len(),
    ensures
        legal_step(pos, turn, ray_scan(pos.squares, turn, rays_from(pos.squares[at], at)[ri])[i]),
{
    let p = pos.squares[at];
    let r = rays_of(p)[ri];
    let ray = rays_from(p, at)[ri];
    assert(ray == ray_moves(p, at, r, 1));
    lemma_ray_scan(pos.squares, turn, ray, i);
    super::rays::lemma_rays_wf(p);
    let k = lemma_ray_clear(pos.squares, p, at, r, 1, i);
    let m = ray[i];
    assert(slides(pos.squares, m, rays_of(m.piece)[ri], k));
}

/// Each of the open moves of the first `n` rays is an open move of one of them.
proof fn lemma_scan_rays_member(
    squares: Seq<Piece>,
    turn: Turn,
    rays: Seq<Seq<Move>>,
    n: int,
    i: int,
) -> (w: (int, int))
    requires
        0 <= n <= rays.len(),
        0 <= i < scan_rays(squares, turn, rays, n).len(),
    ensures
        0 <= w.0 < n,
        0 <= w.1 < ray_scan(squares, turn, rays[w.0]).len(),
        scan_rays(squares, turn, rays, n)[i] == ray_scan(squares, turn, rays[w.0])[w.1],
    decreases n,
{
    let head = scan_rays(squares, turn, rays, n - 1);
    if i < head.len() {
        lemma_scan_rays_member(squares, turn, rays, n - 1, i)
    } else {
        (n - 1, i - head.len())
    }
}

/// Each of the moves from the squares below `n` is a move from one of them.
proof fn lemma_board_moves_member(pos: Position, turn: Turn, n: int, i: int) -> (w: (int, int))
    requires
        0 <= i < board_moves(pos, turn, n).len(),
    ensures
        0 <= w.0 < n,
        0 <= w.1 < square_moves(pos, turn, w.0).len(),
        board_moves(pos, turn, n)[i] == square_moves(pos, turn, w.0)[w.1],
    decreases n,
{
    let head = board_moves(pos, turn, n - 1);
    if i < head.len() {
        lemma_board_moves_member(pos, turn, n - 1, i)
    } else {
        (n - 1, i - head.len())
    }
}

/// Every move from the board is a legal step.
pub proof fn lemma_board_moves_legal(pos: Position, turn: Turn, n: int, i: int)
    requires
        pos.wf(),
        0 <= n <= SQUARES,
        0 <= i < board_moves(pos, turn, n).len(),
    ensures
        legal_step(pos, turn, board_moves(pos, turn, n)[i]),
{
    let (at, j) = lemma_board_moves_member(pos, turn, n, i);
    let p = pos.squares[at];
    let rays = rays_from(p, at);
    let (ri, h) = lemma_scan_rays_member(pos.squares, turn, rays, rays.len() as int, j);
    lemma_ray_scan_legal(pos, turn, at, ri, h);
}

/// Every drop out of slot `h` onto the squares below `n` goes to a free square.
proof fn lemma_drops_onto(squares: Seq<Piece>, p: Piece, h: int, n: int, i: int)
    requires
        0 <= h < HAND_SLOTS,
        0 <= n <= SQUARES,
        0 <= i < drops_onto(squares, p, h, n).len(),
    ensures
        drops_onto(squares, p, h, n)[i].piece == p,
        drops_onto(squares, p, h, n)[i].src == DROP_BASE + h,
        drops_onto(squares, p, h, n)[i].dst < n,
        !drops_onto(squares, p, h, n)[i].promote,
        squares[drops_onto(squares, p, h, n)[i].dst as int] == Piece::Absent,
    decreases n,
{
    let head = drops_onto(squares, p, h, n - 1);
    if i < head.len() {
        lemma_drops_onto(squares, p, h, n - 1, i);
    }
}

/// Every drop is a legal drop.
pub proof fn lemma_hand_drops_legal(pos: Position, turn: Turn, n: int, i: int)
    requires
        pos.wf(),
        0 <= n <= HAND_SLOTS,
        0 <= i < hand_drops(pos, turn, n).len(),
    ensures
        legal_drop(pos, turn, hand_drops(pos, turn, n)[i]),
    decreases n,
{
    let head = hand_drops(pos, turn, n - 1);
    if i < head.len() {
        lemma_hand_drops_legal(pos, turn, n - 1, i);
    } else {
        lemma_drops_onto(pos.squares, pos.hands[n - 1], n - 1, SQUARES as int, i - head.len());
    }
}

/// Every generated move is legal, and is generated only while no king has
/// been captured.
pub proof fn lemma_moves_legal(pos: Position, turn: Turn, dropping: bool, i: int)
    requires
        pos.wf(),
        0 <= i < moves_of(pos, turn, dropping).len(),
    ensures
        legal(pos, turn, moves_of(pos, turn, dropping)[i]),
        moves_of(pos, turn, dropping)[i].fits(),
        pos.won.is_none(),
{
    let steps = board_moves(pos, turn, SQUARES as int);
    if i < steps.len() {
        lemma_board_moves_legal(pos, turn, SQUARES as int, i);
    } else {
        lemma_hand_drops_legal(pos, turn, HAND_SLOTS as int, i - steps.len());
    }
}

/// A generated drop goes to a free square.
pub proof fn lemma_drop_onto_free(pos: Position, turn: Turn, dropping: bool, i: int)
    requires
        pos.wf(),
        0 <= i < moves_of(pos, turn, dropping).len(),
        moves_of(pos, turn, dropping)[i].src >= DROP_BASE,
    ensures
        pos.squares[moves_of(pos, turn, dropping)[i].dst as int] == Piece::Absent,
{
    lemma_moves_legal(pos, turn, dropping, i);
}

/// A generated step never passes over an occupied square: it follows one ray
/// of its piece, and every square of the ray before its destination is free.
pub proof fn lemma_ray_blockage(pos: Position, turn: Turn, dropping: bool, i: int)
    requires
        pos.wf(),
        0 <= i < moves_of(pos, turn, dropping).len(),
        moves_of(pos, turn, dropping)[i].src < DROP_BASE,
    ensures
        exists|ri: int, k: int|
            0 <= ri < rays_of(moves_of(pos, turn, dropping)[i].piece).len() && #[trigger] slides(
                pos.squares,
                moves_of(pos, turn, dropping)[i],
                rays_of(moves_of(pos, turn, dropping)[i].piece)[ri],
                k,
            ),
{
    lemma_moves_legal(pos, turn, dropping, i);
}

/// A generated move does what it says: it lifts the piece it names, from
/// a square other than its destination or out of the hand onto a free square.
pub proof fn lemma_generated_is_faithful(pos: Position, dropping: bool, i: int)
    requires
        pos.wf(),
        0 <= i < moves_of(pos, pos.turn, dropping).len(),
    ensures
        crate::game::material::faithful(pos, moves_of(pos, pos.turn, dropping)[i]),
{
    lemma_moves_legal(pos, pos.turn, dropping, i);
}

} // verus!
