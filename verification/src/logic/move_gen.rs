//! The move generator: every move that the rules of movement allow a side,
//! without regard to whether it leaves the own king in check.

use super::legal::{legal, lemma_moves_legal};
use super::rays::{lemma_ray_entry, lists, rays_from, MoveTable};
use crate::game::board::{find_piece, first_of, Position};
use crate::game::material::hands_plain;
use crate::game::moves::{DROP_BASE, HAND_SLOTS, SQUARES};
use crate::game::{Board, Move, Piece, Turn};
use vstd::prelude::*;

verus! {

/// The index of the first move of `ray`, at or after `from`, whose
/// destination is occupied; the length of `ray` if there is none.
pub open spec fn first_blocked(squares: Seq<Piece>, ray: Seq<Move>, from: int) -> int
    decreases ray.len() - from,
{
    if from >= ray.len() {
        ray.len() as int
    } else if squares[ray[from].dst as int] != Piece::Absent {
        from
    } else {
        first_blocked(squares, ray, from + 1)
    }
}

/// The index of the first move of `ray`, at or after `from`, that goes
/// elsewhere than to `square`; the length of `ray` if there is none.
pub open spec fn run_end(ray: Seq<Move>, square: int, from: int) -> int
    decreases ray.len() - from,
{
    if from >= ray.len() {
        ray.len() as int
    } else if ray[from].dst != square {
        from
    } else {
        run_end(ray, square, from + 1)
    }
}

/// The moves of `ray` open to `turn`: those that arrive before the first
/// occupied square of the ray, and those that arrive on it too if a piece of
/// the other side stands there.
pub open spec fn ray_scan(squares: Seq<Piece>, turn: Turn, ray: Seq<Move>) -> Seq<Move> {
    let stop = first_blocked(squares, ray, 0);
    if stop < ray.len() && squares[ray[stop].dst as int].color() != turn {
        ray.subrange(0, run_end(ray, ray[stop].dst as int, stop))
    } else {
        ray.subrange(0, stop)
    }
}

/// The open moves of the first `n` of `rays`, in order.
pub open spec fn scan_rays(squares: Seq<Piece>, turn: Turn, rays: Seq<Seq<Move>>, n: int) -> Seq<Move>
    decreases n,
{
    if n <= 0 {
        Seq::empty()
    } else {
        scan_rays(squares, turn, rays, n - 1) + ray_scan(squares, turn, rays[n - 1])
    }
}

/// The moves of the piece on square `at`, if it is a piece of `turn`.
pub open spec fn square_moves(pos: Position, turn: Turn, at: int) -> Seq<Move> {
    let p = pos.squares[at];
    if p == Piece::Absent || p.color() != turn {
        Seq::empty()
    } else {
        scan_rays(pos.squares, turn, rays_from(p, at), rays_from(p, at).len() as int)
    }
}

/// The moves of the pieces of `turn` on the squares below `n`, by square.
pub open spec fn board_moves(pos: Position, turn: Turn, n: int) -> Seq<Move>
    decreases n,
{
    if n <= 0 {
        Seq::empty()
    } else {
        board_moves(pos, turn, n - 1) + square_moves(pos, turn, n - 1)
    }
}

/// Slot `h` holds a piece of `turn` that no earlier slot holds: of equal
/// pieces in hand only the first is offered for dropping.
pub open spec fn offers(hands: Seq<Piece>, turn: Turn, h: int) -> bool {
    &&& hands[h] != Piece::Absent
    &&& hands[h].color() == turn
    &&& forall|j: int| 0 <= j < h ==> hands[j] != hands[h]
}

/// The drops of `p` out of slot `h` onto the free squares below `n`.
pub open spec fn drops_onto(squares: Seq<Piece>, p: Piece, h: int, n: int) -> Seq<Move>
    decreases n,
{
    if n <= 0 {
        Seq::empty()
    } else if squares[n - 1] == Piece::Absent {
        drops_onto(squares, p, h, n - 1).push(
            Move { piece: p, src: (DROP_BASE + h) as u8, dst: (n - 1) as u8, promote: false },
        )
    } else {
        drops_onto(squares, p, h, n - 1)
    }
}

/// The drops out of slot `h`.
pub open spec fn slot_drops(pos: Position, turn: Turn, h: int) -> Seq<Move> {
    if offers(pos.hands, turn, h) {
        drops_onto(pos.squares, pos.hands[h], h, SQUARES as int)
    } else {
        Seq::empty()
    }
}

/// The drops out of the slots below `n`, by slot.
pub open spec fn hand_drops(pos: Position, turn: Turn, n: int) -> Seq<Move>
    decreases n,
{
    if n <= 0 {
        Seq::empty()
    } else {
        hand_drops(pos, turn, n - 1) + slot_drops(pos, turn, n - 1)
    }
}

/// The moves of `turn` in `pos`: none once a king has been captured; else the
/// moves on the board, followed by the drops if `dropping` asks for them.
pub open spec fn moves_of(pos: Position, turn: Turn, dropping: bool) -> Seq<Move> {
    if pos.won.is_some() {
        Seq::empty()
    } else if dropping {
        board_moves(pos, turn, SQUARES as int) + hand_drops(pos, turn, HAND_SLOTS as int)
    } else {
        board_moves(pos, turn, SQUARES as int)
    }
}

/// The move `m` lands on a king.
pub open spec fn takes_king(pos: Position, m: Move) -> bool {
    pos.squares[m.dst as int].is_king()
}

/// Some of `moves` lands on a king.
pub open spec fn some_takes_king(pos: Position, moves: Seq<Move>) -> bool {
    exists|i: int| 0 <= i < moves.len() && takes_king(pos, #[trigger] moves[i])
}

/// The side to move can take a king: some generated move lands on one.
pub open spec fn king_en_prise(pos: Position) -> bool {
    some_takes_king(pos, moves_of(pos, pos.turn, true))
}

/// The square of the king of `side`; the number of squares if it is not on
/// the board.
pub open spec fn king_square(pos: Position, side: Turn) -> int {
    first_of(pos.squares, Piece::BKing.colored(side), 0)
}

/// Some step of `side` lands on `square`.
pub open spec fn attacked(pos: Position, side: Turn, square: int) -> bool {
    exists|i: int|
        0 <= i < moves_of(pos, side, false).len() && (#[trigger] moves_of(pos, side, false)[i]).dst
            == square
}

/// The side to move has its king on the board, and a step of the other side
/// lands on it.
pub open spec fn in_check(pos: Position) -> bool {
    king_square(pos, pos.turn) < pos.squares.len() && attacked(
        pos,
        pos.turn.other(),
        king_square(pos, pos.turn),
    )
}

/// What a move is picked for.
#[derive(Copy, Clone, Debug, PartialEq, Eq, Structural)]
pub enum Pick {
    /// The mover is not in check after the move.
    Evasion,
    /// The other side is in check after the move.
    Check,
    /// The move captures, or the other side is in check after it.
    CaptureOrCheck,
}

/// The move `m` in `pos` is one that `pick` asks for.
pub open spec fn picked(pick: Pick, pos: Position, m: Move) -> bool {
    match pick {
        Pick::Evasion => !in_check(pos.put(m).passed()),
        Pick::Check => in_check(pos.put(m)),
        Pick::CaptureOrCheck => pos.squares[m.dst as int] != Piece::Absent || in_check(pos.put(m)),
    }
}

/// `picked` as a predicate on moves.
pub open spec fn picker(pick: Pick, pos: Position) -> spec_fn(Move) -> bool {
    |m: Move| picked(pick, pos, m)
}

/// The moves of the side to move that `pick` asks for, in generation order.
pub open spec fn picked_moves(pick: Pick, pos: Position) -> Seq<Move> {
    moves_of(pos, pos.turn, true).filter(picker(pick, pos))
}

/// The moves after which the mover's king is not attacked.
pub open spec fn evasions_of(pos: Position) -> Seq<Move> {
    picked_moves(Pick::Evasion, pos)
}

/// The moves that give check.
pub open spec fn checks_of(pos: Position) -> Seq<Move> {
    picked_moves(Pick::Check, pos)
}

/// The moves that a quiescence search follows: the evasions when in check,
/// else the captures and the checks.
pub open spec fn qsearch_of(pos: Position) -> Seq<Move> {
    if in_check(pos) {
        picked_moves(Pick::Evasion, pos)
    } else {
        picked_moves(Pick::CaptureOrCheck, pos)
    }
}

/// Appends the open moves of one ray.
fn scan_ray(board: &Board, turn: Turn, ray: &Vec<Move>, moves: &mut Vec<Move>)
    requires
        forall|i: int| 0 <= i < ray@.len() ==> (#[trigger] ray@[i]).dst < SQUARES,
    ensures
        final(moves)@ == old(moves)@ + ray_scan(board@.squares, turn, ray@),
{
    let ghost start = moves@;
    let mut i: usize = 0;
    proof {
        assert(moves@ =~= start + ray@.subrange(0, 0));
    }
    while i < ray.len() && board.at(ray[i].dst as usize).is_absent()
        invariant
            i <= ray.len(),
            forall|j: int| 0 <= j < ray@.len() ==> (#[trigger] ray@[j]).dst < SQUARES,
            first_blocked(board@.squares, ray@, 0) == first_blocked(board@.squares, ray@, i as int),
            moves@ == start + ray@.subrange(0, i as int),
        decreases ray.len() - i,
    {
        moves.push(ray[i]);
        proof {
            assert(moves@ =~= start + ray@.subrange(0, i + 1));
        }
        i += 1;
    }
    if i < ray.len() && board.at(ray[i].dst as usize).turn() != turn {
        let target = ray[i].dst;
        let ghost stop = i as int;
        while i < ray.len() && ray[i].dst == target
            invariant
                stop <= i <= ray.len(),
                run_end(ray@, target as int, stop) == run_end(ray@, target as int, i as int),
                moves@ == start + ray@.subrange(0, i as int),
            decreases ray.len() - i,
        {
            moves.push(ray[i]);
            proof {
                assert(moves@ =~= start + ray@.subrange(0, i + 1));
            }
            i += 1;
        }
    }
}

/// Appends the moves of the piece on square `at`.
fn scan_square(board: &Board, turn: Turn, at: u8, table: &MoveTable, moves: &mut Vec<Move>)
    requires
        table.wf(),
        at < SQUARES,
    ensures
        final(moves)@ == old(moves)@ + square_moves(board@, turn, at as int),
{
    let ghost start = moves@;
    let piece = board.at(at as usize);
    if piece == Piece::Absent || piece.turn() != turn {
        proof {
            assert(moves@ =~= start + square_moves(board@, turn, at as int));
        }
        return ;
    }
    let cell = table.rays(piece, at as usize);
    let mut r: usize = 0;
    proof {
        assert(moves@ =~= start + scan_rays(board@.squares, turn, lists(*cell), 0));
    }
    while r < cell.len()
        invariant
            r <= cell.len(),
            at < SQUARES,
            lists(*cell) == rays_from(piece, at as int),
            moves@ == start + scan_rays(board@.squares, turn, lists(*cell), r as int),
        decreases cell.len() - r,
    {
        proof {
            assert(lists(*cell)[r as int] == cell@[r as int]@);
            assert forall|i: int| 0 <= i < cell@[r as int]@.len() implies (
            #[trigger] cell@[r as int]@[i]).dst < SQUARES by {
                lemma_ray_entry(piece, at as int, r as int, i);
            }
        }
        scan_ray(board, turn, &cell[r], moves);
        proof {
            assert(moves@ =~= start + scan_rays(board@.squares, turn, lists(*cell), r + 1));
        }
        r += 1;
    }
}

/// Appends the drops out of slot `h`.
fn scan_slot(board: &Board, turn: Turn, h: u8, moves: &mut Vec<Move>)
    requires
        h < HAND_SLOTS,
    ensures
        final(moves)@ == old(moves)@ + slot_drops(board@, turn, h as int),
{
    let ghost start = moves@;
    let piece = board.hands[h as usize];
    let mut fresh = piece != Piece::Absent && piece.turn() == turn;
    let mut j: usize = 0;
    while j < h as usize
        invariant
            j <= h < HAND_SLOTS,
            piece == board@.hands[h as int],
            fresh == (piece != Piece::Absent && piece.color() == turn && forall|i: int|
                0 <= i < j ==> board@.hands[i] != piece),
        decreases h - j,
    {
        if board.hands[j] == piece {
            fresh = false;
        }
        j += 1;
    }
    if !fresh {
        proof {
            assert(moves@ =~= start + slot_drops(board@, turn, h as int));
        }
        return ;
    }
    let mut dst: u8 = 0;
    proof {
        assert(moves@ =~= start + drops_onto(board@.squares, piece, h as int, 0));
    }
    while dst < SQUARES
        invariant
            dst <= SQUARES,
            h < HAND_SLOTS,
            moves@ == start + drops_onto(board@.squares, piece, h as int, dst as int),
        decreases SQUARES - dst,
    {
        if board.at(dst as usize) == Piece::Absent {
            moves.push(Move::new(&piece, DROP_BASE + h, dst, false));
        }
        proof {
            assert(moves@ =~= start + drops_onto(board@.squares, piece, h as int, dst + 1));
        }
        dst += 1;
    }
}

/// The moves of `turn` on `board`, with or without the drops.
pub fn valid_moves(board: &Board, turn: Turn, include_dropping: bool, table: &MoveTable) -> (moves:
    Vec<Move>)
    requires
        table.wf(),
    ensures
        moves@ == moves_of(board@, turn, include_dropping),
        forall|i: int| 0 <= i < moves@.len() ==> legal(board@, turn, #[trigger] moves@[i]),
        forall|i: int|
            0 <= i < moves@.len() && (#[trigger] moves@[i]).src >= DROP_BASE
                ==> board@.squares[moves@[i].dst as int] == Piece::Absent,
        hands_plain(board@) ==> forall|i: int|
            0 <= i < moves@.len() && (#[trigger] moves@[i]).src >= DROP_BASE
                ==> !moves@[i].piece.is_promoted(),
{
    let mut moves: Vec<Move> = Vec::new();
    if board.won.is_some() {
        return moves;
    }
    let mut at: u8 = 0;
    while at < SQUARES
        invariant
            at <= SQUARES,
            table.wf(),
            moves@ == board_moves(board@, turn, at as int),
        decreases SQUARES - at,
    {
        scan_square(board, turn, at, table, &mut moves);
        at += 1;
    }
    if include_dropping {
        let ghost on_board = moves@;
        let mut h: u8 = 0;
        proof {
            assert(moves@ =~= on_board + hand_drops(board@, turn, 0));
        }
        while h < HAND_SLOTS
            invariant
                h <= HAND_SLOTS,
                moves@ == on_board + hand_drops(board@, turn, h as int),
            decreases HAND_SLOTS - h,
        {
            scan_slot(board, turn, h, &mut moves);
            proof {
                assert(moves@ =~= on_board + hand_drops(board@, turn, h + 1));
            }
            h += 1;
        }
    }
    proof {
        board.lemma_wf();
        assert forall|i: int| 0 <= i < moves@.len() implies legal(board@, turn, #[trigger] moves@[i])
            && (moves@[i].src >= DROP_BASE ==> board@.squares[moves@[i].dst as int]
            == Piece::Absent && board@.hands[moves@[i].slot()] == moves@[i].piece && 0
            <= moves@[i].slot() < HAND_SLOTS) by {
            lemma_moves_legal(board@, turn, include_dropping, i);
        }
    }
    moves
}

/// All moves of the side to move, drops included.
pub fn all_valid_moves(board: &Board, table: &MoveTable) -> (moves: Vec<Move>)
    requires
        table.wf(),
    ensures
        moves@ == moves_of(board@, board@.turn, true),
        forall|i: int| 0 <= i < moves@.len() ==> legal(board@, board@.turn, #[trigger] moves@[i]),
        forall|i: int|
            0 <= i < moves@.len() && (#[trigger] moves@[i]).src >= DROP_BASE
                ==> board@.squares[moves@[i].dst as int] == Piece::Absent,
        hands_plain(board@) ==> forall|i: int|
            0 <= i < moves@.len() && (#[trigger] moves@[i]).src >= DROP_BASE
                ==> !moves@[i].piece.is_promoted(),
{
    valid_moves(board, board.turn, true, table)
}

/// Whether the king of the side to move is attacked.  A side without a king
/// on the board is not in check.
pub fn is_checked(b: &Board, table: &MoveTable) -> (checked: bool)
    requires
        table.wf(),
    ensures
        checked == in_check(b@),
{
    let my_king = Piece::BKing.of_turn(b.turn);
    let king_pos = find_piece(&b.squares, my_king);
    if king_pos >= 25 {
        return false;
    }
    let moves = valid_moves(b, b.turn.next(), false, table);
    let mut i: usize = 0;
    while i < moves.len()
        invariant
            i <= moves.len(),
            moves@ == moves_of(b@, b@.turn.other(), false),
            king_pos == king_square(b@, b@.turn),
            king_pos < b@.squares.len(),
            forall|j: int| 0 <= j < i ==> (#[trigger] moves@[j]).dst != king_pos,
        decreases moves.len() - i,
    {
        if moves[i].dst as usize == king_pos {
            proof {
                let all = moves_of(b@, b@.turn.other(), false);
                assert(all[i as int].dst == king_square(b@, b@.turn));
            }
            return true;
        }
        i += 1;
    }
    false
}

/// Whether `pick` asks for `m`; `scratch` is overwritten.
fn is_picked(pick: Pick, board: &Board, m: &Move, scratch: &mut Board, table: &MoveTable) -> (yes:
    bool)
    requires
        table.wf(),
        m.fits(),
    ensures
        yes == picked(pick, board@, *m),
{
    match pick {
        Pick::Evasion => {
            scratch.copy_from(board);
            scratch.put_move(m);
            scratch.flip_turn();
            !is_checked(scratch, table)
        },
        Pick::Check => {
            scratch.copy_from(board);
            scratch.put_move(m);
            is_checked(scratch, table)
        },
        Pick::CaptureOrCheck => {
            if !board.at(m.dst as usize).is_absent() {
                return true;
            }
            scratch.copy_from(board);
            scratch.put_move(m);
            is_checked(scratch, table)
        },
    }
}

/// The moves of the side to move that `pick` asks for.
pub fn pick_moves(pick: Pick, board: &Board, table: &MoveTable) -> (moves: Vec<Move>)
    requires
        table.wf(),
    ensures
        moves@ == picked_moves(pick, board@),
        forall|i: int| 0 <= i < moves@.len() ==> (#[trigger] moves@[i]).fits(),
{
    let all = valid_moves(board, board.turn, true, table);
    let mut scratch = board.duplicate();
    let mut moves: Vec<Move> = Vec::new();
    let mut i: usize = 0;
    proof {
        reveal(Seq::filter);
        assert(all@.subrange(0, 0) =~= Seq::<Move>::empty());
    }
    while i < all.len()
        invariant
            i <= all.len(),
            table.wf(),
            all@ == moves_of(board@, board@.turn, true),
            moves@ == all@.subrange(0, i as int).filter(picker(pick, board@)),
            forall|j: int| 0 <= j < moves@.len() ==> (#[trigger] moves@[j]).fits(),
        decreases all.len() - i,
    {
        let m = all[i];
        proof {
            board.lemma_wf();
            lemma_moves_legal(board@, board@.turn, true, i as int);
        }
        let keep = is_picked(pick, board, &m, &mut scratch, table);
        if keep {
            moves.push(m);
        }
        proof {
            reveal(Seq::filter);
            assert(all@.subrange(0, i + 1).drop_last() =~= all@.subrange(0, i as int));
        }
        i += 1;
    }
    proof {
        assert(all@.subrange(0, i as int) =~= all@);
    }
    moves
}

/// The moves that resolve a check: those after which the mover is not in check.
pub fn evasion_moves(board: &Board, table: &MoveTable) -> (moves: Vec<Move>)
    requires
        table.wf(),
    ensures
        moves@ == evasions_of(board@),
{
    pick_moves(Pick::Evasion, board, table)
}

/// The moves that give check.
pub fn check_moves(board: &Board, table: &MoveTable) -> (moves: Vec<Move>)
    requires
        table.wf(),
    ensures
        moves@ == checks_of(board@),
        forall|i: int| 0 <= i < moves@.len() ==> (#[trigger] moves@[i]).fits(),
{
    pick_moves(Pick::Check, board, table)
}

/// The moves of a quiescence search: the evasions if the side to move is in
/// check, else the captures and the checks.
pub fn qsearch_moves(board: &Board, table: &MoveTable) -> (moves: Vec<Move>)
    requires
        table.wf(),
    ensures
        moves@ == qsearch_of(board@),
        forall|i: int| 0 <= i < moves@.len() ==> (#[trigger] moves@[i]).fits(),
{
    if is_checked(board, table) {
        pick_moves(Pick::Evasion, board, table)
    } else {
        pick_moves(Pick::CaptureOrCheck, board, table)
    }
}

} // verus!
