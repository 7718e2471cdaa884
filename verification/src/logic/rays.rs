//! How each piece moves: its rays, and the table of the moves along every ray
//! from every square.

use crate::game::moves::SQUARES;
use crate::game::piece::PIECE_KINDS;
use crate::game::{Move, Piece, Turn};
use vstd::prelude::*;

verus! {

/// A direction on the board and how many steps a piece may take along it.
/// `dy` counts rows (towards Black's camp), `dx` columns.
#[derive(Copy, Clone, Debug, PartialEq, Eq, Structural)]
pub struct Ray {
    pub dy: i8,
    pub dx: i8,
    pub reach: u8,
}

/// Longest slide on a board of five rows.
pub const LONG: u8 = 4;

impl Ray {
    /// A unit direction, not null, with a reach of at most `LONG`.
    pub open spec fn wf(self) -> bool {
        &&& -1 <= self.dy <= 1
        &&& -1 <= self.dx <= 1
        &&& (self.dy != 0 || self.dx != 0)
        &&& self.reach <= LONG
    }

    /// The same ray seen from the other side of the board.
    pub open spec fn mirrored(self) -> Ray {
        Ray { dy: (-self.dy) as i8, dx: self.dx, reach: self.reach }
    }
}

/// The ray with this direction and reach.
pub open spec fn ray(dy: int, dx: int, reach: int) -> Ray {
    Ray { dy: dy as i8, dx: dx as i8, reach: reach as u8 }
}

/// One step in each of the eight directions.
pub open spec fn king_rays() -> Seq<Ray> {
    seq![
        ray(-1, -1, 1), ray(-1, 0, 1), ray(-1, 1, 1), ray(0, -1, 1),
        ray(0, 1, 1), ray(1, -1, 1), ray(1, 0, 1), ray(1, 1, 1),
    ]
}

/// One step forward, sideways or straight back.
pub open spec fn gold_rays() -> Seq<Ray> {
    seq![
        ray(-1, -1, 1), ray(-1, 0, 1), ray(-1, 1, 1), ray(0, -1, 1),
        ray(0, 1, 1), ray(1, 0, 1),
    ]
}

/// One step forward or diagonally.
pub open spec fn silver_rays() -> Seq<Ray> {
    seq![ray(-1, -1, 1), ray(-1, 0, 1), ray(-1, 1, 1), ray(1, -1, 1), ray(1, 1, 1)]
}

/// The four diagonals.
pub open spec fn bishop_rays() -> Seq<Ray> {
    seq![ray(-1, -1, 4), ray(-1, 1, 4), ray(1, -1, 4), ray(1, 1, 4)]
}

/// The two files and the two ranks.
pub open spec fn rook_rays() -> Seq<Ray> {
    seq![ray(-1, 0, 4), ray(0, -1, 4), ray(0, 1, 4), ray(1, 0, 4)]
}

/// One step straight forward.
pub open spec fn pawn_rays() -> Seq<Ray> {
    seq![ray(-1, 0, 1)]
}

/// The promoted bishop: the four diagonals, and one step along file and rank.
pub open spec fn horse_rays() -> Seq<Ray> {
    seq![
        ray(-1, -1, 4), ray(-1, 1, 4), ray(1, -1, 4), ray(1, 1, 4),
        ray(-1, 0, 1), ray(0, -1, 1), ray(0, 1, 1), ray(1, 0, 1),
    ]
}

/// The promoted rook: files and ranks, and one step along the diagonals.
pub open spec fn dragon_rays() -> Seq<Ray> {
    seq![
        ray(-1, 0, 4), ray(0, -1, 4), ray(0, 1, 4), ray(1, 0, 4),
        ray(-1, -1, 1), ray(-1, 1, 1), ray(1, -1, 1), ray(1, 1, 1),
    ]
}

/// The rays of a Black piece, forward being towards row 0.  A promoted silver
/// or pawn moves as a gold; `Absent`, `Invalid` and White pieces have none here.
pub open spec fn black_rays(p: Piece) -> Seq<Ray> {
    match p {
        Piece::BKing => king_rays(),
        Piece::BGold => gold_rays(),
        Piece::BSilver => silver_rays(),
        Piece::BBishop => bishop_rays(),
        Piece::BRook => rook_rays(),
        Piece::BPawn => pawn_rays(),
        Piece::BSilverP => gold_rays(),
        Piece::BBishopP => horse_rays(),
        Piece::BRookP => dragon_rays(),
        Piece::BPawnP => gold_rays(),
        _ => Seq::empty(),
    }
}

/// The rays of any piece: a White piece has the rays of its Black counterpart,
/// each mirrored.
pub open spec fn rays_of(p: Piece) -> Seq<Ray> {
    if p.is_real() && p.color() == Turn::White {
        let b = black_rays(p.flipped());
        Seq::new(b.len(), |i: int| b[i].mirrored())
    } else {
        black_rays(p)
    }
}

/// Row of the square `k` steps along `r` from `pos`.
pub open spec fn row_at(pos: int, r: Ray, k: int) -> int {
    pos / 5 + k * r.dy
}

/// Column of the square `k` steps along `r` from `pos`.
pub open spec fn col_at(pos: int, r: Ray, k: int) -> int {
    pos % 5 + k * r.dx
}

/// The `k`-th step along `r` from `pos` is still on the board.
pub open spec fn on_board(pos: int, r: Ray, k: int) -> bool {
    0 <= row_at(pos, r, k) <= 4 && 0 <= col_at(pos, r, k) <= 4
}

/// The square `k` steps along `r` from `pos`.
pub open spec fn square_at(pos: int, r: Ray, k: int) -> int {
    row_at(pos, r, k) * 5 + col_at(pos, r, k)
}

/// Arriving on `dst`, the piece `p` is on the last rank of its side and can promote.
pub open spec fn promotes_on(p: Piece, dst: int) -> bool {
    p.is_promotable() && ((dst / 5 == 0 && p.color() == Turn::Black) || (dst / 5 == 4
        && p.color() == Turn::White))
}

/// A silver in plain form, of either colour.
pub open spec fn is_silver(p: Piece) -> bool {
    p == Piece::BSilver || p == Piece::WSilver
}

/// The ways in which `p` can arrive on `dst` from `src`: plainly; or, on the
/// last rank, promoting (bishop, rook and pawn have to; a silver may, and its
/// promoting move is listed first).
pub open spec fn arrivals(p: Piece, src: int, dst: int) -> Seq<Move> {
    let plain = Move { piece: p, src: src as u8, dst: dst as u8, promote: false };
    let promoting = Move { piece: p, src: src as u8, dst: dst as u8, promote: true };
    if promotes_on(p, dst) {
        if is_silver(p) {
            seq![promoting, plain]
        } else {
            seq![promoting]
        }
    } else {
        seq![plain]
    }
}

/// The moves of `p` from `pos` along `r`, from the `k`-th step on, nearest first.
pub open spec fn ray_moves(p: Piece, pos: int, r: Ray, k: int) -> Seq<Move>
    decreases r.reach - k + 1,
{
    if k > r.reach || k < 1 {
        Seq::empty()
    } else if on_board(pos, r, k) {
        arrivals(p, pos, square_at(pos, r, k)) + ray_moves(p, pos, r, k + 1)
    } else {
        ray_moves(p, pos, r, k + 1)
    }
}

/// The move `m` is an arrival of `p`, coming from `pos`, on the `k`-th square along `r`.
pub open spec fn ray_entry(p: Piece, pos: int, r: Ray, m: Move, k: int) -> bool {
    &&& 1 <= k <= r.reach
    &&& on_board(pos, r, k)
    &&& m.dst == square_at(pos, r, k)
    &&& m.src == pos
    &&& m.piece == p
    &&& (m.promote ==> promotes_on(p, m.dst as int))
}

/// Every move listed along a ray arrives on one of the ray's squares.
pub proof fn lemma_ray_step(p: Piece, pos: int, r: Ray, k0: int, i: int) -> (k: int)
    requires
        0 <= pos < SQUARES,
        1 <= k0,
        0 <= i < ray_moves(p, pos, r, k0).len(),
    ensures
        k0 <= k,
        ray_entry(p, pos, r, ray_moves(p, pos, r, k0)[i], k),
        ray_moves(p, pos, r, k0)[i].dst < SQUARES,
    decreases r.reach - k0 + 1,
{
    if on_board(pos, r, k0) {
        let a = arrivals(p, pos, square_at(pos, r, k0));
        if i < a.len() {
            k0
        } else {
            lemma_ray_step(p, pos, r, k0 + 1, i - a.len())
        }
    } else {
        lemma_ray_step(p, pos, r, k0 + 1, i)
    }
}

/// Every move in the table names its piece and its square of origin, and
/// arrives on the board.
pub proof fn lemma_ray_entry(p: Piece, pos: int, ri: int, i: int)
    requires
        0 <= pos < SQUARES,
        0 <= ri < rays_from(p, pos).len(),
        0 <= i < rays_from(p, pos)[ri].len(),
    ensures
        rays_from(p, pos)[ri][i].dst < SQUARES,
        rays_from(p, pos)[ri][i].src == pos,
        rays_from(p, pos)[ri][i].piece == p,
{
    lemma_ray_step(p, pos, rays_of(p)[ri], 1, i);
}

/// All rays of `p` from `pos`, each as its list of moves.
pub open spec fn rays_from(p: Piece, pos: int) -> Seq<Seq<Move>> {
    Seq::new(rays_of(p).len(), |i: int| ray_moves(p, pos, rays_of(p)[i], 1))
}

fn black_rays_of(p: Piece) -> (v: Vec<Ray>)
    ensures
        v@ == black_rays(p),
{
    let v = match p {
        Piece::BKing => vec![
            Ray { dy: -1, dx: -1, reach: 1 },
            Ray { dy: -1, dx: 0, reach: 1 },
            Ray { dy: -1, dx: 1, reach: 1 },
            Ray { dy: 0, dx: -1, reach: 1 },
            Ray { dy: 0, dx: 1, reach: 1 },
            Ray { dy: 1, dx: -1, reach: 1 },
            Ray { dy: 1, dx: 0, reach: 1 },
            Ray { dy: 1, dx: 1, reach: 1 },
        ],
        Piece::BGold | Piece::BSilverP | Piece::BPawnP => vec![
            Ray { dy: -1, dx: -1, reach: 1 },
            Ray { dy: -1, dx: 0, reach: 1 },
            Ray { dy: -1, dx: 1, reach: 1 },
            Ray { dy: 0, dx: -1, reach: 1 },
            Ray { dy: 0, dx: 1, reach: 1 },
            Ray { dy: 1, dx: 0, reach: 1 },
        ],
        Piece::BSilver => vec![
            Ray { dy: -1, dx: -1, reach: 1 },
            Ray { dy: -1, dx: 0, reach: 1 },
            Ray { dy: -1, dx: 1, reach: 1 },
            Ray { dy: 1, dx: -1, reach: 1 },
            Ray { dy: 1, dx: 1, reach: 1 },
        ],
        Piece::BBishop => vec![
            Ray { dy: -1, dx: -1, reach: 4 },
            Ray { dy: -1, dx: 1, reach: 4 },
            Ray { dy: 1, dx: -1, reach: 4 },
            Ray { dy: 1, dx: 1, reach: 4 },
        ],
        Piece::BRook => vec![
            Ray { dy: -1, dx: 0, reach: 4 },
            Ray { dy: 0, dx: -1, reach: 4 },
            Ray { dy: 0, dx: 1, reach: 4 },
            Ray { dy: 1, dx: 0, reach: 4 },
        ],
        Piece::BPawn => vec![Ray { dy: -1, dx: 0, reach: 1 }],
        Piece::BBishopP => vec![
            Ray { dy: -1, dx: -1, reach: 4 },
            Ray { dy: -1, dx: 1, reach: 4 },
            Ray { dy: 1, dx: -1, reach: 4 },
            Ray { dy: 1, dx: 1, reach: 4 },
            Ray { dy: -1, dx: 0, reach: 1 },
            Ray { dy: 0, dx: -1, reach: 1 },
            Ray { dy: 0, dx: 1, reach: 1 },
            Ray { dy: 1, dx: 0, reach: 1 },
        ],
        Piece::BRookP => vec![
            Ray { dy: -1, dx: 0, reach: 4 },
            Ray { dy: 0, dx: -1, reach: 4 },
            Ray { dy: 0, dx: 1, reach: 4 },
            Ray { dy: 1, dx: 0, reach: 4 },
            Ray { dy: -1, dx: -1, reach: 1 },
            Ray { dy: -1, dx: 1, reach: 1 },
            Ray { dy: 1, dx: -1, reach: 1 },
            Ray { dy: 1, dx: 1, reach: 1 },
        ],
        _ => Vec::new(),
    };
    proof {
        assert(v@ =~= black_rays(p));
    }
    v
}

/// Every ray of every piece is a unit direction of bounded reach.
pub proof fn lemma_rays_wf(p: Piece)
    ensures
        forall|i: int| 0 <= i < rays_of(p).len() ==> (#[trigger] rays_of(p)[i]).wf(),
        rays_of(p).len() <= 8,
{
    let b = if p.is_real() && p.color() == Turn::White { black_rays(p.flipped()) } else { black_rays(p) };
    assert(forall|i: int| 0 <= i < b.len() ==> (#[trigger] b[i]).wf());
}

/// The rays of a piece, in the order in which its moves are generated.
pub fn piece_rays(p: Piece) -> (v: Vec<Ray>)
    ensures
        v@ == rays_of(p),
{
    let id: u8 = p.as_u8();
    if id >= 2 && id % 2 == 1 {
        let b = black_rays_of(p.flip());
        let mut v: Vec<Ray> = Vec::new();
        let mut i: usize = 0;
        proof {
            lemma_rays_wf(p);
        }
        while i < b.len()
            invariant
                i <= b.len(),
                v@.len() == i,
                forall|j: int| 0 <= j < b.len() ==> (#[trigger] b@[j]).wf(),
                forall|j: int| 0 <= j < i ==> v@[j] == b@[j].mirrored(),
            decreases b.len() - i,
        {
            let r = b[i];
            v.push(Ray { dy: -r.dy, dx: r.dx, reach: r.reach });
            i += 1;
        }
        proof {
            assert(v@ =~= rays_of(p));
        }
        v
    } else {
        black_rays_of(p)
    }
}

/// Appends to `v` the ways in which `p` arrives on `dst` from `src`.
fn push_arrivals(v: &mut Vec<Move>, p: Piece, src: u8, dst: u8)
    requires
        src < SQUARES,
        dst < SQUARES,
    ensures
        final(v)@ == old(v)@ + arrivals(p, src as int, dst as int),
{
    let id: u8 = p.as_u8();
    let last_rank = (dst / 5 == 0 && id % 2 == 0) || (dst / 5 == 4 && id % 2 == 1);
    if last_rank && 6 <= id && id <= 13 {
        v.push(Move::new(&p, src, dst, true));
        if id == 6 || id == 7 {
            v.push(Move::new(&p, src, dst, false));
        }
    } else {
        v.push(Move::new(&p, src, dst, false));
    }
    proof {
        assert(v@ =~= old(v)@ + arrivals(p, src as int, dst as int));
    }
}

/// The moves of `p` from `pos` along `r`.
fn build_ray(p: Piece, pos: u8, r: Ray) -> (v: Vec<Move>)
    requires
        pos < SQUARES,
        r.wf(),
    ensures
        v@ == ray_moves(p, pos as int, r, 1),
{
    let mut v: Vec<Move> = Vec::new();
    let y0: i8 = (pos / 5) as i8;
    let x0: i8 = (pos % 5) as i8;
    let mut k: u8 = 1;
    while k <= r.reach
        invariant
            1 <= k <= r.reach + 1,
            r.wf(),
            pos < SQUARES,
            y0 == pos / 5,
            x0 == pos % 5,
            v@ + ray_moves(p, pos as int, r, k as int) == ray_moves(p, pos as int, r, 1),
        decreases r.reach + 1 - k,
    {
        let ghost before = v@;
        assert(-4 <= k * r.dy <= 4 && -4 <= k * r.dx <= 4) by (nonlinear_arith)
            requires
                1 <= k <= 4,
                -1 <= r.dy <= 1,
                -1 <= r.dx <= 1,
        ;
        let y: i8 = y0 + (k as i8) * r.dy;
        let x: i8 = x0 + (k as i8) * r.dx;
        if 0 <= y && y <= 4 && 0 <= x && x <= 4 {
            let dst: u8 = (y * 5 + x) as u8;
            push_arrivals(&mut v, p, pos, dst);
        }
        proof {
            assert(v@ + ray_moves(p, pos as int, r, k + 1) =~= before + ray_moves(
                p,
                pos as int,
                r,
                k as int,
            ));
        }
        k += 1;
    }
    proof {
        assert(v@ =~= v@ + ray_moves(p, pos as int, r, k as int));
    }
    v
}

/// The rays that a table holds for one piece on one square.
pub open spec fn lists(cell: Vec<Vec<Move>>) -> Seq<Seq<Move>> {
    Seq::new(cell@.len(), |i: int| cell@[i]@)
}

fn build_cell(p: Piece, pos: u8) -> (cell: Vec<Vec<Move>>)
    requires
        pos < SQUARES,
    ensures
        lists(cell) == rays_from(p, pos as int),
{
    let rs = piece_rays(p);
    let mut cell: Vec<Vec<Move>> = Vec::new();
    let mut i: usize = 0;
    proof {
        lemma_rays_wf(p);
    }
    while i < rs.len()
        invariant
            i <= rs.len(),
            rs@ == rays_of(p),
            pos < SQUARES,
            forall|j: int| 0 <= j < rs@.len() ==> (#[trigger] rs@[j]).wf(),
            cell@.len() == i,
            forall|j: int| 0 <= j < i ==> (#[trigger] cell@[j])@ == ray_moves(p, pos as int, rs@[j], 1),
        decreases rs.len() - i,
    {
        let v = build_ray(p, pos, rs[i]);
        cell.push(v);
        i += 1;
    }
    proof {
        assert(lists(cell) =~= rays_from(p, pos as int));
    }
    cell
}

fn build_row(p: Piece) -> (row: Vec<Vec<Vec<Move>>>)
    ensures
        row@.len() == SQUARES,
        forall|pos: int| 0 <= pos < SQUARES ==> lists(#[trigger] row@[pos]) == rays_from(p, pos),
{
    let mut row: Vec<Vec<Vec<Move>>> = Vec::new();
    let mut pos: u8 = 0;
    while pos < SQUARES
        invariant
            pos <= SQUARES,
            row@.len() == pos,
            forall|q: int| 0 <= q < pos ==> lists(#[trigger] row@[q]) == rays_from(p, q),
        decreases SQUARES - pos,
    {
        let cell = build_cell(p, pos);
        row.push(cell);
        pos += 1;
    }
    row
}

/// For every piece and every square, the rays of the piece from there,
/// each as the list of its moves, nearest first.
pub struct MoveTable {
    pub cells: Vec<Vec<Vec<Vec<Move>>>>,
}

impl MoveTable {
    /// The table holds, for each piece number and square, exactly `rays_from`.
    pub open spec fn wf(&self) -> bool {
        &&& self.cells@.len() == PIECE_KINDS
        &&& forall|id: int| 0 <= id < PIECE_KINDS ==> (#[trigger] self.cells@[id])@.len() == SQUARES
        &&& forall|id: int, pos: int|
            0 <= id < PIECE_KINDS && 0 <= pos < SQUARES ==> lists(#[trigger] self.cells@[id]@[pos])
                == rays_from(Piece::of_id(id), pos)
    }

    /// Builds the whole table.
    pub fn new() -> (t: MoveTable)
        ensures
            t.wf(),
    {
        let mut cells: Vec<Vec<Vec<Vec<Move>>>> = Vec::new();
        let mut id: u8 = 0;
        while id < PIECE_KINDS
            invariant
                id <= PIECE_KINDS,
                cells@.len() == id,
                forall|i: int| 0 <= i < id ==> (#[trigger] cells@[i])@.len() == SQUARES,
                forall|i: int, pos: int|
                    0 <= i < id && 0 <= pos < SQUARES ==> lists(#[trigger] cells@[i]@[pos])
                        == rays_from(Piece::of_id(i), pos),
            decreases PIECE_KINDS - id,
        {
            let row = build_row(Piece::from_u8(id));
            cells.push(row);
            id += 1;
        }
        MoveTable { cells }
    }

    /// The rays of `p` from `pos`.
    pub fn rays(&self, p: Piece, pos: usize) -> (cell: &Vec<Vec<Move>>)
        requires
            self.wf(),
            pos < SQUARES,
        ensures
            lists(*cell) == rays_from(p, pos as int),
    {
        let id: u8 = p.as_u8();
        &self.cells[id as usize][pos]
    }
}

} // verus!
