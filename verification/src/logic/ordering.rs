//! Move ordering: a priority for each candidate move, and the table of how
//! often a piece on a square was the best move of a search.

use super::evaluator::{abs, piece_worth, worth};
use super::move_gen::{king_square, some_takes_king, takes_king};
use crate::game::board::{find_piece, lemma_first_of, Position};
use crate::game::moves::{DROP_BASE, SQUARES};
use crate::game::{Board, Move, Piece};
use rand::RngCore;
use vstd::prelude::*;

verus! {

/// No count of the table stays above this.
pub const ORDER_CAP: i32 = 1000;

/// Number of counts in the table: one for each piece number and square.
pub const ORDER_KEYS: usize = 550;

/// How often a piece arriving on a square was the best move of a finished
/// subtree, for every piece and square.
pub struct MoveOrderTable {
    pub counts: Vec<i32>,
}

impl View for MoveOrderTable {
    type V = Seq<i32>;

    open spec fn view(&self) -> Seq<i32> {
        self.counts@
    }
}

/// The place of the count for the piece and destination of `m`.
pub open spec fn order_key(m: Move) -> int {
    m.piece.id() * 25 + m.dst
}

/// The counts after one more best move at `key`: that count goes up by one,
/// and if it then exceeds the cap, every count is halved.
pub open spec fn bumped(counts: Seq<i32>, key: int) -> Seq<i32> {
    let raised = counts.update(key, (counts[key] + 1) as i32);
    if counts[key] + 1 > ORDER_CAP {
        Seq::new(raised.len(), |i: int| (raised[i] / 2) as i32)
    } else {
        raised
    }
}

impl MoveOrderTable {
    /// One count for each key, none negative, none above the cap.
    pub open spec fn wf(&self) -> bool {
        &&& self@.len() == ORDER_KEYS
        &&& forall|i: int| 0 <= i < self@.len() ==> 0 <= #[trigger] self@[i] <= ORDER_CAP
    }

    /// A table of zeros.
    pub fn new() -> (t: MoveOrderTable)
        ensures
            t.wf(),
            forall|i: int| 0 <= i < t@.len() ==> t@[i] == 0,
    {
        let mut counts: Vec<i32> = Vec::new();
        let mut i: usize = 0;
        while i < ORDER_KEYS
            invariant
                i <= ORDER_KEYS,
                counts@.len() == i,
                forall|j: int| 0 <= j < i ==> counts@[j] == 0,
            decreases ORDER_KEYS - i,
        {
            counts.push(0);
            i += 1;
        }
        MoveOrderTable { counts }
    }

    /// The count for the piece and destination of `m`.
    pub fn count(&self, m: &Move) -> (c: i32)
        requires
            self.wf(),
            m.dst < SQUARES,
        ensures
            c == self@[order_key(*m)],
            0 <= c <= ORDER_CAP,
    {
        let key: usize = m.piece.as_u8() as usize * 25 + m.dst as usize;
        self.counts[key]
    }
}

/// Records that `m` was the best move of a finished subtree.
pub fn update_move_order_table(table: &mut MoveOrderTable, m: &Move)
    requires
        old(table).wf(),
        m.dst < SQUARES,
    ensures
        final(table).wf(),
        final(table)@ == bumped(old(table)@, order_key(*m)),
{
    let key: usize = m.piece.as_u8() as usize * 25 + m.dst as usize;
    let value: i32 = table.counts[key] + 1;
    table.counts[key] = value;
    if value > ORDER_CAP {
        let ghost raised = table.counts@;
        let mut i: usize = 0;
        while i < ORDER_KEYS
            invariant
                i <= ORDER_KEYS,
                raised.len() == ORDER_KEYS,
                table.counts@.len() == ORDER_KEYS,
                forall|j: int| 0 <= j < raised.len() ==> 0 <= #[trigger] raised[j] <= ORDER_CAP + 1,
                forall|j: int| 0 <= j < i ==> table.counts@[j] == raised[j] / 2,
                forall|j: int| i <= j < ORDER_KEYS ==> table.counts@[j] == raised[j],
            decreases ORDER_KEYS - i,
        {
            let halved: i32 = table.counts[i] / 2;
            table.counts[i] = halved;
            i += 1;
        }
        proof {
            assert(table@ =~= bumped(old(table)@, order_key(*m)));
        }
    }
}

/// The number of steps among the first `n` of `moves` that arrive on `square`.
pub open spec fn support(moves: Seq<Move>, n: int, square: int) -> int
    decreases n,
{
    if n <= 0 {
        0
    } else if !moves[n - 1].is_drop() && moves[n - 1].dst == square {
        support(moves, n - 1, square) + 1
    } else {
        support(moves, n - 1, square)
    }
}

/// For each square, the number of steps in `moves` that arrive on it.
pub open spec fn supports(moves: Seq<Move>) -> Seq<int> {
    Seq::new(SQUARES as nat, |square: int| support(moves, moves.len() as int, square))
}

/// The same numbers as integers.
pub open spec fn as_ints(counts: Seq<usize>) -> Seq<int> {
    Seq::new(counts.len(), |i: int| counts[i] as int)
}

/// The tie-breaker made of a random draw: below 3000.
pub open spec fn jitter(draw: u32) -> int {
    (draw as int / 10) % 3000
}

/// What a capture on the destination of `m` adds: the more the taken piece
/// is worth, the more.
pub open spec fn capture_bonus(pos: Position, m: Move) -> int {
    let taken = pos.squares[m.dst as int];
    if taken != Piece::Absent {
        (5000 + worth(taken)) * 100
    } else {
        0
    }
}

/// Steps go before drops, and a drop onto a square that no step of the
/// candidates reaches goes last.
pub open spec fn origin_bonus(m: Move, power: Seq<int>) -> int {
    if !m.is_drop() {
        10000
    } else if power[m.dst as int] == 0 {
        -10000
    } else {
        0
    }
}

/// The nearer `m` arrives to the king of the other side, the more; nothing
/// if that king is not on the board.
pub open spec fn proximity_bonus(pos: Position, m: Move) -> int {
    let king = king_square(pos, pos.turn.other());
    if king < pos.squares.len() {
        (4 - abs(king / 5 - m.dst / 5)) * 500 + (4 - abs(king % 5 - m.dst % 5)) * 500
    } else {
        0
    }
}

/// The priority of `m` among the candidates in `pos`, given for each square
/// the number of candidate steps that reach it, the count of the statistics
/// table for `m`, and a random draw.
pub open spec fn priority_of(pos: Position, m: Move, power: Seq<int>, stat: int, draw: u32) -> int {
    capture_bonus(pos, m) + origin_bonus(m, power) + worth(m.piece) + proximity_bonus(pos, m)
        + stat + jitter(draw)
}

/// The priority of a move onto a king is at least 990 000; that of any
/// other move is at most 677 999.  So a move that takes a king goes before
/// every move that takes none, whatever the statistics and the draws.
pub proof fn lemma_priority_split(pos: Position, m: Move, power: Seq<int>, stat: int, draw: u32)
    requires
        pos.wf(),
        m.dst < SQUARES,
        0 <= stat <= ORDER_CAP,
    ensures
        takes_king(pos, m) ==> 990_000 <= priority_of(pos, m, power, stat, draw) <= 1_030_000,
        !takes_king(pos, m) ==> -10_000 <= priority_of(pos, m, power, stat, draw) <= 677_999,
{
    lemma_first_of(pos.squares, Piece::BKing.colored(pos.turn.other()), 0);
    assert(0 <= proximity_bonus(pos, m) <= 4000);
    assert(-10_000 <= origin_bonus(m, power) <= 10_000);
    assert(0 <= worth(m.piece) <= 5000);
    assert(0 <= jitter(draw) < 3000);
    let taken = pos.squares[m.dst as int];
    if taken.is_king() {
        assert(capture_bonus(pos, m) == 1_000_000);
    } else {
        assert(0 <= worth(taken) <= 1550);
        assert(0 <= capture_bonus(pos, m) <= 655_000);
    }
}

/// Returns what `rand::thread_rng().next_u32()` returns: the next number of
/// the calling thread's random generator.  Nothing is claimed of it.
///
/// The generator takes its seed from the operating system: at its first use
/// in a thread, and again whenever it has handed out 64 KiB or the process
/// has forked.  Each of these fails loudly if the system gives no entropy,
/// and so does the first reseeding if the fork handler cannot be registered.
/// The call takes no input, so no precondition can leave these cases out.
#[verifier::external_body]
fn random_u32() -> (r: u32) {
    rand::thread_rng().next_u32()
}

/// As many random draws as asked for.
pub fn draw_many(n: usize) -> (draws: Vec<u32>)
    ensures
        draws@.len() == n,
{
    let mut draws: Vec<u32> = Vec::new();
    let mut i: usize = 0;
    while i < n
        invariant
            i <= n,
            draws@.len() == i,
        decreases n - i,
    {
        let r = random_u32();
        draws.push(r);
        i += 1;
    }
    draws
}

/// For each square, the number of steps in `moves` that arrive on it.
pub fn count_support(moves: &[Move]) -> (power: [usize; 25])
    requires
        forall|i: int| 0 <= i < moves@.len() ==> (#[trigger] moves@[i]).dst < SQUARES,
    ensures
        forall|square: int| 0 <= square < SQUARES ==> power@[square] == support(moves@, moves@.len() as int, square),
{
    let mut power: [usize; 25] = [0;25];
    let mut i: usize = 0;
    while i < moves.len()
        invariant
            i <= moves.len(),
            forall|j: int| 0 <= j < moves@.len() ==> (#[trigger] moves@[j]).dst < SQUARES,
            forall|square: int| 0 <= square < SQUARES ==> power@[square] == support(moves@, i as int, square),
            forall|square: int| 0 <= square < SQUARES ==> power@[square] <= i,
        decreases moves.len() - i,
    {
        let m = moves[i];
        if m.src < DROP_BASE {
            let d: usize = m.dst as usize;
            let c: usize = power[d] + 1;
            power[d] = c;
        }
        i += 1;
    }
    power
}

/// The capture term of the priority of `m`.
fn capture_term(b: &Board, m: &Move) -> (bonus: i32)
    requires
        m.dst < SQUARES,
    ensures
        bonus == capture_bonus(b@, *m),
        0 <= bonus <= 1000000,
{
    let dst_piece = b.at(m.dst as usize);
    if dst_piece != Piece::Absent {
        (5000 + piece_worth(dst_piece)) * 100
    } else {
        0
    }
}

/// The term of the priority of `m` that tells steps from drops.
fn origin_term(m: &Move, power_of_moves: &[usize; 25]) -> (bonus: i32)
    requires
        m.dst < SQUARES,
    ensures
        bonus == origin_bonus(*m, as_ints(power_of_moves@)),
        -10000 <= bonus <= 10000,
{
    if m.src < DROP_BASE {
        10000
    } else if power_of_moves[m.dst as usize] == 0 {
        -10000
    } else {
        0
    }
}

/// The term of the priority of `m` for arriving near the other king.
fn proximity_term(b: &Board, m: &Move) -> (bonus: i32)
    requires
        m.dst < SQUARES,
    ensures
        bonus == proximity_bonus(b@, *m),
        0 <= bonus <= 4000,
{
    let enemy_king_pos = find_piece(&b.squares, Piece::BKing.of_turn(b.turn.next()));
    if enemy_king_pos < 25 {
        let ky: i32 = (enemy_king_pos / 5) as i32;
        let kx: i32 = (enemy_king_pos % 5) as i32;
        let my: i32 = (m.dst / 5) as i32;
        let mx: i32 = (m.dst % 5) as i32;
        let dy: i32 = if ky >= my { ky - my } else { my - ky };
        let dx: i32 = if kx >= mx { kx - mx } else { mx - kx };
        (4 - dy) * 500 + (4 - dx) * 500
    } else {
        0
    }
}

/// The tie-breaker made of a random draw.
pub fn jitter_of(draw: u32) -> (j: i32)
    ensures
        j == jitter(draw),
        0 <= j < 3000,
{
    ((draw / 10) % 3000) as i32
}

/// The priority of `m` among the candidates on `b`.
pub fn move_priority(
    b: &Board,
    m: &Move,
    power_of_moves: &[usize; 25],
    statistics: &MoveOrderTable,
    draw: u32,
) -> (priority: i32)
    requires
        statistics.wf(),
        m.dst < SQUARES,
    ensures
        priority == priority_of(
            b@,
            *m,
            as_ints(power_of_moves@),
            statistics@[order_key(*m)] as int,
            draw,
        ),
        -10000 <= priority <= 1030000,
{
    let taking: i32 = capture_term(b, m);
    let origin: i32 = origin_term(m, power_of_moves);
    let strength: i32 = piece_worth(m.piece);
    let nearness: i32 = proximity_term(b, m);
    let stat: i32 = statistics.count(m);
    let noise: i32 = jitter_of(draw);
    taking + origin + strength + nearness + stat + noise
}

/// A candidate move with its priority.
#[derive(Copy, Clone, Debug, PartialEq, Eq, Structural)]
pub struct Ranked {
    pub m: Move,
    pub priority: i32,
}

/// The first index at or after `from` whose entry has a priority below
/// `priority`; the length of `sorted` if there is none.
pub open spec fn slot_for(sorted: Seq<Ranked>, priority: int, from: int) -> int
    decreases sorted.len() - from,
{
    if from >= sorted.len() {
        sorted.len() as int
    } else if sorted[from].priority < priority {
        from
    } else {
        slot_for(sorted, priority, from + 1)
    }
}

/// `sorted` with `x` put behind every entry of at least its priority.
pub open spec fn placed(sorted: Seq<Ranked>, x: Ranked) -> Seq<Ranked> {
    sorted.insert(slot_for(sorted, x.priority as int, 0), x)
}

/// The first `n` of `items` by falling priority, equal priorities in their
/// order in `items`.
pub open spec fn ranked_sort(items: Seq<Ranked>, n: int) -> Seq<Ranked>
    decreases n,
{
    if n <= 0 {
        Seq::empty()
    } else {
        placed(ranked_sort(items, n - 1), items[n - 1])
    }
}

/// The moves of `items`, in order.
pub open spec fn picks(items: Seq<Ranked>) -> Seq<Move> {
    Seq::new(items.len(), |i: int| items[i].m)
}

/// No entry has a higher priority than one before it.
pub open spec fn descending(items: Seq<Ranked>) -> bool {
    forall|i: int, j: int| 0 <= i < j < items.len() ==> items[i].priority >= items[j].priority
}

/// The candidates with the priorities that the draws give them.
pub open spec fn ranked(pos: Position, moves: Seq<Move>, counts: Seq<i32>, draws: Seq<u32>) -> Seq<
    Ranked,
> {
    Seq::new(
        moves.len(),
        |i: int|
            Ranked {
                m: moves[i],
                priority: priority_of(
                    pos,
                    moves[i],
                    supports(moves),
                    counts[order_key(moves[i])] as int,
                    draws[i],
                ) as i32,
            },
    )
}

/// The candidates by falling priority.
pub open spec fn order_of(pos: Position, moves: Seq<Move>, counts: Seq<i32>, draws: Seq<u32>) -> Seq<
    Move,
> {
    picks(ranked_sort(ranked(pos, moves, counts, draws), moves.len() as int))
}

/// What `slot_for` finds: every entry before it has at least the priority,
/// and the entry at it, if any, has less.
pub proof fn lemma_slot_for(sorted: Seq<Ranked>, priority: int, from: int)
    requires
        0 <= from <= sorted.len(),
    ensures
        from <= slot_for(sorted, priority, from) <= sorted.len(),
        slot_for(sorted, priority, from) < sorted.len() ==> sorted[slot_for(
            sorted,
            priority,
            from,
        )].priority < priority,
        forall|j: int|
            from <= j < slot_for(sorted, priority, from) ==> (#[trigger] sorted[j]).priority
                >= priority,
    decreases sorted.len() - from,
{
    if from < sorted.len() && sorted[from].priority >= priority {
        lemma_slot_for(sorted, priority, from + 1);
    }
}

/// Sorting keeps every move, as often as it occurs, and leaves the
/// priorities falling.
pub proof fn lemma_ranked_sort(items: Seq<Ranked>, n: int)
    requires
        0 <= n <= items.len(),
    ensures
        ranked_sort(items, n).len() == n,
        descending(ranked_sort(items, n)),
        picks(ranked_sort(items, n)).to_multiset() == picks(items.subrange(0, n)).to_multiset(),
        ranked_sort(items, n).to_multiset() == items.subrange(0, n).to_multiset(),
    decreases n,
{
    if n <= 0 {
        assert(picks(ranked_sort(items, n)) =~= picks(items.subrange(0, n)));
        assert(ranked_sort(items, n) =~= items.subrange(0, n));
    } else {
        let before = ranked_sort(items, n - 1);
        let x = items[n - 1];
        let slot = slot_for(before, x.priority as int, 0);
        lemma_ranked_sort(items, n - 1);
        lemma_slot_for(before, x.priority as int, 0);
        let after = before.insert(slot, x);
        assert(descending(after)) by {
            assert forall|i: int, j: int| 0 <= i < j < after.len() implies after[i].priority
                >= after[j].priority by {
                if j < slot {
                    assert(after[i] == before[i] && after[j] == before[j]);
                } else if j == slot {
                    assert(after[i] == before[i]);
                } else if i < slot {
                    assert(after[i] == before[i] && after[j] == before[j - 1]);
                    assert(before[slot].priority >= before[j - 1].priority || slot == j - 1);
                } else if i == slot {
                    assert(after[j] == before[j - 1]);
                    assert(before[slot].priority >= before[j - 1].priority || slot == j - 1);
                } else {
                    assert(after[i] == before[i - 1] && after[j] == before[j - 1]);
                }
            }
        }
        assert(picks(after) =~= picks(before).insert(slot, x.m));
        assert(picks(items.subrange(0, n)) =~= picks(items.subrange(0, n - 1)).push(x.m));
        vstd::seq_lib::to_multiset_insert(picks(before), slot, x.m);
        vstd::seq_lib::to_multiset_build(picks(items.subrange(0, n - 1)), x.m);
        assert(items.subrange(0, n) =~= items.subrange(0, n - 1).push(x));
        vstd::seq_lib::to_multiset_insert(before, slot, x);
        vstd::seq_lib::to_multiset_build(items.subrange(0, n - 1), x);
    }
}

/// One count for each key, none negative, none above the cap.
pub open spec fn counts_wf(counts: Seq<i32>) -> bool {
    &&& counts.len() == ORDER_KEYS
    &&& forall|i: int| 0 <= i < counts.len() ==> 0 <= #[trigger] counts[i] <= ORDER_CAP
}

/// If a candidate takes a king, the first in order takes a king.
pub proof fn lemma_king_first(pos: Position, moves: Seq<Move>, counts: Seq<i32>, draws: Seq<u32>)
    requires
        pos.wf(),
        counts_wf(counts),
        draws.len() == moves.len(),
        forall|i: int| 0 <= i < moves.len() ==> (#[trigger] moves[i]).dst < SQUARES,
        some_takes_king(pos, moves),
    ensures
        order_of(pos, moves, counts, draws).len() == moves.len(),
        takes_king(pos, order_of(pos, moves, counts, draws)[0]),
{
    let items = ranked(pos, moves, counts, draws);
    let n = moves.len() as int;
    let sorted = ranked_sort(items, n);
    lemma_ranked_sort(items, n);
    assert(items.subrange(0, n) =~= items);
    assert forall|j: int| 0 <= j < n implies (#[trigger] items[j]).m == moves[j] && (takes_king(
        pos,
        moves[j],
    ) ==> items[j].priority >= 990_000) && (!takes_king(pos, moves[j]) ==> items[j].priority
        <= 677_999) by {
        let key = order_key(moves[j]);
        assert(0 <= key < ORDER_KEYS) by {
            crate::game::piece::lemma_id_roundtrip(moves[j].piece, 0);
        }
        lemma_priority_split(pos, moves[j], supports(moves), counts[key] as int, draws[j]);
    }
    let i = choose|i: int| 0 <= i < moves.len() && takes_king(pos, #[trigger] moves[i]);
    vstd::seq_lib::to_multiset_contains(sorted, items[i]);
    vstd::seq_lib::to_multiset_contains(items, items[i]);
    assert(items.contains(items[i]));
    let k = choose|k: int| 0 <= k < sorted.len() && sorted[k] == items[i];
    assert(sorted[0].priority >= sorted[k].priority);
    vstd::seq_lib::to_multiset_contains(sorted, sorted[0]);
    vstd::seq_lib::to_multiset_contains(items, sorted[0]);
    assert(sorted.contains(sorted[0]));
    let j = choose|j: int| 0 <= j < items.len() && items[j] == sorted[0];
    assert(takes_king(pos, moves[j]));
}

/// Sorts by falling priority; entries of equal priority keep their order.
pub fn sort_ranked(items: &Vec<Ranked>) -> (sorted: Vec<Ranked>)
    ensures
        sorted@ == ranked_sort(items@, items@.len() as int),
        sorted@.len() == items@.len(),
        descending(sorted@),
        picks(sorted@).to_multiset() == picks(items@).to_multiset(),
{
    let mut sorted: Vec<Ranked> = Vec::new();
    let mut i: usize = 0;
    while i < items.len()
        invariant
            i <= items.len(),
            sorted@ == ranked_sort(items@, i as int),
            sorted@.len() == i,
        decreases items.len() - i,
    {
        let x = items[i];
        let mut j: usize = 0;
        while j < sorted.len() && sorted[j].priority >= x.priority
            invariant
                j <= sorted.len(),
                slot_for(sorted@, x.priority as int, 0) == slot_for(sorted@, x.priority as int, j as int),
            decreases sorted.len() - j,
        {
            j += 1;
        }
        sorted.insert(j, x);
        i += 1;
    }
    proof {
        lemma_ranked_sort(items@, items@.len() as int);
        assert(items@.subrange(0, items@.len() as int) =~= items@);
    }
    sorted
}

/// The candidates `moves` by falling priority, the priorities computed with
/// the given draws, one for each candidate.
pub fn reorder_with(b: &Board, moves: &[Move], statistics: &MoveOrderTable, draws: &Vec<u32>) -> (ordered:
    Vec<Move>)
    requires
        statistics.wf(),
        draws@.len() == moves@.len(),
        forall|i: int| 0 <= i < moves@.len() ==> (#[trigger] moves@[i]).dst < SQUARES,
    ensures
        ordered@ == order_of(b@, moves@, statistics@, draws@),
        ordered@.to_multiset() == moves@.to_multiset(),
        ordered@.len() == moves@.len(),
        some_takes_king(b@, moves@) ==> takes_king(b@, ordered@[0]),
{
    let power = count_support(moves);
    proof {
        assert(as_ints(power@) =~= supports(moves@));
    }
    let mut tuples: Vec<Ranked> = Vec::new();
    let mut i: usize = 0;
    while i < moves.len()
        invariant
            i <= moves.len(),
            statistics.wf(),
            draws@.len() == moves@.len(),
            forall|j: int| 0 <= j < moves@.len() ==> (#[trigger] moves@[j]).dst < SQUARES,
            as_ints(power@) == supports(moves@),
            tuples@.len() == i,
            forall|j: int|
                0 <= j < i ==> tuples@[j] == ranked(b@, moves@, statistics@, draws@)[j],
        decreases moves.len() - i,
    {
        let m = moves[i];
        let priority = move_priority(b, &m, &power, statistics, draws[i]);
        tuples.push(Ranked { m, priority });
        i += 1;
    }
    proof {
        assert(tuples@ =~= ranked(b@, moves@, statistics@, draws@));
        assert(picks(tuples@) =~= moves@);
    }
    let sorted = sort_ranked(&tuples);
    let mut ordered: Vec<Move> = Vec::new();
    let mut k: usize = 0;
    while k < sorted.len()
        invariant
            k <= sorted.len(),
            ordered@.len() == k,
            forall|j: int| 0 <= j < k ==> ordered@[j] == sorted@[j].m,
        decreases sorted.len() - k,
    {
        ordered.push(sorted[k].m);
        k += 1;
    }
    proof {
        assert(ordered@ =~= picks(sorted@));
        vstd::seq_lib::to_multiset_len(ordered@);
        vstd::seq_lib::to_multiset_len(moves@);
        if some_takes_king(b@, moves@) {
            b.lemma_wf();
            lemma_king_first(b@, moves@, statistics@, draws@);
        }
    }
    ordered
}

/// The candidates `moves` by falling priority, ties broken by chance: the
/// order is the one that some draws give, and holds each candidate as often
/// as `moves` does.
pub fn reorder_moves(b: &Board, moves: &[Move], statistics: &MoveOrderTable) -> (ordered: Vec<Move>)
    requires
        statistics.wf(),
        forall|i: int| 0 <= i < moves@.len() ==> (#[trigger] moves@[i]).dst < SQUARES,
    ensures
        exists|draws: Seq<u32>|
            draws.len() == moves@.len() && ordered@ == #[trigger] order_of(
                b@,
                moves@,
                statistics@,
                draws,
            ),
        ordered@.to_multiset() == moves@.to_multiset(),
        ordered@.len() == moves@.len(),
        some_takes_king(b@, moves@) ==> takes_king(b@, ordered@[0]),
{
    let draws = draw_many(moves.len());
    reorder_with(b, moves, statistics, &draws)
}

} // verus!
