use vstd::prelude::*;

use crate::engine::TetrisEngine;
use crate::rng::RngDraw;

verus! {

/// Garbage queued against the player: `lines` rows with a hole in column `col`,
/// landing when `timer` runs out.
#[derive(Clone, Copy, Debug, PartialEq, Eq, Structural)]
pub struct GarbageBatch {
    pub lines: i32,
    pub timer: i32,
    pub col: u8,
}

/// Totals over the queued garbage.
#[derive(Clone, Copy, Debug, PartialEq, Eq, Structural)]
pub struct PendingGarbageSummary {
    pub total_lines: i32,
    pub min_timer: i32,
    pub max_timer: i32,
    pub batch_count: i32,
    pub landing_within_one_ply: bool,
}

impl Default for PendingGarbageSummary {
    fn default() -> (r: Self)
        ensures
            r.total_lines == 0,
            r.min_timer == 0,
            r.max_timer == 0,
            r.batch_count == 0,
            !r.landing_within_one_ply,
    {
        PendingGarbageSummary {
            total_lines: 0,
            min_timer: 0,
            max_timer: 0,
            batch_count: 0,
            landing_within_one_ply: false,
        }
    }
}

/// What an outgoing attack did to the queued garbage.
#[derive(Clone, Copy, Debug, PartialEq, Eq, Structural)]
pub struct OutgoingAttackResolution {
    pub incoming_before: PendingGarbageSummary,
    pub incoming_after: PendingGarbageSummary,
    pub outgoing_attack: i32,
    pub canceled: i32,
    pub sent: i32,
    pub used_opener_multiplier: bool,
    pub opener_phase: bool,
}

/// Sum of the lines of `q`.
pub open spec fn total_lines(q: Seq<GarbageBatch>) -> int
    decreases q.len(),
{
    if q.len() == 0 {
        0
    } else {
        total_lines(q.drop_last()) + q.last().lines
    }
}

/// Whether every running total of the lines of `q` fits in `i32`.
pub open spec fn running_totals_fit(q: Seq<GarbageBatch>) -> bool {
    forall|k: int| 0 <= k <= q.len() ==> i32::MIN <= #[trigger] total_lines(q.take(k)) <= i32::MAX
}

/// The smallest timer of `q`, 0 when empty.
pub open spec fn min_timer(q: Seq<GarbageBatch>) -> int
    decreases q.len(),
{
    if q.len() == 0 {
        0
    } else if q.len() == 1 {
        q[0].timer as int
    } else {
        let m = min_timer(q.drop_last());
        if q.last().timer < m { q.last().timer as int } else { m }
    }
}

/// The largest timer of `q`, 0 when empty.
pub open spec fn max_timer(q: Seq<GarbageBatch>) -> int
    decreases q.len(),
{
    if q.len() == 0 {
        0
    } else if q.len() == 1 {
        q[0].timer as int
    } else {
        let m = max_timer(q.drop_last());
        if q.last().timer > m { q.last().timer as int } else { m }
    }
}

/// The summary of a queue of garbage.
pub open spec fn summary_of(q: Seq<GarbageBatch>) -> PendingGarbageSummary {
    PendingGarbageSummary {
        total_lines: total_lines(q) as i32,
        min_timer: min_timer(q) as i32,
        max_timer: max_timer(q) as i32,
        batch_count: q.len() as i32,
        landing_within_one_ply: exists|i: int| 0 <= i < q.len() && #[trigger] q[i].timer <= 1,
    }
}

/// The queue left, and the attack left over, after `attack` lines cancel the
/// oldest garbage first.
pub open spec fn cancel(q: Seq<GarbageBatch>, attack: int) -> (Seq<GarbageBatch>, int)
    decreases q.len(),
{
    if attack <= 0 || q.len() == 0 {
        (q, attack)
    } else if q[0].lines <= attack {
        cancel(q.drop_first(), attack - q[0].lines)
    } else {
        (q.update(0, GarbageBatch { lines: (q[0].lines - attack) as i32, ..q[0] }), 0)
    }
}

/// Whether cancelling `attack` against `q` keeps the attack left over in `i32`.
pub open spec fn cancel_fits(q: Seq<GarbageBatch>, attack: int) -> bool
    decreases q.len(),
{
    if attack <= 0 || q.len() == 0 {
        true
    } else if q[0].lines <= attack {
        i32::MIN <= attack - q[0].lines <= i32::MAX && cancel_fits(q.drop_first(), attack - q[0].lines)
    } else {
        true
    }
}

/// The column that the last queued batch, or else the last applied garbage,
/// left open.
pub open spec fn previous_hole(e: TetrisEngine) -> Option<u8> {
    if e.incoming_garbage@.len() > 0 {
        Some(e.incoming_garbage@.last().col)
    } else {
        e.garbage_col
    }
}

/// Whether `b` is `a` with at most the queued garbage and the generator changed.
pub open spec fn same_but_incoming(a: TetrisEngine, b: TetrisEngine) -> bool {
    b == (TetrisEngine { incoming_garbage: b.incoming_garbage, rng: b.rng, ..a })
}

/// Sum of `q` with one more batch.
pub proof fn lemma_total_lines_push(q: Seq<GarbageBatch>, g: GarbageBatch)
    ensures
        total_lines(q.push(g)) == total_lines(q) + g.lines,
{
    assert(q.push(g).drop_last() =~= q);
}

/// Cancelling keeps the books: what leaves the queue is what the attack spends.
pub proof fn lemma_cancel_conserves(q: Seq<GarbageBatch>, attack: int)
    ensures
        total_lines(q) - total_lines(cancel(q, attack).0) == attack - cancel(q, attack).1,
        attack > 0 ==> cancel(q, attack).1 >= 0,
    decreases q.len(),
{
    if attack <= 0 || q.len() == 0 {
    } else if q[0].lines <= attack {
        lemma_cancel_conserves(q.drop_first(), attack - q[0].lines);
        lemma_total_lines_drop_first(q);
    } else {
        let g = GarbageBatch { lines: (q[0].lines - attack) as i32, ..q[0] };
        lemma_total_lines_drop_first(q);
        lemma_total_lines_drop_first(q.update(0, g));
        assert(q.update(0, g).drop_first() =~= q.drop_first());
    }
}

/// Cancelling takes the oldest batches off the queue while the attack covers
/// them in full, then shortens the next one by what is left, keeping its timer
/// and column. So what stays queued is the old queue from some batch on, only
/// its first batch possibly shortened and then still holding lines; a batch
/// that the attack covers in full is removed, never left queued with no lines,
/// and a queue whose batches all hold lines keeps that property. An attack is
/// left over only once the queue is empty.
pub proof fn lemma_cancel_removes_covered(q: Seq<GarbageBatch>, attack: int)
    ensures
        ({
            let (after, left) = cancel(q, attack);
            let k = q.len() - after.len();
            &&& 0 <= k <= q.len()
            &&& forall|i: int| 1 <= i < after.len() ==> after[i] == q[k + i]
            &&& after.len() > 0 ==> after[0].timer == q[k].timer && after[0].col == q[k].col
            &&& after.len() > 0 ==> after[0] == q[k] || 0 < after[0].lines < q[k].lines
            &&& attack >= 0 ==> left >= 0
            &&& attack > 0 && after.len() > 0 ==> left == 0
            &&& attack <= 0 ==> after == q && left == attack
            &&& (forall|i: int| 0 <= i < q.len() ==> q[i].lines > 0) ==> (forall|i: int|
                0 <= i < after.len() ==> after[i].lines > 0)
        }),
    decreases q.len(),
{
    if attack <= 0 || q.len() == 0 {
    } else if q[0].lines <= attack {
        let rest = q.drop_first();
        lemma_cancel_removes_covered(rest, attack - q[0].lines);
        let after = cancel(rest, attack - q[0].lines).0;
        let k = rest.len() - after.len();
        assert forall|i: int| 1 <= i < after.len() implies after[i] == q[k + 1 + i] by {
            assert(rest[k + i] == q[k + 1 + i]);
        }
        if after.len() > 0 {
            assert(rest[k] == q[k + 1]);
        }
        if forall|i: int| 0 <= i < q.len() ==> q[i].lines > 0 {
            assert forall|i: int| 0 <= i < rest.len() implies rest[i].lines > 0 by {
                assert(rest[i] == q[i + 1]);
            }
        }
    } else {
    }
}

/// Sum of `q` split off its first batch.
pub proof fn lemma_total_lines_drop_first(q: Seq<GarbageBatch>)
    requires
        q.len() > 0,
    ensures
        total_lines(q) == q[0].lines + total_lines(q.drop_first()),
    decreases q.len(),
{
    if q.len() > 1 {
        lemma_total_lines_drop_first(q.drop_last());
        assert(q.drop_last().drop_first() =~= q.drop_first().drop_last());
        assert(q.drop_first().last() == q.last());
        assert(q.drop_last()[0] == q[0]);
        assert(total_lines(q.drop_first()) == total_lines(q.drop_first().drop_last()) + q.drop_first().last().lines);
    } else {
        assert(q.drop_first().len() == 0);
        assert(q.drop_last().len() == 0);
        assert(total_lines(q.drop_last()) == 0);
        assert(total_lines(q.drop_first()) == 0);
        assert(q.last() == q[0]);
    }
}

/// The part of the state that landing garbage changes: the board, the last
/// hole column, and whether blocks were pushed off the top.
pub open spec fn garbage_state(e: TetrisEngine) -> (Seq<i8>, Option<u8>, bool) {
    (e.board@, e.garbage_col, false)
}

/// `board` raised by `n` rows, the new bottom rows full but for a hole in `col`.
pub open spec fn garbage_shift(board: Seq<i8>, n: int, col: int) -> Seq<i8> {
    Seq::new(
        400,
        |i: int|
            if i < (40 - n) * 10 {
                board[i + n * 10]
            } else if i % 10 == col {
                0i8
            } else {
                -1i8
            },
    )
}

/// Whether raising `board` by `n` rows pushes a block off the top.
pub open spec fn pushes_off(board: Seq<i8>, n: int) -> bool {
    exists|j: int| 0 <= j < n * 10 && #[trigger] board[j] != 0
}

/// Landing one batch: at most 40 rows; a non-positive count does nothing.
pub open spec fn apply_step(st: (Seq<i8>, Option<u8>, bool), g: GarbageBatch) -> (Seq<i8>, Option<u8>, bool) {
    if g.lines <= 0 {
        st
    } else {
        let n = if g.lines < 40 { g.lines as int } else { 40 };
        (garbage_shift(st.0, n, g.col as int), Some(g.col), st.2 || pushes_off(st.0, n))
    }
}

/// Landing batches in order.
pub open spec fn apply_all(st: (Seq<i8>, Option<u8>, bool), e: Seq<GarbageBatch>) -> (Seq<i8>, Option<u8>, bool)
    decreases e.len(),
{
    if e.len() == 0 {
        st
    } else {
        apply_step(apply_all(st, e.drop_last()), e.last())
    }
}

/// The queue with every timer one turn further on.
pub open spec fn counted_down(q: Seq<GarbageBatch>) -> Seq<GarbageBatch> {
    q.map_values(|g: GarbageBatch| GarbageBatch { timer: (g.timer - 1) as i32, ..g })
}

/// The batches that land on the next tick, in queue order, timers counted down.
pub open spec fn landing(q: Seq<GarbageBatch>) -> Seq<GarbageBatch> {
    counted_down(q).filter(|g: GarbageBatch| g.timer <= 0)
}

/// The batches still waiting after the next tick, in queue order.
pub open spec fn still_waiting(q: Seq<GarbageBatch>) -> Seq<GarbageBatch> {
    counted_down(q).filter(|g: GarbageBatch| g.timer > 0)
}

/// Filtering a prefix gives a prefix of the filtered sequence.
pub proof fn lemma_filter_prefix_of(s: Seq<GarbageBatch>, k: int, p: spec_fn(GarbageBatch) -> bool)
    requires
        0 <= k <= s.len(),
    ensures
        s.take(k).filter(p) == s.filter(p).take(s.take(k).filter(p).len() as int),
        s.take(k).filter(p).len() <= s.filter(p).len(),
    decreases s.len() - k,
{
    if k < s.len() {
        lemma_filter_prefix_of(s, k + 1, p);
        assert(s.take(k + 1) =~= s.take(k).push(s[k]));
        s.take(k).lemma_filter_push(s[k], p);
        let a = s.take(k).filter(p);
        let b = s.take(k + 1).filter(p);
        if p(s[k]) {
            assert(b == a.push(s[k]));
            assert(a =~= b.take(a.len() as int));
            assert(s.filter(p).take(a.len() as int) =~= s.filter(p).take(b.len() as int).take(a.len() as int));
        }
    } else {
        assert(s.take(k) =~= s);
        assert(s.filter(p).take(s.filter(p).len() as int) =~= s.filter(p));
    }
}

/// A tick loses no garbage: every batch either lands or keeps waiting, in
/// queue order, so the lines landing and the lines still waiting add up to
/// the lines that were queued.
pub proof fn lemma_tick_conserves_lines(q: Seq<GarbageBatch>)
    ensures
        landing(q).len() + still_waiting(q).len() == q.len(),
        total_lines(landing(q)) + total_lines(still_waiting(q)) == total_lines(q),
    decreases q.len(),
{
    if q.len() > 0 {
        let p = q.drop_last();
        let g = q.last();
        let down = GarbageBatch { timer: (g.timer - 1) as i32, ..g };
        lemma_tick_conserves_lines(p);
        assert(counted_down(q) =~= counted_down(p).push(down));
        counted_down(p).lemma_filter_push(down, |g: GarbageBatch| g.timer <= 0);
        counted_down(p).lemma_filter_push(down, |g: GarbageBatch| g.timer > 0);
        lemma_total_lines_push(landing(p), down);
        lemma_total_lines_push(still_waiting(p), down);
    } else {
        assert(landing(q) =~= Seq::<GarbageBatch>::empty());
        assert(still_waiting(q) =~= Seq::<GarbageBatch>::empty());
    }
}

/// The columns a new hole may take after a hole in `previous`: every column
/// but that one, in order.
pub open spec fn hole_candidates(previous: int) -> Seq<u8> {
    Seq::new(9, |i: int| if i < previous { i as u8 } else { (i + 1) as u8 })
}

/// Whether the generator's record went from `d0` to `d1` by one index drawn
/// below 9, and `col` is the candidate column at that index.
pub open spec fn hole_drawn(d0: Seq<RngDraw>, d1: Seq<RngDraw>, previous: int, col: u8) -> bool {
    &&& d1.len() == d0.len() + 1
    &&& d1.drop_last() == d0
    &&& match d1.last() {
        RngDraw::Index(upper, i) => upper == 9 && i < 9 && col == hole_candidates(previous)[i as int],
        RngDraw::Shuffle(_, _) => false,
    }
}

/// A new hole never repeats the previous one: the nine candidates are the
/// columns other than `previous`, each once, in order.
pub proof fn lemma_hole_candidates(previous: int)
    requires
        0 <= previous < 10,
    ensures
        hole_candidates(previous).len() == 9,
        forall|i: int| 0 <= i < 9 ==> #[trigger] hole_candidates(previous)[i] < 10 && hole_candidates(previous)[i] != previous,
        forall|i: int, j: int| 0 <= i < j < 9 ==> #[trigger] hole_candidates(previous)[i] < #[trigger] hole_candidates(previous)[j],
        forall|c: u8| c < 10 && c != previous ==> #[trigger] hole_candidates(previous).contains(c),
{
    assert forall|c: u8| c < 10 && c != previous implies #[trigger] hole_candidates(previous).contains(c) by {
        if c < previous {
            assert(hole_candidates(previous)[c as int] == c);
        } else {
            assert(hole_candidates(previous)[c - 1] == c);
        }
    }
}

/// The columns other than `previous`, in order.
pub fn hole_candidates_for(previous: u8) -> (r: [u8; 9])
    requires
        previous < 10,
    ensures
        r@ == hole_candidates(previous as int),
{
    let mut available: [u8; 9] = [0u8; 9];
    let mut len: usize = 0;
    let mut col: u8 = 0;
    while col < 10
        invariant
            col <= 10,
            previous < 10,
            len == (if previous < col { col - 1 } else { col as int }),
            forall|j: int| 0 <= j < len ==> #[trigger] available[j] == hole_candidates(previous as int)[j],
        decreases 10 - col,
    {
        if col != previous {
            available[len] = col;
            len += 1;
        }
        col += 1;
    }
    assert(available@ =~= hole_candidates(previous as int));
    available
}

/// The candidate column at `index` after a hole in `previous`.
pub fn hole_column_at(previous: u8, index: usize) -> (r: u8)
    requires
        previous < 10,
        index < 9,
    ensures
        r == hole_candidates(previous as int)[index as int],
{
    let candidates = hole_candidates_for(previous);
    candidates[index]
}

impl TetrisEngine {
    /// Totals over the queued garbage: lines, smallest and largest timer (0
    /// when none is queued), number of batches, and whether any batch lands
    /// within one turn.
    pub fn get_pending_garbage_summary(&self) -> (r: PendingGarbageSummary)
        requires
            running_totals_fit(self.incoming_garbage@),
        ensures
            r == summary_of(self.incoming_garbage@),
    {
        let q = &self.incoming_garbage;
        let mut total: i32 = 0;
        let mut min_t: i32 = 0;
        let mut max_t: i32 = 0;
        let mut landing = false;
        let mut i: usize = 0;
        while i < q.len()
            invariant
                i <= q@.len(),
                running_totals_fit(q@),
                total == total_lines(q@.take(i as int)),
                min_t == min_timer(q@.take(i as int)),
                max_t == max_timer(q@.take(i as int)),
                landing == exists|j: int| 0 <= j < i && #[trigger] q@[j].timer <= 1,
            decreases q@.len() - i,
        {
            let g = q[i];
            proof {
                assert(q@.take(i + 1).drop_last() =~= q@.take(i as int));
                assert(total_lines(q@.take(i + 1)) <= i32::MAX);
                assert(total_lines(q@.take(i + 1)) >= i32::MIN);
            }
            total = total + g.lines;
            if i == 0 || g.timer < min_t {
                min_t = g.timer;
            }
            if i == 0 || g.timer > max_t {
                max_t = g.timer;
            }
            if g.timer <= 1 {
                landing = true;
            }
            i += 1;
        }
        assert(q@.take(q@.len() as int) =~= q@);
        PendingGarbageSummary {
            total_lines: total,
            min_timer: min_t,
            max_timer: max_t,
            batch_count: q.len() as i32,
            landing_within_one_ply: landing,
        }
    }

    /// Queues `lines` of garbage landing after `timer` turns with its hole in
    /// `col`, or in a random column other than the previous hole; a
    /// non-positive line count is ignored.
    pub fn add_incoming_garbage(&mut self, lines: i32, timer: i32, col: Option<u8>)
        requires
            lines > 0 && col is None ==> (previous_hole(*old(self)) matches Some(p) && p < 10),
        ensures
            lines <= 0 ==> *final(self) == *old(self),
            lines > 0 ==> {
                &&& same_but_incoming(*old(self), *final(self))
                &&& final(self).incoming_garbage@.len() == old(self).incoming_garbage@.len() + 1
                &&& final(self).incoming_garbage@.drop_last() == old(self).incoming_garbage@
                &&& final(self).incoming_garbage@.last().lines == lines
                &&& final(self).incoming_garbage@.last().timer == timer
                &&& match col {
                    Some(c) => final(self).incoming_garbage@.last().col == c && final(self).rng == old(self).rng,
                    None => final(self).incoming_garbage@.last().col < 10
                        && previous_hole(*old(self)) != Some(final(self).incoming_garbage@.last().col)
                        && hole_drawn(
                        old(self).rng.draws(),
                        final(self).rng.draws(),
                        previous_hole(*old(self)).unwrap() as int,
                        final(self).incoming_garbage@.last().col,
                    ),
                }
                &&& final(self).rng.seed() == old(self).rng.seed()
            },
    {
        if lines <= 0 {
            return;
        }
        let col = match col {
            Some(c) => c,
            None => self.next_garbage_hole_column(),
        };
        self.incoming_garbage.push(GarbageBatch { lines, timer, col });
        assert(self.incoming_garbage@.drop_last() =~= old(self).incoming_garbage@);
    }

    /// A random hole column other than the previous hole. With no previous
    /// hole, or one off the board, all ten columns would be candidates for
    /// nine slots, which is refused.
    fn next_garbage_hole_column(&mut self) -> (r: u8)
        requires
            previous_hole(*old(self)) matches Some(p) && p < 10,
        ensures
            r < 10,
            previous_hole(*old(self)) != Some(r),
            hole_drawn(old(self).rng.draws(), final(self).rng.draws(), previous_hole(*old(self)).unwrap() as int, r),
            final(self).rng.seed() == old(self).rng.seed(),
            *final(self) == (TetrisEngine { rng: final(self).rng, ..*old(self) }),
    {
        let n = self.incoming_garbage.len();
        let previous = if n > 0 { self.incoming_garbage[n - 1].col } else { self.garbage_col.unwrap() };
        let ghost d0 = self.rng.draws();
        let idx = self.rng.choose_index(9);
        proof {
            lemma_hole_candidates(previous as int);
            assert(self.rng.draws().drop_last() =~= d0);
        }
        hole_column_at(previous, idx)
    }

    /// Removes the oldest garbage first until `attack` (taken as at least 0)
    /// is spent, shortening the first batch it cannot clear; returns the
    /// attack left over.
    pub fn cancel_garbage(&mut self, attack: i32) -> (r: i32)
        requires
            cancel_fits(old(self).incoming_garbage@, if attack > 0 { attack as int } else { 0 }),
        ensures
            (final(self).incoming_garbage@, r as int) == cancel(old(self).incoming_garbage@, if attack > 0 { attack as int } else { 0 }),
            *final(self) == (TetrisEngine { incoming_garbage: final(self).incoming_garbage, ..*old(self) }),
            (forall|i: int| 0 <= i < old(self).incoming_garbage@.len() ==> #[trigger] old(self).incoming_garbage@[i].lines > 0)
                ==> (forall|i: int| 0 <= i < final(self).incoming_garbage@.len() ==> #[trigger] final(self).incoming_garbage@[i].lines > 0),
    {
        let mut remaining: i32 = if attack > 0 { attack } else { 0 };
        proof {
            lemma_cancel_removes_covered(self.incoming_garbage@, remaining as int);
        }
        while remaining > 0 && self.incoming_garbage.len() > 0
            invariant
                cancel_fits(self.incoming_garbage@, remaining as int),
                cancel(self.incoming_garbage@, remaining as int)
                    == cancel(old(self).incoming_garbage@, if attack > 0 { attack as int } else { 0 }),
                *self == (TetrisEngine { incoming_garbage: self.incoming_garbage, ..*old(self) }),
            decreases self.incoming_garbage@.len(), remaining,
        {
            let oldest = self.incoming_garbage[0];
            if oldest.lines <= remaining {
                remaining = remaining - oldest.lines;
                self.incoming_garbage.remove(0);
            } else {
                let g = GarbageBatch { lines: oldest.lines - remaining, ..oldest };
                self.incoming_garbage.set(0, g);
                remaining = 0;
            }
        }
        remaining
    }

    /// Spends an outgoing attack (taken as at least 0) on the queued garbage,
    /// oldest first, and books the lines it cancelled; what is not cancelled
    /// is sent. The opener flag plays no part.
    pub fn resolve_outgoing_attack(&mut self, outgoing_attack: i32, opener_phase: Option<bool>) -> (r: OutgoingAttackResolution)
        requires
            running_totals_fit(old(self).incoming_garbage@),
            cancel_fits(old(self).incoming_garbage@, if outgoing_attack > 0 { outgoing_attack as int } else { 0 }),
            running_totals_fit(cancel(old(self).incoming_garbage@, if outgoing_attack > 0 { outgoing_attack as int } else { 0 }).0),
            i32::MIN <= old(self).total_attack_canceled + (if outgoing_attack > 0 { outgoing_attack as int } else { 0 })
                - cancel(old(self).incoming_garbage@, if outgoing_attack > 0 { outgoing_attack as int } else { 0 }).1 <= i32::MAX,
            i32::MIN <= (if outgoing_attack > 0 { outgoing_attack as int } else { 0 })
                - cancel(old(self).incoming_garbage@, if outgoing_attack > 0 { outgoing_attack as int } else { 0 }).1,
        ensures
            ({
                let a = if outgoing_attack > 0 { outgoing_attack as int } else { 0 };
                let (after, left) = cancel(old(self).incoming_garbage@, a);
                &&& r.incoming_before == summary_of(old(self).incoming_garbage@)
                &&& r.incoming_after == summary_of(after)
                &&& r.outgoing_attack == a
                &&& r.canceled == total_lines(old(self).incoming_garbage@) - total_lines(after)
                &&& r.sent == left
                &&& !r.used_opener_multiplier
                &&& !r.opener_phase
                &&& final(self).incoming_garbage@ == after
                &&& final(self).total_attack_canceled == old(self).total_attack_canceled + r.canceled
                &&& *final(self) == (TetrisEngine {
                    incoming_garbage: final(self).incoming_garbage,
                    total_attack_canceled: final(self).total_attack_canceled,
                    ..*old(self)
                })
            }),
            r.canceled + r.sent == r.outgoing_attack,
    {
        let _ = opener_phase;
        let outgoing_attack = if outgoing_attack > 0 { outgoing_attack } else { 0 };
        let ghost q = self.incoming_garbage@;
        proof {
            lemma_cancel_conserves(q, outgoing_attack as int);
            let after = cancel(q, outgoing_attack as int).0;
            assert(q.take(q.len() as int) =~= q);
            assert(after.take(after.len() as int) =~= after);
            assert(i32::MIN <= total_lines(q.take(q.len() as int)) <= i32::MAX);
            assert(i32::MIN <= total_lines(after.take(after.len() as int)) <= i32::MAX);
        }
        let incoming_before = self.get_pending_garbage_summary();
        let total_before = incoming_before.total_lines;
        let sent = self.cancel_garbage(outgoing_attack);
        let incoming_after = self.get_pending_garbage_summary();
        let canceled = total_before - incoming_after.total_lines;
        self.total_attack_canceled = self.total_attack_canceled + canceled;

        OutgoingAttackResolution {
            incoming_before,
            incoming_after,
            outgoing_attack,
            canceled,
            sent,
            used_opener_multiplier: false,
            opener_phase: false,
        }
    }

    /// Pushes `lines` rows of garbage (at most 40) in from the bottom, each
    /// full but for a hole in `col`; rows pushed off the top that held blocks
    /// end the game with a garbage top-out. A non-positive count is ignored.
    pub fn apply_garbage(&mut self, lines: i32, col: u8)
        requires
            lines > 0 ==> col < 10,
        ensures
            ({
                let st = apply_step(garbage_state(*old(self)), GarbageBatch { lines, timer: 0, col });
                &&& final(self).board@ == st.0
                &&& final(self).garbage_col == st.1
                &&& final(self).game_over == (old(self).game_over || st.2)
                &&& st.2 ==> (final(self).game_over_reason matches Some(reason) && reason@ == "garbage_top_out"@)
                &&& !st.2 ==> final(self).game_over_reason == old(self).game_over_reason
                &&& *final(self) == (TetrisEngine {
                    board: final(self).board,
                    garbage_col: final(self).garbage_col,
                    game_over: final(self).game_over,
                    game_over_reason: final(self).game_over_reason,
                    ..*old(self)
                })
            }),
    {
        if lines <= 0 {
            return;
        }
        let n: usize = if lines < 40 { lines as usize } else { 40 };
        let ghost old_board = self.board@;

        let mut topped_out = false;
        let mut i: usize = 0;
        while i < n * 10
            invariant
                n <= 40,
                i <= n * 10,
                self.board@ == old_board,
                topped_out == exists|j: int| 0 <= j < i && #[trigger] old_board[j] != 0,
            decreases n * 10 - i,
        {
            if self.board[i] != 0 {
                topped_out = true;
            }
            i += 1;
        }

        let remaining = 40 - n;
        let mut shifted: [i8; 400] = [0i8; 400];
        let mut k: usize = 0;
        while k < 400
            invariant
                n <= 40,
                remaining == 40 - n,
                col < 10,
                k <= 400,
                self.board@ == old_board,
                forall|j: int| 0 <= j < k ==> #[trigger] shifted[j] == garbage_shift(old_board, n as int, col as int)[j],
            decreases 400 - k,
        {
            if k < remaining * 10 {
                shifted[k] = self.board[k + n * 10];
            } else if k % 10 == col as usize {
                shifted[k] = 0;
            } else {
                shifted[k] = -1;
            }
            k += 1;
        }
        assert(shifted@ =~= garbage_shift(old_board, n as int, col as int));

        self.board = shifted;
        self.garbage_col = Some(col);
        if topped_out {
            self.game_over = true;
            self.game_over_reason = Some("garbage_top_out".to_string());
        }
    }

    /// Counts every queued timer down by one and lands, in queue order, the
    /// batches whose timer runs out; returns the lines that landed.
    pub fn tick_garbage(&mut self) -> (r: i32)
        requires
            forall|i: int| 0 <= i < old(self).incoming_garbage@.len() ==> #[trigger] old(self).incoming_garbage@[i].timer > i32::MIN,
            forall|i: int| 0 <= i < landing(old(self).incoming_garbage@).len()
                ==> (#[trigger] landing(old(self).incoming_garbage@)[i]).lines > 0 ==> landing(old(self).incoming_garbage@)[i].col < 10,
            running_totals_fit(landing(old(self).incoming_garbage@)),
        ensures
            ({
                let landed = landing(old(self).incoming_garbage@);
                let st = apply_all(garbage_state(*old(self)), landed);
                &&& r == total_lines(landed)
                &&& final(self).incoming_garbage@ == still_waiting(old(self).incoming_garbage@)
                &&& final(self).board@ == st.0
                &&& final(self).garbage_col == st.1
                &&& final(self).game_over == (old(self).game_over || st.2)
                &&& st.2 ==> (final(self).game_over_reason matches Some(reason) && reason@ == "garbage_top_out"@)
                &&& !st.2 ==> final(self).game_over_reason == old(self).game_over_reason
                &&& *final(self) == (TetrisEngine {
                    board: final(self).board,
                    garbage_col: final(self).garbage_col,
                    game_over: final(self).game_over,
                    game_over_reason: final(self).game_over_reason,
                    incoming_garbage: final(self).incoming_garbage,
                    ..*old(self)
                })
            }),
    {
        let ghost q = self.incoming_garbage@;
        let ghost d = counted_down(q);
        let mut pending: Vec<GarbageBatch> = Vec::new();
        std::mem::swap(&mut pending, &mut self.incoming_garbage);
        let mut still_pending: Vec<GarbageBatch> = Vec::new();
        let mut landed: i32 = 0;
        let mut i: usize = 0;
        while i < pending.len()
            invariant
                pending@ == q,
                d == counted_down(q),
                i <= q.len(),
                forall|j: int| 0 <= j < q.len() ==> #[trigger] q[j].timer > i32::MIN,
                forall|j: int| 0 <= j < landing(q).len() ==> (#[trigger] landing(q)[j]).lines > 0 ==> landing(q)[j].col < 10,
                running_totals_fit(landing(q)),
                landing(q) == d.filter(|g: GarbageBatch| g.timer <= 0),
                still_pending@ == d.take(i as int).filter(|g: GarbageBatch| g.timer > 0),
                landed == total_lines(d.take(i as int).filter(|g: GarbageBatch| g.timer <= 0)),
                self.incoming_garbage@.len() == 0,
                ({
                    let st = apply_all(garbage_state(*old(self)), d.take(i as int).filter(|g: GarbageBatch| g.timer <= 0));
                    &&& self.board@ == st.0
                    &&& self.garbage_col == st.1
                    &&& self.game_over == (old(self).game_over || st.2)
                    &&& st.2 ==> (self.game_over_reason matches Some(reason) && reason@ == "garbage_top_out"@)
                    &&& !st.2 ==> self.game_over_reason == old(self).game_over_reason
                }),
                *self == (TetrisEngine {
                    board: self.board,
                    garbage_col: self.garbage_col,
                    game_over: self.game_over,
                    game_over_reason: self.game_over_reason,
                    incoming_garbage: self.incoming_garbage,
                    ..*old(self)
                }),
            decreases q.len() - i,
        {
            let batch = pending[i];
            let down = GarbageBatch { timer: batch.timer - 1, ..batch };
            let ghost before = d.take(i as int);
            proof {
                assert(d[i as int] == down);
                assert(d.take(i + 1) =~= before.push(down));
                before.lemma_filter_push(down, |g: GarbageBatch| g.timer <= 0);
                before.lemma_filter_push(down, |g: GarbageBatch| g.timer > 0);
            }
            if down.timer <= 0 {
                proof {
                    lemma_filter_prefix_of(d, i as int + 1, |g: GarbageBatch| g.timer <= 0);
                    let e = before.filter(|g: GarbageBatch| g.timer <= 0);
                    assert(e.push(down) == landing(q).take(e.len() as int + 1));
                    assert(e.push(down)[e.len() as int] == down);
                    assert(landing(q).take(e.len() as int + 1)[e.len() as int] == down);
                    assert(landing(q)[e.len() as int] == down);
                    lemma_total_lines_push(e, down);
                    assert(total_lines(landing(q).take(e.len() as int + 1)) <= i32::MAX);
                    assert(total_lines(landing(q).take(e.len() as int + 1)) >= i32::MIN);
                    assert(e.push(down).drop_last() =~= e);
                }
                self.apply_garbage(down.lines, down.col);
                landed = landed + down.lines;
            } else {
                still_pending.push(down);
            }
            i += 1;
        }
        assert(d.take(q.len() as int) =~= d);
        self.incoming_garbage = still_pending;
        landed
    }
}

} // verus!
