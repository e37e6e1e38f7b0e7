use vstd::prelude::*;

use std::collections::VecDeque;

use crate::board::{fits, is_position_valid, lemma_rotation_offsets_small, Board};
use crate::constants::ROTATION_NAMES;
use crate::engine::{lemma_small_offsets_representable, TetrisEngine};
use crate::piece::{Piece, PieceKind};
use crate::rotation::{rotation_candidate_seq, rotation_candidates};
use crate::scoring::AttackStats;

verus! {

/// Where a placement search starts and what it knows of the piece's last move.
#[derive(Clone, Debug, PartialEq, Eq)]
pub struct BfsInputs {
    pub kind: PieceKind,
    pub start_x: i16,
    pub start_y: i16,
    pub start_rot: u8,
    pub piece_is_o: bool,
    pub last_rot_dir: Option<i8>,
    pub last_kick_idx: Option<u8>,
}

/// One placement of a search result, or the option of not placing at all.
#[derive(Clone, Copy, Debug, PartialEq, Eq, Hash)]
pub enum PlacementRecord {
    Skip,
    Placed {
        x: i16,
        y: i16,
        r: &'static str,
        rotation: u8,
        kind: PieceKind,
        last_was_rot: bool,
        last_rot_dir: Option<i8>,
        last_kick_idx: Option<u8>,
    },
}

/// A search result: the board and score after the placement, the placement,
/// and every placement that leads to the same outcome.
#[derive(Clone, Debug, PartialEq)]
pub struct BfsResult {
    pub board: Option<Board>,
    pub stats: Option<AttackStats>,
    pub placement: PlacementRecord,
    pub placements: Vec<PlacementRecord>,
}

#[derive(Clone, Copy, Debug, PartialEq, Eq)]
struct SearchState {
    x: i16,
    y: i16,
    rotation: u8,
    last_was_rot: bool,
    last_rot_dir: Option<i8>,
    last_kick_idx: Option<u8>,
}

/// A resting placement found by the search, with how the piece got there.
#[derive(Clone, Copy, Debug, PartialEq, Eq)]
pub struct TerminalState {
    pub x: i16,
    pub y: i16,
    pub rotation: u8,
    pub last_was_rot: bool,
    pub last_rot_dir: Option<i8>,
    pub last_kick_idx: Option<u8>,
}

impl PlacementRecord {
    /// The record of a placement, its rotation taken modulo 4 and named.
    pub fn placed(
        kind: PieceKind,
        x: i16,
        y: i16,
        rotation: u8,
        last_was_rot: bool,
        last_rot_dir: Option<i8>,
        last_kick_idx: Option<u8>,
    ) -> (r: Self)
        ensures
            r == (PlacementRecord::Placed {
                x,
                y,
                r: ROTATION_NAMES[(rotation % 4) as int],
                rotation: rotation % 4,
                kind,
                last_was_rot,
                last_rot_dir,
                last_kick_idx,
            }),
    {
        PlacementRecord::Placed {
            x,
            y,
            r: ROTATION_NAMES[(rotation % 4) as usize],
            rotation: rotation % 4,
            kind,
            last_was_rot,
            last_rot_dir,
            last_kick_idx,
        }
    }
}

/// A placement as (column, row, rotation state).
pub type Spot = (int, int, int);

/// A move found by the search: the spot reached, whether it was a rotation,
/// its direction and its kick index.
pub type Move = (Spot, bool, Option<i8>, Option<u8>);

/// Whether `kind` rests at `p`: one row lower it does not fit.
pub open spec fn grounded(board: Seq<i8>, kind: PieceKind, p: Spot) -> bool {
    !fits(board, kind, (p.0, p.1 + 1), p.2)
}

/// The spot one step left, right or down (m = 0, 1, 2), if the piece fits there.
pub open spec fn shift_target(board: Seq<i8>, kind: PieceKind, p: Spot, m: int) -> Option<Spot> {
    let q = if m == 0 {
        (p.0 - 1, p.1, p.2)
    } else if m == 1 {
        (p.0 + 1, p.1, p.2)
    } else {
        (p.0, p.1 + 1, p.2)
    };
    if fits(board, kind, (q.0, q.1), q.2) {
        Some(q)
    } else {
        None
    }
}

/// The first kick of `c`, from index `i` on, that lets the piece fit in
/// state `nr`: the spot and the kick's index. Kicks move up for positive dy.
pub open spec fn kick_search(board: Seq<i8>, kind: PieceKind, x: int, y: int, nr: int, c: Seq<(u8, i8, i8)>, i: nat) -> Option<(Spot, u8)>
    decreases c.len() - i,
{
    if i >= c.len() {
        None
    } else if fits(board, kind, (x + c[i as int].1, y - c[i as int].2), nr) {
        Some(((x + c[i as int].1, y - c[i as int].2, nr), c[i as int].0))
    } else {
        kick_search(board, kind, x, y, nr, c, i + 1)
    }
}

/// Where rotating by `d` quarter turns from `p` lands: an O piece turning a
/// quarter stays in place; every other turn takes the first kick that fits.
pub open spec fn turn_target(board: Seq<i8>, kind: PieceKind, is_o: bool, p: Spot, d: i8) -> Option<(Spot, u8)> {
    let nr = (p.2 + d) % 4;
    if d != 2 && d != -2 && is_o {
        if fits(board, kind, (p.0, p.1), nr) {
            Some(((p.0, p.1, nr), 0u8))
        } else {
            None
        }
    } else {
        kick_search(board, kind, p.0, p.1, nr, rotation_candidate_seq(kind, p.2 as u8, nr as u8, d), 0)
    }
}

/// The shift by `m` as a move, if it is possible.
pub open spec fn shift_move(board: Seq<i8>, kind: PieceKind, p: Spot, m: int) -> Seq<Move> {
    match shift_target(board, kind, p, m) {
        Some(q) => seq![(q, false, None::<i8>, None::<u8>)],
        None => seq![],
    }
}

/// The turn by `d` as a move, if it is possible.
pub open spec fn turn_move(board: Seq<i8>, kind: PieceKind, is_o: bool, p: Spot, d: i8) -> Seq<Move> {
    match turn_target(board, kind, is_o, p, d) {
        Some((q, k)) => seq![(q, true, Some(d), Some(k))],
        None => seq![],
    }
}

/// Every move possible from `p`, in the order the search tries them: left,
/// right, down, clockwise, counter-clockwise and, when allowed, a half turn.
pub open spec fn moves_from(board: Seq<i8>, kind: PieceKind, is_o: bool, include_180: bool, p: Spot) -> Seq<Move> {
    shift_move(board, kind, p, 0) + shift_move(board, kind, p, 1) + shift_move(board, kind, p, 2)
        + turn_move(board, kind, is_o, p, 1i8) + turn_move(board, kind, is_o, p, -1i8)
        + if include_180 { turn_move(board, kind, is_o, p, 2i8) } else { seq![] }
}

/// Whether one move takes the piece from `p` to `q`.
pub open spec fn step(board: Seq<i8>, kind: PieceKind, is_o: bool, include_180: bool, p: Spot, q: Spot) -> bool {
    exists|i: int| 0 <= i < moves_from(board, kind, is_o, include_180, p).len()
        && (#[trigger] moves_from(board, kind, is_o, include_180, p)[i]).0 == q
}

/// Whether `n` moves take the piece from `start` to `q`.
pub open spec fn reachable_in(board: Seq<i8>, kind: PieceKind, is_o: bool, include_180: bool, start: Spot, n: nat, q: Spot) -> bool
    decreases n,
{
    if n == 0 {
        q == start
    } else {
        exists|p: Spot|
            reachable_in(board, kind, is_o, include_180, start, (n - 1) as nat, p)
                && #[trigger] step(board, kind, is_o, include_180, p, q)
    }
}

/// Whether some sequence of moves takes the piece from `start` to `q`.
pub open spec fn reachable(board: Seq<i8>, kind: PieceKind, is_o: bool, include_180: bool, start: Spot, q: Spot) -> bool {
    exists|n: nat| reachable_in(board, kind, is_o, include_180, start, n, q)
}

/// The visited-table slot of a coordinate: negative values wrap from the top
/// of the range.
pub open spec fn wrapped(v: int, upper: int) -> int {
    if v < 0 {
        upper + v
    } else {
        v
    }
}

/// The visited-table slot of a spot.
pub open spec fn slot(x: int, y: int, r: int) -> int {
    (wrapped(y, 40) * 10 + wrapped(x, 10)) * 4 + r % 4
}

spec fn move_of(s: SearchState) -> Move {
    ((s.x as int, s.y as int, s.rotation as int), s.last_was_rot, s.last_rot_dir, s.last_kick_idx)
}

/// The spot and move history of a result.
pub open spec fn terminal_move(t: TerminalState) -> Move {
    ((t.x as int, t.y as int, t.rotation as int), t.last_was_rot, t.last_rot_dir, t.last_kick_idx)
}

/// The spots and move histories of a run of results.
pub open spec fn terminal_moves(r: Seq<TerminalState>) -> Seq<Move> {
    r.map_values(|t: TerminalState| terminal_move(t))
}

/// Whether some move of `s` ends on a spot that shares the visited-table
/// slot of `q`.
pub open spec fn slot_taken(s: Seq<Move>, q: Spot) -> bool {
    exists|j: int| 0 <= j < s.len() && slot((#[trigger] s[j]).0.0, s[j].0.1, s[j].0.2) == slot(q.0, q.1, q.2)
}

/// `s` with the moves of `ms` appended in order, each only when its spot's
/// slot is not yet taken (by `s` or by a move appended before it).
pub open spec fn enqueue_new(s: Seq<Move>, ms: Seq<Move>) -> Seq<Move>
    decreases ms.len(),
{
    if ms.len() == 0 {
        s
    } else {
        let acc = enqueue_new(s, ms.drop_last());
        if slot_taken(acc, ms.last().0) {
            acc
        } else {
            acc.push(ms.last())
        }
    }
}

/// The moves the search has queued, in queue order, after taking `k` of
/// them off the queue: the start first; taking the `k`-th queued move off
/// appends every move from its spot (left, right, down, clockwise,
/// counter-clockwise, half turn) whose slot is not taken yet.
pub open spec fn bfs_stage(board: Seq<i8>, kind: PieceKind, is_o: bool, include_180: bool, start: Move, k: nat) -> Seq<Move>
    decreases k,
{
    if k == 0 {
        seq![start]
    } else {
        let s = bfs_stage(board, kind, is_o, include_180, start, (k - 1) as nat);
        if k - 1 < s.len() {
            enqueue_new(s, moves_from(board, kind, is_o, include_180, s[k - 1].0))
        } else {
            s
        }
    }
}

/// Whether a move ends on a resting spot.
pub open spec fn resting_fn(board: Seq<i8>, kind: PieceKind) -> spec_fn(Move) -> bool {
    |m: Move| grounded(board, kind, m.0)
}

/// What the search reports: the moves it queued, in queue order, that end on
/// a resting spot, each with the history of the move that first reached its
/// spot. The table has 1600 slots, so at most 1600 moves are ever queued and
/// 1600 stages take every one of them off the queue.
pub open spec fn bfs_results(board: Seq<i8>, kind: PieceKind, is_o: bool, include_180: bool, start: Move) -> Seq<Move> {
    bfs_stage(board, kind, is_o, include_180, start, 1600).filter(resting_fn(board, kind))
}

fn wrap_index(value: i16, upper: usize) -> (r: usize)
    requires
        upper <= 1000,
        value >= -(upper as int),
    ensures
        r == wrapped(value as int, upper as int),
{
    if value < 0 {
        (upper as i16 + value) as usize
    } else {
        value as usize
    }
}

fn visited_index(x: i16, y: i16, rotation: u8) -> (r: usize)
    requires
        x >= -10,
        y >= -40,
    ensures
        r == slot(x as int, y as int, rotation as int),
{
    let x = wrap_index(x, 10);
    let y = wrap_index(y, 40);
    (y * 10 + x) * 4 + (rotation % 4) as usize
}

/// Whether a spot is near enough to the board for all search arithmetic.
pub open spec fn near(p: Spot) -> bool {
    -1000 <= p.0 <= 1000 && -1000 <= p.1 <= 1000 && 0 <= p.2 < 4
}

fn try_kicks(board: &Board, probe: &Piece, x: i16, y: i16, new_rotation: u8, candidates: &Vec<(u8, i8, i8)>) -> (r: Option<(i16, i16, u8)>)
    requires
        -1000 <= x <= 1000,
        -1000 <= y <= 1000,
        new_rotation < 4,
    ensures
        match kick_search(board@, probe.kind, x as int, y as int, new_rotation as int, candidates@, 0) {
            Some((q, k)) => r matches Some(t) && t.0 == q.0 && t.1 == q.1 && t.2 == k && q.2 == new_rotation,
            None => r is None,
        },
        r matches Some(t) ==> fits(board@, probe.kind, (t.0 as int, t.1 as int), new_rotation as int),
{
    let mut i: usize = 0;
    while i < candidates.len()
        invariant
            -1000 <= x <= 1000,
            -1000 <= y <= 1000,
            new_rotation < 4,
            i <= candidates@.len(),
            kick_search(board@, probe.kind, x as int, y as int, new_rotation as int, candidates@, 0)
                == kick_search(board@, probe.kind, x as int, y as int, new_rotation as int, candidates@, i as nat),
        decreases candidates@.len() - i,
    {
        let (kick_idx, kick_x, kick_y) = candidates[i];
        let tx = x + kick_x as i16;
        let ty = y - kick_y as i16;
        proof {
            lemma_small_offsets_representable(probe.kind, tx as int, ty as int, new_rotation as int);
        }
        if is_position_valid(board, probe, Some((tx, ty)), Some(new_rotation)) {
            return Some((tx, ty, kick_idx));
        }
        i += 1;
    }
    None
}

/// A piece that fits has its origin within three cells of the board.
pub(crate) proof fn lemma_fits_near(board: Seq<i8>, kind: PieceKind, p: Spot)
    requires
        fits(board, kind, (p.0, p.1), p.2),
        0 <= p.2 < 4,
    ensures
        -3 <= p.0 <= 9,
        -3 <= p.1 <= 39,
        near(p),
{
    lemma_rotation_offsets_small(kind, (p.2 % 4) as nat);
}

/// Whether the states of `s` carry exactly the moves `ms`.
spec fn moves_match(s: Seq<SearchState>, ms: Seq<Move>) -> bool {
    s.len() == ms.len() && forall|i: int| 0 <= i < s.len() ==> move_of(#[trigger] s[i]) == ms[i]
}

/// Whether every state of `s` fits and is near the board.
spec fn all_fit(board: Seq<i8>, kind: PieceKind, s: Seq<SearchState>) -> bool {
    forall|i: int|
        0 <= i < s.len() ==> fits(board, kind, ((#[trigger] s[i]).x as int, s[i].y as int), s[i].rotation as int)
            && near(move_of(s[i]).0)
}

proof fn lemma_moves_match_append(a: Seq<SearchState>, c: Seq<SearchState>, m1: Seq<Move>, m2: Seq<Move>)
    requires
        moves_match(a, m1),
        a.len() <= c.len(),
        c.take(a.len() as int) == a,
        moves_match(c.skip(a.len() as int), m2),
    ensures
        moves_match(c, m1 + m2),
{
    assert forall|i: int| 0 <= i < c.len() implies move_of(#[trigger] c[i]) == (m1 + m2)[i] by {
        if i < a.len() {
            assert(c[i] == c.take(a.len() as int)[i]);
        } else {
            assert(c[i] == c.skip(a.len() as int)[i - a.len()]);
        }
    }
}

fn push_shift(board: &Board, probe: &Piece, state: SearchState, m: usize, out: &mut Vec<SearchState>)
    requires
        near(move_of(state).0),
        m < 3,
        all_fit(board@, probe.kind, old(out)@),
    ensures
        final(out)@.len() >= old(out)@.len(),
        final(out)@.take(old(out)@.len() as int) == old(out)@,
        moves_match(final(out)@.skip(old(out)@.len() as int), shift_move(board@, probe.kind, move_of(state).0, m as int)),
        all_fit(board@, probe.kind, final(out)@),
{
    let (dx, dy): (i16, i16) = if m == 0 { (-1, 0) } else if m == 1 { (1, 0) } else { (0, 1) };
    let nx = state.x + dx;
    let ny = state.y + dy;
    proof {
        lemma_small_offsets_representable(probe.kind, nx as int, ny as int, state.rotation as int);
    }
    let ghost before = out@;
    if is_position_valid(board, probe, Some((nx, ny)), Some(state.rotation)) {
        out.push(SearchState {
            x: nx,
            y: ny,
            rotation: state.rotation,
            last_was_rot: false,
            last_rot_dir: None,
            last_kick_idx: None,
        });
        assert(out@.take(before.len() as int) =~= before);
    } else {
        assert(out@.take(before.len() as int) =~= before);
    }
    assert(out@.skip(before.len() as int).len() == shift_move(board@, probe.kind, move_of(state).0, m as int).len());
}

fn push_turn(board: &Board, inputs: &BfsInputs, probe: &Piece, state: SearchState, rot_dir: i8, out: &mut Vec<SearchState>)
    requires
        near(move_of(state).0),
        rot_dir == 1 || rot_dir == -1 || rot_dir == 2,
        probe.kind == inputs.kind,
        all_fit(board@, probe.kind, old(out)@),
    ensures
        final(out)@.len() >= old(out)@.len(),
        final(out)@.take(old(out)@.len() as int) == old(out)@,
        moves_match(final(out)@.skip(old(out)@.len() as int), turn_move(board@, inputs.kind, inputs.piece_is_o, move_of(state).0, rot_dir)),
        all_fit(board@, probe.kind, final(out)@),
{
    let ghost p = move_of(state).0;
    let new_rotation = ((state.rotation as i16 + rot_dir as i16 + 4) % 4) as u8;
    assert(new_rotation as int == (p.2 + rot_dir) % 4);
    let ghost before = out@;
    let mut success = false;
    let mut final_x = state.x;
    let mut final_y = state.y;
    let mut final_kick_idx: u8 = 0;

    if rot_dir != 2 && rot_dir != -2 && inputs.piece_is_o {
        proof {
            lemma_small_offsets_representable(probe.kind, state.x as int, state.y as int, new_rotation as int);
        }
        if is_position_valid(board, probe, Some((state.x, state.y)), Some(new_rotation)) {
            success = true;
        }
    } else {
        let candidates = rotation_candidates(inputs.kind, state.rotation, new_rotation, rot_dir);
        match try_kicks(board, probe, state.x, state.y, new_rotation, &candidates) {
            Some((tx, ty, k)) => {
                success = true;
                final_x = tx;
                final_y = ty;
                final_kick_idx = k;
            },
            None => {},
        }
    }

    if success {
        proof {
            lemma_fits_near(board@, probe.kind, (final_x as int, final_y as int, new_rotation as int));
        }
        out.push(SearchState {
            x: final_x,
            y: final_y,
            rotation: new_rotation,
            last_was_rot: true,
            last_rot_dir: Some(rot_dir),
            last_kick_idx: Some(final_kick_idx),
        });
    }
    assert(out@.take(before.len() as int) =~= before);
}

fn successor_states(board: &Board, inputs: &BfsInputs, probe: &Piece, state: SearchState, include_180: bool) -> (r: Vec<SearchState>)
    requires
        near(move_of(state).0),
        probe.kind == inputs.kind,
    ensures
        moves_match(r@, moves_from(board@, inputs.kind, inputs.piece_is_o, include_180, move_of(state).0)),
        all_fit(board@, inputs.kind, r@),
{
    let ghost p = move_of(state).0;
    let ghost b = board@;
    let ghost kind = inputs.kind;
    let ghost is_o = inputs.piece_is_o;
    let mut out: Vec<SearchState> = Vec::new();
    assert(moves_match(out@, seq![]));

    let ghost o0 = out@;
    push_shift(board, probe, state, 0, &mut out);
    proof { lemma_moves_match_append(o0, out@, seq![], shift_move(b, kind, p, 0)); }
    let ghost m1 = seq![] + shift_move(b, kind, p, 0);

    let ghost o1 = out@;
    push_shift(board, probe, state, 1, &mut out);
    proof { lemma_moves_match_append(o1, out@, m1, shift_move(b, kind, p, 1)); }
    let ghost m2 = m1 + shift_move(b, kind, p, 1);

    let ghost o2 = out@;
    push_shift(board, probe, state, 2, &mut out);
    proof { lemma_moves_match_append(o2, out@, m2, shift_move(b, kind, p, 2)); }
    let ghost m3 = m2 + shift_move(b, kind, p, 2);

    let ghost o3 = out@;
    push_turn(board, inputs, probe, state, 1, &mut out);
    proof { lemma_moves_match_append(o3, out@, m3, turn_move(b, kind, is_o, p, 1i8)); }
    let ghost m4 = m3 + turn_move(b, kind, is_o, p, 1i8);

    let ghost o4 = out@;
    push_turn(board, inputs, probe, state, -1, &mut out);
    proof { lemma_moves_match_append(o4, out@, m4, turn_move(b, kind, is_o, p, -1i8)); }
    let ghost m5 = m4 + turn_move(b, kind, is_o, p, -1i8);

    if include_180 {
        let ghost o5 = out@;
        push_turn(board, inputs, probe, state, 2, &mut out);
        proof {
            lemma_moves_match_append(o5, out@, m5, turn_move(b, kind, is_o, p, 2i8));
            assert(m5 + turn_move(b, kind, is_o, p, 2i8) =~= moves_from(b, kind, is_o, include_180, p));
        }
    } else {
        assert(m5 + seq![] =~= m5);
        assert(m5 =~= moves_from(b, kind, is_o, include_180, p));
    }
    out
}

/// Number of slots of `v` not yet marked.
spec fn unmarked(v: Seq<bool>) -> nat
    decreases v.len(),
{
    if v.len() == 0 {
        0
    } else {
        unmarked(v.drop_last()) + if v.last() { 0nat } else { 1nat }
    }
}

proof fn lemma_unmarked_mark(v: Seq<bool>, i: int)
    requires
        0 <= i < v.len(),
        !v[i],
    ensures
        unmarked(v.update(i, true)) + 1 == unmarked(v),
    decreases v.len(),
{
    if i < v.len() - 1 {
        lemma_unmarked_mark(v.drop_last(), i);
        assert(v.update(i, true).drop_last() =~= v.drop_last().update(i, true));
    } else {
        assert(v.update(i, true).drop_last() =~= v.drop_last());
    }
}

/// A kick found by the search fits.
proof fn lemma_kick_search_fits(board: Seq<i8>, kind: PieceKind, x: int, y: int, nr: int, c: Seq<(u8, i8, i8)>, i: nat)
    ensures
        kick_search(board, kind, x, y, nr, c, i) matches Some((q, k)) ==> fits(board, kind, (q.0, q.1), q.2) && q.2 == nr,
    decreases c.len() - i,
{
    if i < c.len() {
        lemma_kick_search_fits(board, kind, x, y, nr, c, i + 1);
    }
}

/// Every move from a spot lands on a spot where the piece fits, in a
/// rotation state 0..=3.
proof fn lemma_moves_fit(board: Seq<i8>, kind: PieceKind, is_o: bool, include_180: bool, p: Spot)
    requires
        0 <= p.2 < 4,
    ensures
        forall|i: int|
            0 <= i < moves_from(board, kind, is_o, include_180, p).len() ==> {
                let q = (#[trigger] moves_from(board, kind, is_o, include_180, p)[i]).0;
                fits(board, kind, (q.0, q.1), q.2) && 0 <= q.2 < 4
            },
{
    let ms = moves_from(board, kind, is_o, include_180, p);
    lemma_kick_search_fits(board, kind, p.0, p.1, (p.2 + 1) % 4, rotation_candidate_seq(kind, p.2 as u8, ((p.2 + 1) % 4) as u8, 1i8), 0);
    lemma_kick_search_fits(board, kind, p.0, p.1, (p.2 - 1) % 4, rotation_candidate_seq(kind, p.2 as u8, ((p.2 - 1) % 4) as u8, -1i8), 0);
    lemma_kick_search_fits(board, kind, p.0, p.1, (p.2 + 2) % 4, rotation_candidate_seq(kind, p.2 as u8, ((p.2 + 2) % 4) as u8, 2i8), 0);
    let a = shift_move(board, kind, p, 0);
    let b = shift_move(board, kind, p, 1);
    let c = shift_move(board, kind, p, 2);
    let d = turn_move(board, kind, is_o, p, 1i8);
    let e = turn_move(board, kind, is_o, p, -1i8);
    let f = if include_180 { turn_move(board, kind, is_o, p, 2i8) } else { seq![] };
    assert forall|i: int| 0 <= i < ms.len() implies {
        let q = (#[trigger] ms[i]).0;
        fits(board, kind, (q.0, q.1), q.2) && 0 <= q.2 < 4
    } by {
        let parts = seq![a, b, c, d, e, f];
        if i < a.len() {
            assert(ms[i] == a[i]);
        } else if i < a.len() + b.len() {
            assert(ms[i] == b[i - a.len()]);
        } else if i < a.len() + b.len() + c.len() {
            assert(ms[i] == c[i - a.len() - b.len()]);
        } else if i < a.len() + b.len() + c.len() + d.len() {
            assert(ms[i] == d[i - a.len() - b.len() - c.len()]);
        } else if i < a.len() + b.len() + c.len() + d.len() + e.len() {
            assert(ms[i] == e[i - a.len() - b.len() - c.len() - d.len()]);
        } else {
            assert(ms[i] == f[i - a.len() - b.len() - c.len() - d.len() - e.len()]);
        }
    }
}

/// Two spots where the piece fits never share a visited-table slot.
proof fn lemma_slot_injective(board: Seq<i8>, kind: PieceKind, p1: Spot, p2: Spot)
    requires
        fits(board, kind, (p1.0, p1.1), p1.2),
        fits(board, kind, (p2.0, p2.1), p2.2),
        0 <= p1.2 < 4,
        0 <= p2.2 < 4,
        slot(p1.0, p1.1, p1.2) == slot(p2.0, p2.1, p2.2),
    ensures
        p1 == p2,
{
    lemma_fits_near(board, kind, p1);
    lemma_fits_near(board, kind, p2);
    let wx1 = wrapped(p1.0, 10);
    let wx2 = wrapped(p2.0, 10);
    let wy1 = wrapped(p1.1, 40);
    let wy2 = wrapped(p2.1, 40);
    assert(0 <= wx1 < 10 && 0 <= wx2 < 10 && 0 <= wy1 < 40 && 0 <= wy2 < 40);
    assert(p1.2 == p2.2 && wy1 * 10 + wx1 == wy2 * 10 + wx2);
    assert(wx1 == wx2 && wy1 == wy2);
    let st = crate::rotation::rotation_state(kind, (p1.2 % 4) as nat);
    assert(crate::board::piece_cells(kind, (p1.0, p1.1), p1.2)[0] == (p1.0 + st[0].0, p1.1 + st[0].1));
    assert(crate::board::piece_cells(kind, (p2.0, p2.1), p2.2)[0] == (p2.0 + st[0].0, p2.1 + st[0].1));
}

/// The search's record of one pushed state and how far it is from the start.
spec fn search_record_ok(
    board: Seq<i8>,
    kind: PieceKind,
    is_o: bool,
    include_180: bool,
    start: SearchState,
    pushed: Seq<SearchState>,
    depth: Seq<nat>,
    k: int,
) -> bool {
    &&& near(move_of(pushed[k]).0)
    &&& reachable_in(board, kind, is_o, include_180, move_of(start).0, depth[k], move_of(pushed[k]).0)
    &&& (k == 0 || fits(board, kind, (pushed[k].x as int, pushed[k].y as int), pushed[k].rotation as int))
    &&& (k == 0 || exists|j: int, i: int|
        0 <= j < k && 0 <= i < moves_from(board, kind, is_o, include_180, move_of(pushed[j]).0).len()
            && #[trigger] moves_from(board, kind, is_o, include_180, move_of(pushed[j]).0)[i] == move_of(pushed[k]))
}

proof fn lemma_push_keeps_records(
    b: Seq<i8>,
    kind: PieceKind,
    is_o: bool,
    inc: bool,
    start: SearchState,
    pushed: Seq<SearchState>,
    depth: Seq<nat>,
    k: int,
    i: int,
    next: SearchState,
    np: Seq<SearchState>,
    nd: Seq<nat>,
)
    requires
        np == pushed.push(next),
        nd == depth.push(depth[k] + 1),
        depth.len() == pushed.len(),
        forall|kk: int| 0 <= kk < pushed.len() ==> search_record_ok(b, kind, is_o, inc, start, pushed, depth, kk),
        0 <= k < pushed.len(),
        0 <= i < moves_from(b, kind, is_o, inc, move_of(pushed[k]).0).len(),
        moves_from(b, kind, is_o, inc, move_of(pushed[k]).0)[i] == move_of(next),
        near(move_of(next).0),
        fits(b, kind, (next.x as int, next.y as int), next.rotation as int),
    ensures
        forall|kk: int| 0 <= kk < np.len() ==> #[trigger] search_record_ok(b, kind, is_o, inc, start, np, nd, kk),
{
    let p = move_of(pushed[k]).0;
    assert(search_record_ok(b, kind, is_o, inc, start, pushed, depth, k));
    assert(step(b, kind, is_o, inc, p, move_of(next).0));
    assert(reachable_in(b, kind, is_o, inc, move_of(start).0, depth[k] + 1, move_of(next).0));
    assert forall|kk: int| 0 <= kk < pushed.len() + 1 implies search_record_ok(b, kind, is_o, inc, start, np, nd, kk) by {
        if kk < pushed.len() {
            assert(search_record_ok(b, kind, is_o, inc, start, pushed, depth, kk));
            assert(np[kk] == pushed[kk]);
            assert(nd[kk] == depth[kk]);
            if kk > 0 {
                let (j, ii) = choose|j: int, ii: int|
                    0 <= j < kk && 0 <= ii < moves_from(b, kind, is_o, inc, move_of(pushed[j]).0).len()
                        && #[trigger] moves_from(b, kind, is_o, inc, move_of(pushed[j]).0)[ii] == move_of(pushed[kk]);
                assert(np[j] == pushed[j]);
            }
        } else {
            assert(np[k] == pushed[k]);
            assert(np[kk] == next);
            assert(moves_from(b, kind, is_o, inc, move_of(np[k]).0)[i] == move_of(np[kk]));
        }
    }
}

/// Whether `t` is a placement the search may report: reachable from the start,
/// resting, and either the start itself or reached by one move from a
/// reachable spot, with that move's history.
pub open spec fn found_by_search(board: Seq<i8>, kind: PieceKind, is_o: bool, include_180: bool, start: Move, t: Move) -> bool {
    &&& reachable(board, kind, is_o, include_180, start.0, t.0)
    &&& grounded(board, kind, t.0)
    &&& (t == start || exists|p: Spot, i: int|
        reachable(board, kind, is_o, include_180, start.0, p)
            && 0 <= i < moves_from(board, kind, is_o, include_180, p).len()
            && #[trigger] moves_from(board, kind, is_o, include_180, p)[i] == t)
}

/// The move record of the search's starting point.
pub open spec fn start_move(inputs: BfsInputs, start_last_was_rot: bool) -> Move {
    ((inputs.start_x as int, inputs.start_y as int, (inputs.start_rot % 4) as int), start_last_was_rot, inputs.last_rot_dir, inputs.last_kick_idx)
}

/// Whether the starting point has a visited-table slot.
pub open spec fn start_in_table(inputs: BfsInputs) -> bool {
    &&& inputs.start_x >= -10
    &&& inputs.start_y >= -40
    &&& slot(inputs.start_x as int, inputs.start_y as int, (inputs.start_rot % 4) as int) < 1600
}

/// The slot of a pushed state.
spec fn state_slot(s: SearchState) -> int {
    slot(s.x as int, s.y as int, s.rotation as int)
}

/// Every pushed state has its slot marked, and every marked slot is owned by
/// a pushed state.
#[verifier::opaque]
spec fn marks_ok(visited: Seq<bool>, pushed: Seq<SearchState>, owner: Map<int, int>) -> bool {
    &&& visited.len() == 1600
    &&& forall|k: int| 0 <= k < pushed.len() ==> 0 <= #[trigger] state_slot(pushed[k]) < 1600 && visited[state_slot(pushed[k])]
    &&& forall|i: int|
        0 <= i < 1600 && #[trigger] visited[i] ==> owner.dom().contains(i) && 0 <= owner[i] < pushed.len()
            && state_slot(pushed[owner[i]]) == i
}

/// No spot was pushed twice.
#[verifier::opaque]
spec fn distinct_spots(pushed: Seq<SearchState>) -> bool {
    forall|k1: int, k2: int| 0 <= k1 < k2 < pushed.len() ==> move_of(#[trigger] pushed[k1]).0 != move_of(#[trigger] pushed[k2]).0
}

/// Every record of `pushed` is sound.
#[verifier::opaque]
spec fn records_ok(
    board: Seq<i8>,
    kind: PieceKind,
    is_o: bool,
    include_180: bool,
    start: SearchState,
    pushed: Seq<SearchState>,
    depth: Seq<nat>,
) -> bool {
    &&& depth.len() == pushed.len()
    &&& forall|k: int| 0 <= k < pushed.len() ==> #[trigger] search_record_ok(board, kind, is_o, include_180, start, pushed, depth, k)
}

/// The first `n` moves of `ms` lead to marked slots.
#[verifier::opaque]
spec fn covered(visited: Seq<bool>, ms: Seq<Move>, n: int) -> bool {
    forall|i: int|
        0 <= i < n ==> 0 <= #[trigger] slot(ms[i].0.0, ms[i].0.1, ms[i].0.2) < visited.len()
            && visited[slot(ms[i].0.0, ms[i].0.1, ms[i].0.2)]
}

/// Every move from the first `n` pushed states leads to a marked slot.
#[verifier::opaque]
spec fn closed_upto(board: Seq<i8>, kind: PieceKind, is_o: bool, include_180: bool, visited: Seq<bool>, pushed: Seq<SearchState>, n: int) -> bool {
    forall|k: int|
        0 <= k < n ==> #[trigger] covered(
            visited,
            moves_from(board, kind, is_o, include_180, move_of(pushed[k]).0),
            moves_from(board, kind, is_o, include_180, move_of(pushed[k]).0).len() as int,
        )
}

/// The results are the resting states among the first `head` pushed, in order.
#[verifier::opaque]
spec fn results_ok(board: Seq<i8>, kind: PieceKind, results: Seq<TerminalState>, res_src: Seq<int>, pushed: Seq<SearchState>, head: int) -> bool {
    &&& results.len() == res_src.len()
    &&& forall|i: int|
        0 <= i < res_src.len() ==> 0 <= #[trigger] res_src[i] < head && terminal_move(results[i]) == move_of(pushed[res_src[i]])
            && grounded(board, kind, move_of(pushed[res_src[i]]).0)
    &&& forall|i: int, j: int| 0 <= i < j < res_src.len() ==> #[trigger] res_src[i] < #[trigger] res_src[j]
    &&& forall|k: int|
        0 <= k < head && grounded(board, kind, move_of(#[trigger] pushed[k]).0) ==> exists|i: int|
            0 <= i < res_src.len() && #[trigger] res_src[i] == k
}

proof fn lemma_mark_and_push(
    visited: Seq<bool>,
    pushed: Seq<SearchState>,
    owner: Map<int, int>,
    next: SearchState,
    idx: int,
)
    requires
        marks_ok(visited, pushed, owner),
        distinct_spots(pushed),
        idx == state_slot(next),
        0 <= idx < 1600,
        !visited[idx],
    ensures
        marks_ok(visited.update(idx, true), pushed.push(next), owner.insert(idx, pushed.len() as int)),
        distinct_spots(pushed.push(next)),
{
    reveal(marks_ok);
    reveal(distinct_spots);
    let v2 = visited.update(idx, true);
    let p2 = pushed.push(next);
    let o2 = owner.insert(idx, pushed.len() as int);
    assert forall|k: int| 0 <= k < p2.len() implies 0 <= #[trigger] state_slot(p2[k]) < 1600 && v2[state_slot(p2[k])] by {
        if k < pushed.len() {
            assert(p2[k] == pushed[k]);
        }
    }
    assert forall|i: int|
        0 <= i < 1600 && #[trigger] v2[i] implies o2.dom().contains(i) && 0 <= o2[i] < p2.len() && state_slot(p2[o2[i]]) == i by {
        if i != idx {
            assert(visited[i]);
            assert(p2[owner[i]] == pushed[owner[i]]);
        }
    }
    assert forall|k1: int, k2: int| 0 <= k1 < k2 < p2.len() implies move_of(#[trigger] p2[k1]).0 != move_of(#[trigger] p2[k2]).0 by {
        assert(p2[k1] == pushed[k1]);
        if k2 == pushed.len() {
            assert(visited[state_slot(pushed[k1])]);
        } else {
            assert(p2[k2] == pushed[k2]);
        }
    }
}

proof fn lemma_marking_keeps_coverage(
    board: Seq<i8>,
    kind: PieceKind,
    is_o: bool,
    include_180: bool,
    visited: Seq<bool>,
    pushed: Seq<SearchState>,
    n: int,
    ms: Seq<Move>,
    i: int,
    next: SearchState,
    idx: int,
)
    requires
        closed_upto(board, kind, is_o, include_180, visited, pushed, n),
        covered(visited, ms, i),
        0 <= n <= pushed.len(),
        0 <= idx < visited.len(),
    ensures
        closed_upto(board, kind, is_o, include_180, visited.update(idx, true), pushed.push(next), n),
        covered(visited.update(idx, true), ms, i),
{
    reveal(closed_upto);
    reveal(covered);
    let v2 = visited.update(idx, true);
    let p2 = pushed.push(next);
    assert forall|k: int| 0 <= k < n implies #[trigger] covered(
        v2,
        moves_from(board, kind, is_o, include_180, move_of(p2[k]).0),
        moves_from(board, kind, is_o, include_180, move_of(p2[k]).0).len() as int,
    ) by {
        assert(p2[k] == pushed[k]);
        let mk = moves_from(board, kind, is_o, include_180, move_of(pushed[k]).0);
        assert(covered(visited, mk, mk.len() as int));
    }
}

proof fn lemma_records_start(board: Seq<i8>, kind: PieceKind, is_o: bool, include_180: bool, start: SearchState)
    requires
        near(move_of(start).0),
    ensures
        records_ok(board, kind, is_o, include_180, start, seq![start], seq![0nat]),
{
    reveal(records_ok);
    assert(search_record_ok(board, kind, is_o, include_180, start, seq![start], seq![0nat], 0));
}

proof fn lemma_records_push(
    b: Seq<i8>,
    kind: PieceKind,
    is_o: bool,
    inc: bool,
    start: SearchState,
    pushed: Seq<SearchState>,
    depth: Seq<nat>,
    k: int,
    i: int,
    next: SearchState,
)
    requires
        records_ok(b, kind, is_o, inc, start, pushed, depth),
        0 <= k < pushed.len(),
        0 <= i < moves_from(b, kind, is_o, inc, move_of(pushed[k]).0).len(),
        moves_from(b, kind, is_o, inc, move_of(pushed[k]).0)[i] == move_of(next),
        near(move_of(next).0),
        fits(b, kind, (next.x as int, next.y as int), next.rotation as int),
    ensures
        records_ok(b, kind, is_o, inc, start, pushed.push(next), depth.push(depth[k] + 1)),
{
    reveal(records_ok);
    lemma_push_keeps_records(b, kind, is_o, inc, start, pushed, depth, k, i, next, pushed.push(next), depth.push(depth[k] + 1));
}

proof fn lemma_record_of(b: Seq<i8>, kind: PieceKind, is_o: bool, inc: bool, start: SearchState, pushed: Seq<SearchState>, depth: Seq<nat>, k: int)
    requires
        records_ok(b, kind, is_o, inc, start, pushed, depth),
        0 <= k < pushed.len(),
    ensures
        search_record_ok(b, kind, is_o, inc, start, pushed, depth, k),
        depth.len() == pushed.len(),
{
    reveal(records_ok);
}

proof fn lemma_close_state(
    board: Seq<i8>,
    kind: PieceKind,
    is_o: bool,
    include_180: bool,
    visited: Seq<bool>,
    pushed: Seq<SearchState>,
    k: int,
)
    requires
        closed_upto(board, kind, is_o, include_180, visited, pushed, k),
        0 <= k < pushed.len(),
        covered(
            visited,
            moves_from(board, kind, is_o, include_180, move_of(pushed[k]).0),
            moves_from(board, kind, is_o, include_180, move_of(pushed[k]).0).len() as int,
        ),
    ensures
        closed_upto(board, kind, is_o, include_180, visited, pushed, k + 1),
{
    reveal(closed_upto);
}

proof fn lemma_cover_one(visited: Seq<bool>, ms: Seq<Move>, i: int)
    requires
        covered(visited, ms, i),
        0 <= i < ms.len(),
        0 <= slot(ms[i].0.0, ms[i].0.1, ms[i].0.2) < visited.len(),
        visited[slot(ms[i].0.0, ms[i].0.1, ms[i].0.2)],
    ensures
        covered(visited, ms, i + 1),
{
    reveal(covered);
}

proof fn lemma_results_step(
    board: Seq<i8>,
    kind: PieceKind,
    results: Seq<TerminalState>,
    res_src: Seq<int>,
    pushed: Seq<SearchState>,
    head: int,
    t: TerminalState,
)
    requires
        results_ok(board, kind, results, res_src, pushed, head),
        0 <= head < pushed.len(),
        terminal_move(t) == move_of(pushed[head]),
    ensures
        grounded(board, kind, move_of(pushed[head]).0) ==> results_ok(board, kind, results.push(t), res_src.push(head), pushed, head + 1),
        !grounded(board, kind, move_of(pushed[head]).0) ==> results_ok(board, kind, results, res_src, pushed, head + 1),
{
    reveal(results_ok);
    if grounded(board, kind, move_of(pushed[head]).0) {
        let r2 = results.push(t);
        let s2 = res_src.push(head);
        assert forall|k: int|
            0 <= k < head + 1 && grounded(board, kind, move_of(#[trigger] pushed[k]).0) implies exists|i: int|
                0 <= i < s2.len() && #[trigger] s2[i] == k by {
            if k == head {
                assert(s2[res_src.len() as int] == k);
            } else {
                let i = choose|i: int| 0 <= i < res_src.len() && #[trigger] res_src[i] == k;
                assert(s2[i] == k);
            }
        }
        assert forall|i: int|
            0 <= i < s2.len() implies 0 <= #[trigger] s2[i] < head + 1 && terminal_move(r2[i]) == move_of(pushed[s2[i]])
                && grounded(board, kind, move_of(pushed[s2[i]]).0) by {
            if i < res_src.len() {
                assert(s2[i] == res_src[i] && r2[i] == results[i]);
            }
        }
    }
}

/// When no queued spot is left, every spot reachable from a start where the
/// piece fits was entered.
proof fn lemma_closed_search_complete(
    b: Seq<i8>,
    kind: PieceKind,
    is_o: bool,
    inc: bool,
    start: SearchState,
    pushed: Seq<SearchState>,
    depth: Seq<nat>,
    owner: Map<int, int>,
    visited: Seq<bool>,
    n: nat,
    q: Spot,
)
    requires
        fits(b, kind, (start.x as int, start.y as int), start.rotation as int),
        pushed.len() >= 1,
        pushed[0] == start,
        marks_ok(visited, pushed, owner),
        records_ok(b, kind, is_o, inc, start, pushed, depth),
        closed_upto(b, kind, is_o, inc, visited, pushed, pushed.len() as int),
        reachable_in(b, kind, is_o, inc, move_of(start).0, n, q),
    ensures
        exists|kk: int| 0 <= kk < pushed.len() && move_of(pushed[kk]).0 == q,
    decreases n,
{
    if n == 0 {
        assert(move_of(pushed[0]).0 == q);
    } else {
        let p = choose|p: Spot|
            reachable_in(b, kind, is_o, inc, move_of(start).0, (n - 1) as nat, p) && #[trigger] step(b, kind, is_o, inc, p, q);
        lemma_closed_search_complete(b, kind, is_o, inc, start, pushed, depth, owner, visited, (n - 1) as nat, p);
        let k0 = choose|kk: int| 0 <= kk < pushed.len() && move_of(pushed[kk]).0 == p;
        lemma_record_of(b, kind, is_o, inc, start, pushed, depth, k0);
        let ms = moves_from(b, kind, is_o, inc, p);
        let i = choose|i: int| 0 <= i < ms.len() && (#[trigger] ms[i]).0 == q;
        lemma_moves_fit(b, kind, is_o, inc, p);
        assert(fits(b, kind, (q.0, q.1), q.2) && 0 <= q.2 < 4);
        lemma_fits_near(b, kind, q);
        let sl = slot(q.0, q.1, q.2);
        reveal(closed_upto);
        reveal(covered);
        assert(covered(visited, ms, ms.len() as int));
        assert(visited[sl]);
        reveal(marks_ok);
        let k1 = owner[sl];
        lemma_record_of(b, kind, is_o, inc, start, pushed, depth, k1);
        let p1 = move_of(pushed[k1]).0;
        assert(fits(b, kind, (p1.0, p1.1), p1.2));
        lemma_slot_injective(b, kind, p1, q);
    }
}

/// The moves of a run of pushed states.
spec fn state_moves(s: Seq<SearchState>) -> Seq<Move> {
    s.map_values(|st: SearchState| move_of(st))
}

proof fn lemma_unmarked_all(v: Seq<bool>)
    requires
        forall|i: int| 0 <= i < v.len() ==> !v[i],
    ensures
        unmarked(v) == v.len(),
    decreases v.len(),
{
    if v.len() > 0 {
        lemma_unmarked_all(v.drop_last());
    }
}

/// A slot is marked exactly when a pushed state sits on it.
proof fn lemma_visited_iff_taken(visited: Seq<bool>, pushed: Seq<SearchState>, owner: Map<int, int>, q: Spot)
    requires
        marks_ok(visited, pushed, owner),
        0 <= slot(q.0, q.1, q.2) < 1600,
    ensures
        visited[slot(q.0, q.1, q.2)] <==> slot_taken(state_moves(pushed), q),
{
    reveal(marks_ok);
    let idx = slot(q.0, q.1, q.2);
    let sm = state_moves(pushed);
    if visited[idx] {
        let j = owner[idx];
        assert(sm[j] == move_of(pushed[j]));
        assert(slot(sm[j].0.0, sm[j].0.1, sm[j].0.2) == idx);
    }
    if slot_taken(sm, q) {
        let j = choose|j: int| 0 <= j < sm.len() && slot((#[trigger] sm[j]).0.0, sm[j].0.1, sm[j].0.2) == idx;
        assert(sm[j] == move_of(pushed[j]));
        assert(visited[state_slot(pushed[j])]);
    }
}

proof fn lemma_enqueue_step(orig: Seq<Move>, ms: Seq<Move>, i: int)
    requires
        0 <= i < ms.len(),
    ensures
        enqueue_new(orig, ms.take(i + 1)) == (if slot_taken(enqueue_new(orig, ms.take(i)), ms[i].0) {
            enqueue_new(orig, ms.take(i))
        } else {
            enqueue_new(orig, ms.take(i)).push(ms[i])
        }),
{
    assert(ms.take(i + 1).drop_last() =~= ms.take(i));
}

proof fn lemma_state_moves_push(s: Seq<SearchState>, x: SearchState)
    ensures
        state_moves(s.push(x)) == state_moves(s).push(move_of(x)),
{
    assert(state_moves(s.push(x)) =~= state_moves(s).push(move_of(x)));
}

/// Taking the `k`-th queued state off the queue reports it when it rests.
proof fn lemma_results_filter_step(
    board: Seq<i8>,
    kind: PieceKind,
    pushed: Seq<SearchState>,
    k: int,
    before: Seq<TerminalState>,
    after: Seq<TerminalState>,
    t: TerminalState,
)
    requires
        0 <= k < pushed.len(),
        terminal_moves(before) == state_moves(pushed).take(k).filter(resting_fn(board, kind)),
        terminal_move(t) == move_of(pushed[k]),
        after == (if grounded(board, kind, move_of(pushed[k]).0) { before.push(t) } else { before }),
    ensures
        terminal_moves(after) == state_moves(pushed).take(k + 1).filter(resting_fn(board, kind)),
{
    let sm = state_moves(pushed);
    assert(sm.take(k + 1) =~= sm.take(k).push(sm[k]));
    sm.take(k).lemma_filter_push(sm[k], resting_fn(board, kind));
    if grounded(board, kind, move_of(pushed[k]).0) {
        assert(terminal_moves(before.push(t)) =~= terminal_moves(before).push(terminal_move(t)));
    }
}

/// Appending to the pushed states keeps what the first `n` of them say.
proof fn lemma_prefix_moves(pushed: Seq<SearchState>, later: Seq<SearchState>, n: int)
    requires
        0 <= n <= pushed.len() <= later.len(),
        later.take(pushed.len() as int) == pushed,
    ensures
        state_moves(later).take(n) == state_moves(pushed).take(n),
{
    assert forall|i: int| 0 <= i < n implies state_moves(later).take(n)[i] == state_moves(pushed).take(n)[i] by {
        assert(later[i] == later.take(pushed.len() as int)[i]);
    }
    assert(state_moves(later).take(n) =~= state_moves(pushed).take(n));
}

/// Once every queued move has been taken off, further stages change nothing.
proof fn lemma_stage_stable(board: Seq<i8>, kind: PieceKind, is_o: bool, include_180: bool, start: Move, k: nat, m: nat)
    requires
        k <= m,
        k >= bfs_stage(board, kind, is_o, include_180, start, k).len(),
    ensures
        bfs_stage(board, kind, is_o, include_180, start, m) == bfs_stage(board, kind, is_o, include_180, start, k),
    decreases m - k,
{
    if k < m {
        assert(bfs_stage(board, kind, is_o, include_180, start, k + 1) == bfs_stage(board, kind, is_o, include_180, start, k));
        lemma_stage_stable(board, kind, is_o, include_180, start, k + 1, m);
    }
}

/// `now` is `orig` with the first `n` moves of `ms` queued where their slot
/// was free, each queued move marking one more slot (`u0` free slots before,
/// `u1` after).
#[verifier::opaque]
spec fn grew_by(orig: Seq<SearchState>, now: Seq<SearchState>, u0: nat, u1: nat, ms: Seq<Move>, n: int) -> bool {
    &&& orig.len() <= now.len()
    &&& now.take(orig.len() as int) == orig
    &&& now.len() + u1 == orig.len() + u0
    &&& state_moves(now) == enqueue_new(state_moves(orig), ms.take(n))
}

proof fn lemma_grew_start(orig: Seq<SearchState>, u0: nat, ms: Seq<Move>)
    ensures
        grew_by(orig, orig, u0, u0, ms, 0),
{
    reveal(grew_by);
    assert(ms.take(0) =~= Seq::<Move>::empty());
    assert(orig.take(orig.len() as int) =~= orig);
}

proof fn lemma_grew_keep(orig: Seq<SearchState>, now: Seq<SearchState>, u0: nat, u1: nat, ms: Seq<Move>, i: int)
    requires
        grew_by(orig, now, u0, u1, ms, i),
        0 <= i < ms.len(),
        slot_taken(state_moves(now), ms[i].0),
    ensures
        grew_by(orig, now, u0, u1, ms, i + 1),
{
    reveal(grew_by);
    lemma_enqueue_step(state_moves(orig), ms, i);
}

proof fn lemma_grew_push(orig: Seq<SearchState>, now: Seq<SearchState>, u0: nat, u1: nat, ms: Seq<Move>, i: int, next: SearchState)
    requires
        grew_by(orig, now, u0, u1, ms, i),
        0 <= i < ms.len(),
        !slot_taken(state_moves(now), ms[i].0),
        move_of(next) == ms[i],
        u1 >= 1,
    ensures
        grew_by(orig, now.push(next), u0, (u1 - 1) as nat, ms, i + 1),
{
    reveal(grew_by);
    lemma_enqueue_step(state_moves(orig), ms, i);
    lemma_state_moves_push(now, next);
    assert(now.push(next).take(orig.len() as int) =~= now.take(orig.len() as int));
}

/// The search so far agrees with the specification: the pushed states are
/// the queued moves after `head` stages, the results are the resting ones
/// among the first `head`, and `u` slots are still free.
#[verifier::opaque]
spec fn trace_ok(
    b: Seq<i8>,
    kind: PieceKind,
    is_o: bool,
    inc: bool,
    st: Move,
    pushed: Seq<SearchState>,
    results: Seq<TerminalState>,
    head: int,
    u: nat,
) -> bool {
    &&& 0 <= head <= pushed.len()
    &&& state_moves(pushed) == bfs_stage(b, kind, is_o, inc, st, head as nat)
    &&& terminal_moves(results) == state_moves(pushed).take(head).filter(resting_fn(b, kind))
    &&& pushed.len() + u == 1600
}

proof fn lemma_trace_start(b: Seq<i8>, kind: PieceKind, is_o: bool, inc: bool, st: Move, start: SearchState)
    requires
        move_of(start) == st,
    ensures
        trace_ok(b, kind, is_o, inc, st, seq![start], seq![], 0, 1599),
{
    reveal(trace_ok);
    assert(state_moves(seq![start]) =~= seq![st]);
    assert(terminal_moves(seq![]) =~= Seq::<Move>::empty());
    assert(state_moves(seq![start]).take(0) =~= Seq::<Move>::empty());
    assert(Seq::<Move>::empty().filter(resting_fn(b, kind)) =~= Seq::<Move>::empty()) by {
        reveal_with_fuel(Seq::filter, 1);
    }
}

proof fn lemma_trace_step(
    b: Seq<i8>,
    kind: PieceKind,
    is_o: bool,
    inc: bool,
    st: Move,
    pushed: Seq<SearchState>,
    newp: Seq<SearchState>,
    res_old: Seq<TerminalState>,
    res_new: Seq<TerminalState>,
    k: int,
    t: TerminalState,
    u: nat,
    u2: nat,
)
    requires
        trace_ok(b, kind, is_o, inc, st, pushed, res_old, k, u),
        0 <= k < pushed.len(),
        terminal_move(t) == move_of(pushed[k]),
        res_new == (if grounded(b, kind, move_of(pushed[k]).0) { res_old.push(t) } else { res_old }),
        grew_by(
            pushed,
            newp,
            u,
            u2,
            moves_from(b, kind, is_o, inc, move_of(pushed[k]).0),
            moves_from(b, kind, is_o, inc, move_of(pushed[k]).0).len() as int,
        ),
    ensures
        trace_ok(b, kind, is_o, inc, st, newp, res_new, k + 1, u2),
{
    reveal(trace_ok);
    reveal(grew_by);
    let ms = moves_from(b, kind, is_o, inc, move_of(pushed[k]).0);
    assert(ms.take(ms.len() as int) =~= ms);
    lemma_results_filter_step(b, kind, pushed, k, res_old, res_new, t);
    lemma_prefix_moves(pushed, newp, k + 1);
    assert(state_moves(pushed)[k] == move_of(pushed[k]));
    assert(bfs_stage(b, kind, is_o, inc, st, (k + 1) as nat) == enqueue_new(
        bfs_stage(b, kind, is_o, inc, st, k as nat),
        moves_from(b, kind, is_o, inc, bfs_stage(b, kind, is_o, inc, st, k as nat)[k].0),
    ));
}

proof fn lemma_trace_done(
    b: Seq<i8>,
    kind: PieceKind,
    is_o: bool,
    inc: bool,
    st: Move,
    pushed: Seq<SearchState>,
    results: Seq<TerminalState>,
    head: int,
    u: nat,
)
    requires
        trace_ok(b, kind, is_o, inc, st, pushed, results, head, u),
        head == pushed.len(),
    ensures
        terminal_moves(results) == bfs_results(b, kind, is_o, inc, st),
{
    reveal(trace_ok);
    assert(state_moves(pushed).take(head) =~= state_moves(pushed));
    lemma_stage_stable(b, kind, is_o, inc, st, head as nat, 1600);
}

/// Pushes every move from `state` (the `k`-th pushed state) to a spot not
/// yet entered, marking its slot.
#[verifier::rlimit(60)]
#[verifier::spinoff_prover]
fn expand_state(
    board: &Board,
    inputs: &BfsInputs,
    probe: &Piece,
    state: SearchState,
    include_180: bool,
    visited: &mut Vec<bool>,
    queue: &mut VecDeque<SearchState>,
    Ghost(start): Ghost<SearchState>,
    Ghost(pushed): Ghost<Seq<SearchState>>,
    Ghost(depth): Ghost<Seq<nat>>,
    Ghost(owner): Ghost<Map<int, int>>,
    Ghost(k): Ghost<int>,
    Ghost(results): Ghost<Seq<TerminalState>>,
    Ghost(res_src): Ghost<Seq<int>>,
) -> (log: Ghost<(Seq<SearchState>, Seq<nat>, Map<int, int>)>)
    requires
        probe.kind == inputs.kind,
        0 <= k < pushed.len(),
        state == pushed[k],
        pushed[0] == start,
        old(queue)@ == pushed.skip(k + 1),
        old(visited)@.len() == 1600,
        marks_ok(old(visited)@, pushed, owner),
        distinct_spots(pushed),
        records_ok(board@, inputs.kind, inputs.piece_is_o, include_180, start, pushed, depth),
        closed_upto(board@, inputs.kind, inputs.piece_is_o, include_180, old(visited)@, pushed, k),
        results_ok(board@, inputs.kind, results, res_src, pushed, k + 1),
    ensures
        log@.0.len() >= pushed.len(),
        log@.0[0] == start,
        final(queue)@ == log@.0.skip(k + 1),
        final(visited)@.len() == 1600,
        marks_ok(final(visited)@, log@.0, log@.2),
        distinct_spots(log@.0),
        records_ok(board@, inputs.kind, inputs.piece_is_o, include_180, start, log@.0, log@.1),
        closed_upto(board@, inputs.kind, inputs.piece_is_o, include_180, final(visited)@, log@.0, k + 1),
        results_ok(board@, inputs.kind, results, res_src, log@.0, k + 1),
        unmarked(final(visited)@) + final(queue)@.len() == unmarked(old(visited)@) + old(queue)@.len(),
        grew_by(
            pushed,
            log@.0,
            unmarked(old(visited)@),
            unmarked(final(visited)@),
            moves_from(board@, inputs.kind, inputs.piece_is_o, include_180, move_of(pushed[k]).0),
            moves_from(board@, inputs.kind, inputs.piece_is_o, include_180, move_of(pushed[k]).0).len() as int,
        ),
{
    let ghost b = board@;
    let ghost kind = inputs.kind;
    let ghost is_o = inputs.piece_is_o;
    let ghost inc = include_180;
    let ghost p = move_of(state).0;
    let ghost orig_len = pushed.len();
    let ghost orig = pushed;
    let ghost unmarked0 = unmarked(visited@);
    let ghost mut pushed = pushed;
    let ghost mut depth = depth;
    let ghost mut owner = owner;
    let ghost head = k + 1;
    proof {
        lemma_record_of(b, kind, is_o, inc, start, pushed, depth, k);
    }
    let succ = successor_states(board, inputs, probe, state, include_180);
    let ghost ms = moves_from(b, kind, is_o, inc, p);
    let ghost budget = unmarked(visited@) + queue@.len();
    proof {
        reveal(covered);
        lemma_grew_start(orig, unmarked0, ms);
    }
    let mut i: usize = 0;
    while i < succ.len()
        invariant
            b == board@,
            kind == inputs.kind,
            is_o == inputs.piece_is_o,
            inc == include_180,
            probe.kind == kind,
            0 <= k < head,
            head == k + 1,
            state == pushed[k],
            p == move_of(state).0,
            ms == moves_from(b, kind, is_o, inc, p),
            moves_match(succ@, ms),
            all_fit(b, kind, succ@),
            i <= succ@.len(),
            unmarked(visited@) + queue@.len() == budget,
            pushed.len() >= orig_len,
            pushed[0] == start,
            head <= pushed.len(),
            queue@ == pushed.skip(head),
            visited@.len() == 1600,
            marks_ok(visited@, pushed, owner),
            distinct_spots(pushed),
            records_ok(b, kind, is_o, inc, start, pushed, depth),
            closed_upto(b, kind, is_o, inc, visited@, pushed, k),
            covered(visited@, ms, i as int),
            results_ok(b, kind, results, res_src, pushed, head),
            grew_by(orig, pushed, unmarked0, unmarked(visited@), ms, i as int),
        decreases succ@.len() - i,
    {
        let next = succ[i];
        proof {
            assert(ms[i as int] == move_of(next));
            lemma_fits_near(b, kind, move_of(next).0);
        }
        let index = visited_index(next.x, next.y, next.rotation);
        proof {
            lemma_visited_iff_taken(visited@, pushed, owner, move_of(next).0);
        }
        if !visited[index] {
            proof {
                lemma_unmarked_mark(visited@, index as int);
                lemma_grew_push(orig, pushed, unmarked0, unmarked(visited@), ms, i as int, next);
                lemma_mark_and_push(visited@, pushed, owner, next, index as int);
                lemma_marking_keeps_coverage(b, kind, is_o, inc, visited@, pushed, k, ms, i as int, next, index as int);
                lemma_records_push(b, kind, is_o, inc, start, pushed, depth, k, i as int, next);
                lemma_results_keep(b, kind, results, res_src, pushed, head, next);
                depth = depth.push(depth[k] + 1);
                owner = owner.insert(index as int, pushed.len() as int);
                pushed = pushed.push(next);
            }
            visited.set(index, true);
            queue.push_back(next);
            proof {
                assert(queue@ =~= pushed.skip(head));
            }
        }
        else {
            proof {
                lemma_grew_keep(orig, pushed, unmarked0, unmarked(visited@), ms, i as int);
            }
        }
        proof {
            lemma_cover_one(visited@, ms, i as int);
        }
        i += 1;
    }
    proof {
        lemma_close_state(b, kind, is_o, inc, visited@, pushed, k);
        assert(orig[k] == state);
    }
    Ghost((pushed, depth, owner))
}

/// The state of the search between two steps: the states pushed so far
/// (the start first), their depths and slot owners, the marked slots, the
/// results reported and the number of states taken off the queue.
#[verifier::opaque]
spec fn search_inv(
    b: Seq<i8>,
    kind: PieceKind,
    is_o: bool,
    inc: bool,
    st: Move,
    start: SearchState,
    pushed: Seq<SearchState>,
    depth: Seq<nat>,
    owner: Map<int, int>,
    visited: Seq<bool>,
    results: Seq<TerminalState>,
    res_src: Seq<int>,
    head: int,
) -> bool {
    &&& pushed.len() >= 1
    &&& pushed[0] == start
    &&& 0 <= head <= pushed.len()
    &&& visited.len() == 1600
    &&& marks_ok(visited, pushed, owner)
    &&& distinct_spots(pushed)
    &&& records_ok(b, kind, is_o, inc, start, pushed, depth)
    &&& closed_upto(b, kind, is_o, inc, visited, pushed, head)
    &&& results_ok(b, kind, results, res_src, pushed, head)
    &&& trace_ok(b, kind, is_o, inc, st, pushed, results, head, unmarked(visited))
}

/// One step of the search: takes the next state off the queue, reports it
/// when it rests, and queues every move from it to a spot not yet entered.
#[verifier::rlimit(100)]
#[verifier::spinoff_prover]
fn search_step(
    board: &Board,
    inputs: &BfsInputs,
    probe: &Piece,
    include_180: bool,
    visited: &mut Vec<bool>,
    queue: &mut VecDeque<SearchState>,
    results: &mut Vec<TerminalState>,
    Ghost(start): Ghost<SearchState>,
    Ghost(st): Ghost<Move>,
    Ghost(pushed): Ghost<Seq<SearchState>>,
    Ghost(depth): Ghost<Seq<nat>>,
    Ghost(owner): Ghost<Map<int, int>>,
    Ghost(res_src): Ghost<Seq<int>>,
    Ghost(head): Ghost<int>,
) -> (log: Ghost<(Seq<SearchState>, Seq<nat>, Map<int, int>, Seq<int>)>)
    requires
        probe.kind == inputs.kind,
        old(queue)@.len() > 0,
        old(queue)@ == pushed.skip(head),
        search_inv(board@, inputs.kind, inputs.piece_is_o, include_180, st, start, pushed, depth, owner, old(visited)@, old(results)@, res_src, head),
    ensures
        final(queue)@ == log@.0.skip(head + 1),
        search_inv(board@, inputs.kind, inputs.piece_is_o, include_180, st, start, log@.0, log@.1, log@.2, final(visited)@, final(results)@, log@.3, head + 1),
        unmarked(final(visited)@) + final(queue)@.len() < unmarked(old(visited)@) + old(queue)@.len(),
{
    let ghost b = board@;
    let ghost kind = inputs.kind;
    let ghost is_o = inputs.piece_is_o;
    let ghost inc = include_180;
    proof {
        reveal(search_inv);
    }
    let ghost mut res_src = res_src;
    let ghost budget0 = unmarked(visited@) + queue@.len();
    let state = queue.pop_front().unwrap();
    let ghost k = head;
    proof {
        assert(state == pushed[k]);
        assert(queue@ =~= pushed.skip(k + 1));
        lemma_record_of(b, kind, is_o, inc, start, pushed, depth, k);
        lemma_small_offsets_representable(kind, state.x as int, state.y as int + 1, state.rotation as int);
    }
    let terminal = TerminalState {
        x: state.x,
        y: state.y,
        rotation: state.rotation,
        last_was_rot: state.last_was_rot,
        last_rot_dir: state.last_rot_dir,
        last_kick_idx: state.last_kick_idx,
    };
    let ghost res_old = results@;
    let ghost u_old = unmarked(visited@);
    proof {
        lemma_results_step(b, kind, results@, res_src, pushed, k, terminal);
    }
    if !is_position_valid(board, probe, Some((state.x, state.y + 1)), Some(state.rotation)) {
        results.push(terminal);
        proof {
            res_src = res_src.push(k);
        }
    }
    let log = expand_state(board, inputs, probe, state, include_180, visited, queue,
        Ghost(start), Ghost(pushed), Ghost(depth), Ghost(owner), Ghost(k), Ghost(results@), Ghost(res_src));
    proof {
        lemma_trace_step(b, kind, is_o, inc, st, pushed, log@.0, res_old, results@, k, terminal, u_old, unmarked(visited@));
    }
    Ghost((log@.0, log@.1, log@.2, res_src))
}

/// Breadth-first search over the moves of a piece (left, right, down and the
/// rotations with their kicks) from its starting point; every spot is entered
/// once, and each spot from which the piece cannot fall is reported, in the
/// order the search takes spots off its queue, with the move that first
/// reached it.
pub fn python_semantics_bfs(engine: &TetrisEngine, inputs: &BfsInputs, start_last_was_rot: bool, include_180: bool) -> (r: Vec<TerminalState>)
    requires
        start_in_table(*inputs),
    ensures
        forall|i: int|
            0 <= i < r@.len() ==> found_by_search(
                engine.board@,
                inputs.kind,
                inputs.piece_is_o,
                include_180,
                start_move(*inputs, start_last_was_rot),
                terminal_move(#[trigger] r@[i]),
            ),
        forall|i: int, j: int|
            0 <= i < j < r@.len() ==> terminal_move(#[trigger] r@[i]).0 != terminal_move(#[trigger] r@[j]).0,
        fits(engine.board@, inputs.kind, (inputs.start_x as int, inputs.start_y as int), (inputs.start_rot % 4) as int) ==> forall|q: Spot|
            reachable(engine.board@, inputs.kind, inputs.piece_is_o, include_180, start_move(*inputs, start_last_was_rot).0, q)
                && grounded(engine.board@, inputs.kind, q) ==> exists|i: int| 0 <= i < r@.len() && (#[trigger] r@[i]).x == q.0
                && r@[i].y == q.1 && r@[i].rotation == q.2,
        terminal_moves(r@) == bfs_results(engine.board@, inputs.kind, inputs.piece_is_o, include_180, start_move(*inputs, start_last_was_rot)),
{
    let ghost b = engine.board@;
    let ghost kind = inputs.kind;
    let ghost is_o = inputs.piece_is_o;
    let ghost inc = include_180;
    let board = &engine.board;
    let mut results: Vec<TerminalState> = Vec::new();
    let start = SearchState {
        x: inputs.start_x,
        y: inputs.start_y,
        rotation: inputs.start_rot % 4,
        last_was_rot: start_last_was_rot,
        last_rot_dir: inputs.last_rot_dir,
        last_kick_idx: inputs.last_kick_idx,
    };
    let mut queue: VecDeque<SearchState> = VecDeque::new();
    queue.push_back(start);
    let mut visited: Vec<bool> = vec![false; 1600];
    let start_index = visited_index(inputs.start_x, inputs.start_y, inputs.start_rot % 4);
    let ghost mut pushed: Seq<SearchState> = seq![];
    let ghost mut owner: Map<int, int> = Map::empty();
    let ghost st = start_move(*inputs, start_last_was_rot);
    proof {
        lemma_unmarked_all(visited@);
        reveal(marks_ok);
        reveal(distinct_spots);
        lemma_mark_and_push(visited@, pushed, owner, start, start_index as int);
        lemma_unmarked_mark(visited@, start_index as int);
        owner = owner.insert(start_index as int, 0int);
        pushed = pushed.push(start);
        assert(pushed == seq![start]);
        lemma_records_start(b, kind, is_o, inc, start);
        assert(move_of(start) == st);
        lemma_trace_start(b, kind, is_o, inc, st, start);
        reveal(closed_upto);
        reveal(results_ok);
    }
    visited.set(start_index, true);
    let probe_piece = Piece::new(inputs.kind, inputs.start_rot, (inputs.start_x, inputs.start_y));

    let ghost mut depth: Seq<nat> = seq![0nat];
    let ghost mut head: int = 0;
    let ghost mut res_src: Seq<int> = seq![];
    assert(queue@ =~= pushed.skip(0));

    proof {
        reveal(search_inv);
    }
    while queue.len() > 0
        invariant
            b == engine.board@,
            board == &engine.board,
            kind == inputs.kind,
            is_o == inputs.piece_is_o,
            inc == include_180,
            probe_piece.kind == kind,
            st == start_move(*inputs, start_last_was_rot),
            start == (SearchState {
                x: inputs.start_x,
                y: inputs.start_y,
                rotation: inputs.start_rot % 4,
                last_was_rot: start_last_was_rot,
                last_rot_dir: inputs.last_rot_dir,
                last_kick_idx: inputs.last_kick_idx,
            }),
            queue@ == pushed.skip(head),
            search_inv(b, kind, is_o, inc, st, start, pushed, depth, owner, visited@, results@, res_src, head),
        decreases unmarked(visited@) + queue@.len(),
    {
        let log = search_step(board, inputs, &probe_piece, include_180, &mut visited, &mut queue, &mut results,
            Ghost(start), Ghost(st), Ghost(pushed), Ghost(depth), Ghost(owner), Ghost(res_src), Ghost(head));
        proof {
            pushed = log@.0;
            depth = log@.1;
            owner = log@.2;
            res_src = log@.3;
            head = head + 1;
        }
    }

    proof {
        reveal(search_inv);
        assert(head == pushed.len());
        assert(outcome_setting(b, kind, is_o, inc, *inputs, start_last_was_rot, start, results@, res_src, pushed, depth, owner, visited@));
        lemma_search_sound(b, kind, is_o, inc, *inputs, start_last_was_rot, start, results@, res_src, pushed, depth, owner, visited@);
        lemma_search_distinct(b, kind, results@, res_src, pushed);
        lemma_trace_done(b, kind, is_o, inc, st, pushed, results@, head, unmarked(visited@));
        if fits(b, kind, (inputs.start_x as int, inputs.start_y as int), (inputs.start_rot % 4) as int) {
            lemma_search_complete(b, kind, is_o, inc, *inputs, start_last_was_rot, start, results@, res_src, pushed, depth, owner, visited@);
        }
    }
    results
}

impl TetrisEngine {
    /// The search inputs for `piece`: its kind, origin, rotation state and
    /// the direction and kick of its last rotation.
    pub fn bfs_inputs_for_piece(&self, piece: &Piece) -> (r: BfsInputs)
        ensures
            r == (BfsInputs {
                kind: piece.kind,
                start_x: piece.position.0,
                start_y: piece.position.1,
                start_rot: piece.rotation % 4,
                piece_is_o: piece.kind == PieceKind::O,
                last_rot_dir: piece.last_rotation_dir,
                last_kick_idx: piece.last_kick_index,
            }),
    {
        BfsInputs {
            kind: piece.kind,
            start_x: piece.position.0,
            start_y: piece.position.1,
            start_rot: piece.rotation % 4,
            piece_is_o: match piece.kind {
                PieceKind::O => true,
                _ => false,
            },
            last_rot_dir: piece.last_rotation_dir,
            last_kick_idx: piece.last_kick_index,
        }
    }

    /// The results of a search that places nothing: the option of skipping
    /// the piece, with the board unchanged and no score, if it is asked for.
    pub fn empty_bfs_results(&self, include_no_place: bool) -> (r: Vec<BfsResult>)
        ensures
            !include_no_place ==> r@.len() == 0,
            include_no_place ==> r@.len() == 1 && r@[0].board == Some(self.board) && r@[0].stats is None
                && r@[0].placement == PlacementRecord::Skip && r@[0].placements@.len() == 0,
    {
        if !include_no_place {
            return Vec::new();
        }
        let mut out: Vec<BfsResult> = Vec::new();
        out.push(BfsResult {
            board: Some(self.board),
            stats: None,
            placement: PlacementRecord::Skip,
            placements: Vec::new(),
        });
        out
    }
}

proof fn lemma_results_keep(
    board: Seq<i8>,
    kind: PieceKind,
    results: Seq<TerminalState>,
    res_src: Seq<int>,
    pushed: Seq<SearchState>,
    head: int,
    next: SearchState,
)
    requires
        results_ok(board, kind, results, res_src, pushed, head),
        head <= pushed.len(),
    ensures
        results_ok(board, kind, results, res_src, pushed.push(next), head),
{
    reveal(results_ok);
    let p2 = pushed.push(next);
    assert forall|k: int|
        0 <= k < head && grounded(board, kind, move_of(#[trigger] p2[k]).0) implies exists|i: int|
            0 <= i < res_src.len() && #[trigger] res_src[i] == k by {
        assert(p2[k] == pushed[k]);
    }
    assert forall|i: int|
        0 <= i < res_src.len() implies 0 <= #[trigger] res_src[i] < head && terminal_move(results[i]) == move_of(p2[res_src[i]])
            && grounded(board, kind, move_of(p2[res_src[i]]).0) by {
        assert(p2[res_src[i]] == pushed[res_src[i]]);
    }
}

spec fn outcome_setting(
    b: Seq<i8>,
    kind: PieceKind,
    is_o: bool,
    inc: bool,
    inputs: BfsInputs,
    start_last_was_rot: bool,
    start: SearchState,
    results: Seq<TerminalState>,
    res_src: Seq<int>,
    pushed: Seq<SearchState>,
    depth: Seq<nat>,
    owner: Map<int, int>,
    visited: Seq<bool>,
) -> bool {
    &&& start == (SearchState {
        x: inputs.start_x,
        y: inputs.start_y,
        rotation: inputs.start_rot % 4,
        last_was_rot: start_last_was_rot,
        last_rot_dir: inputs.last_rot_dir,
        last_kick_idx: inputs.last_kick_idx,
    })
    &&& kind == inputs.kind
    &&& pushed.len() >= 1
    &&& pushed[0] == start
    &&& marks_ok(visited, pushed, owner)
    &&& distinct_spots(pushed)
    &&& records_ok(b, kind, is_o, inc, start, pushed, depth)
    &&& closed_upto(b, kind, is_o, inc, visited, pushed, pushed.len() as int)
    &&& results_ok(b, kind, results, res_src, pushed, pushed.len() as int)
}

proof fn lemma_result_sound(
    b: Seq<i8>,
    kind: PieceKind,
    is_o: bool,
    inc: bool,
    start: SearchState,
    pushed: Seq<SearchState>,
    depth: Seq<nat>,
    kk: int,
)
    requires
        records_ok(b, kind, is_o, inc, start, pushed, depth),
        0 <= kk < pushed.len(),
        pushed[0] == start,
        grounded(b, kind, move_of(pushed[kk]).0),
    ensures
        found_by_search(b, kind, is_o, inc, move_of(start), move_of(pushed[kk])),
{
    let sp = move_of(start).0;
    lemma_record_of(b, kind, is_o, inc, start, pushed, depth, kk);
    assert(reachable(b, kind, is_o, inc, sp, move_of(pushed[kk]).0));
    if kk > 0 {
        let (j, ii) = choose|j: int, ii: int|
            0 <= j < kk && 0 <= ii < moves_from(b, kind, is_o, inc, move_of(pushed[j]).0).len()
                && #[trigger] moves_from(b, kind, is_o, inc, move_of(pushed[j]).0)[ii] == move_of(pushed[kk]);
        lemma_record_of(b, kind, is_o, inc, start, pushed, depth, j);
        assert(reachable(b, kind, is_o, inc, sp, move_of(pushed[j]).0));
    }
}

proof fn lemma_search_sound(
    b: Seq<i8>,
    kind: PieceKind,
    is_o: bool,
    inc: bool,
    inputs: BfsInputs,
    start_last_was_rot: bool,
    start: SearchState,
    results: Seq<TerminalState>,
    res_src: Seq<int>,
    pushed: Seq<SearchState>,
    depth: Seq<nat>,
    owner: Map<int, int>,
    visited: Seq<bool>,
)
    requires
        outcome_setting(b, kind, is_o, inc, inputs, start_last_was_rot, start, results, res_src, pushed, depth, owner, visited),
    ensures
        forall|i: int|
            0 <= i < results.len() ==> found_by_search(b, kind, is_o, inc, start_move(inputs, start_last_was_rot), terminal_move(#[trigger] results[i])),
{
    assert(move_of(start) == start_move(inputs, start_last_was_rot));
    reveal(results_ok);
    assert forall|i: int| 0 <= i < results.len() implies found_by_search(
        b, kind, is_o, inc, start_move(inputs, start_last_was_rot), terminal_move(#[trigger] results[i])) by {
        lemma_result_sound(b, kind, is_o, inc, start, pushed, depth, res_src[i]);
    }
}

proof fn lemma_search_distinct(
    b: Seq<i8>,
    kind: PieceKind,
    results: Seq<TerminalState>,
    res_src: Seq<int>,
    pushed: Seq<SearchState>,
)
    requires
        distinct_spots(pushed),
        results_ok(b, kind, results, res_src, pushed, pushed.len() as int),
    ensures
        forall|i: int, j: int| 0 <= i < j < results.len() ==> terminal_move(#[trigger] results[i]).0 != terminal_move(#[trigger] results[j]).0,
{
    reveal(results_ok);
    reveal(distinct_spots);
    assert forall|i: int, j: int| 0 <= i < j < results.len() implies terminal_move(#[trigger] results[i]).0
        != terminal_move(#[trigger] results[j]).0 by {
        assert(res_src[i] < res_src[j]);
    }
}

proof fn lemma_search_complete(
    b: Seq<i8>,
    kind: PieceKind,
    is_o: bool,
    inc: bool,
    inputs: BfsInputs,
    start_last_was_rot: bool,
    start: SearchState,
    results: Seq<TerminalState>,
    res_src: Seq<int>,
    pushed: Seq<SearchState>,
    depth: Seq<nat>,
    owner: Map<int, int>,
    visited: Seq<bool>,
)
    requires
        outcome_setting(b, kind, is_o, inc, inputs, start_last_was_rot, start, results, res_src, pushed, depth, owner, visited),
        fits(b, kind, (inputs.start_x as int, inputs.start_y as int), (inputs.start_rot % 4) as int),
    ensures
        forall|q: Spot|
            reachable(b, kind, is_o, inc, start_move(inputs, start_last_was_rot).0, q) && grounded(b, kind, q) ==> exists|i: int|
                0 <= i < results.len() && (#[trigger] results[i]).x == q.0 && results[i].y == q.1 && results[i].rotation == q.2,
{
    let sp = move_of(start).0;
    assert(move_of(start) == start_move(inputs, start_last_was_rot));
    assert forall|q: Spot| reachable(b, kind, is_o, inc, sp, q) && grounded(b, kind, q) implies exists|i: int|
        0 <= i < results.len() && (#[trigger] results[i]).x == q.0 && results[i].y == q.1 && results[i].rotation == q.2 by {
        let n = choose|n: nat| reachable_in(b, kind, is_o, inc, sp, n, q);
        lemma_closed_search_complete(b, kind, is_o, inc, start, pushed, depth, owner, visited, n, q);
        let kk = choose|kk: int| 0 <= kk < pushed.len() && move_of(pushed[kk]).0 == q;
        reveal(results_ok);
        let i = choose|i: int| 0 <= i < res_src.len() && #[trigger] res_src[i] == kk;
        assert(terminal_move(results[i]) == move_of(pushed[kk]));
    }
}

} // verus!
