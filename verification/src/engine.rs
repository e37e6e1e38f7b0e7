use vstd::prelude::*;

use crate::board::{
    cells_representable, chosen_position, chosen_rotation, fits, is_position_valid,
    lemma_rotation_offsets_small, Board,
};
use crate::constants::{SPAWN_X, SPAWN_Y};
use crate::garbage::GarbageBatch;
use crate::piece::{
    kind_id, kind_of_id, kind_ordinal, piece_id, piece_kind_from_id, valid_piece_id, Piece,
    PieceKind,
};
use crate::rng::{EngineRng, RngDraw};
use crate::scoring::{board_empty, AttackStats, B2BMode, SpinMode};

verus! {

broadcast use vstd::seq_lib::group_to_multiset_ensures, vstd::string::group_string_axioms;

/// The pieces visible ahead of play.
#[derive(Clone, Debug, PartialEq, Eq)]
pub struct QueueSnapshot {
    pub current: Option<PieceKind>,
    pub hold: Option<PieceKind>,
    pub next_ids: Vec<i8>,
    pub next_kinds: Vec<PieceKind>,
    pub piece_ids: Vec<i8>,
}

/// What is left of the bag being dealt: per-kind counts in the order
/// I, O, T, S, Z, J, L, their total, and how far into the bag play is.
#[derive(Clone, Debug, PartialEq, Eq)]
pub struct BagRemainderCounts {
    pub counts: [u8; 7],
    pub remaining: usize,
    pub bag_position: usize,
}

/// The outcome of the phase that follows a lock.
#[derive(Clone, Debug, PartialEq, Eq)]
pub struct EndPhaseResult {
    pub lines_cleared: i32,
    pub spawned: bool,
    pub clutch_clear: bool,
    pub game_over: bool,
    pub reason: Option<String>,
}

/// The game state of one player.
#[derive(Clone)]
pub struct TetrisEngine {
    pub board: Board,
    pub current_piece: Option<Piece>,
    pub bag: Vec<i8>,
    pub hold: Option<i8>,
    pub hold_locked: bool,
    pub bag_size: usize,
    pub game_over: bool,
    pub game_over_reason: Option<String>,
    pub last_spawn_was_clutch: bool,
    pub rng: EngineRng,
    pub spin_mode: SpinMode,
    pub b2b_mode: B2BMode,
    pub b2b_chain: i32,
    pub surge_charge: i32,
    pub combo: i32,
    pub combo_active: bool,
    pub pieces_placed: i32,
    pub total_lines_cleared: i32,
    pub total_attack_sent: i32,
    pub total_attack_canceled: i32,
    pub incoming_garbage: Vec<GarbageBatch>,
    pub garbage_col: Option<u8>,
    pub last_clear_stats: Option<AttackStats>,
    pub last_end_phase: Option<EndPhaseResult>,
}

/// The ids of one bag in dealing order before shuffling.
pub open spec fn standard_bag() -> Seq<i8> {
    seq![1i8, 2i8, 3i8, 4i8, 5i8, 6i8, 7i8]
}

/// Whether `s` is one bag: the seven ids in some order.
pub open spec fn is_full_bag(s: Seq<i8>) -> bool {
    s.len() == 7 && s.to_multiset() == standard_bag().to_multiset()
}

/// Whether `s` is a run of whole bags.
pub open spec fn whole_bags(s: Seq<i8>) -> bool
    decreases s.len(),
{
    if s.len() == 0 {
        true
    } else {
        s.len() >= 7 && is_full_bag(s.take(7)) && whole_bags(s.skip(7))
    }
}

/// How many bags a queue of `len` ids receives before it holds more than 14.
pub open spec fn refill_count(len: int) -> nat
    decreases (if len > 14 { 0 } else { 15 - len }),
{
    if len > 14 {
        0
    } else {
        1 + refill_count(len + 7)
    }
}

/// Whether `after` is `before` topped up with whole bags until it holds more
/// than 14 ids.
pub open spec fn refilled(before: Seq<i8>, after: Seq<i8>) -> bool {
    &&& after.len() == before.len() + 7 * refill_count(before.len() as int)
    &&& after.take(before.len() as int) == before
    &&& whole_bags(after.skip(before.len() as int))
}

/// Whether every call of `d` is a shuffle of one fresh bag, the ids 1..=7 in
/// order.
pub open spec fn bag_shuffles(d: Seq<RngDraw>) -> bool {
    forall|i: int| 0 <= i < d.len() ==> is_bag_shuffle(#[trigger] d[i])
}

/// Whether a call is a shuffle of one fresh bag, the ids 1..=7 in order.
pub open spec fn is_bag_shuffle(x: RngDraw) -> bool {
    match x {
        RngDraw::Shuffle(input, _) => input@ == standard_bag(),
        RngDraw::Index(_, _) => false,
    }
}

/// The ids that the shuffles of `d` put out, in order.
pub open spec fn shuffled_ids(d: Seq<RngDraw>) -> Seq<i8>
    decreases d.len(),
{
    if d.len() == 0 {
        seq![]
    } else {
        shuffled_ids(d.drop_last()) + match d.last() {
            RngDraw::Shuffle(_, out) => out@,
            RngDraw::Index(_, _) => seq![],
        }
    }
}

/// Whether the generator's record went from `d0` to `d1` by bag shuffles
/// alone.
pub open spec fn drew_bags(d0: Seq<RngDraw>, d1: Seq<RngDraw>) -> bool {
    &&& d0.len() <= d1.len()
    &&& d1.take(d0.len() as int) == d0
    &&& bag_shuffles(d1.skip(d0.len() as int))
}

/// The ids the shuffles made between `d0` and `d1` put out, in order.
pub open spec fn new_ids(d0: Seq<RngDraw>, d1: Seq<RngDraw>) -> Seq<i8> {
    shuffled_ids(d1.skip(d0.len() as int))
}

proof fn lemma_shuffled_concat(a: Seq<RngDraw>, b: Seq<RngDraw>)
    ensures
        shuffled_ids(a + b) == shuffled_ids(a) + shuffled_ids(b),
    decreases b.len(),
{
    if b.len() == 0 {
        assert(a + b =~= a);
        assert(shuffled_ids(a) + seq![] =~= shuffled_ids(a));
    } else {
        lemma_shuffled_concat(a, b.drop_last());
        assert((a + b).drop_last() =~= a + b.drop_last());
        assert((a + b).last() == b.last());
        let tail = match b.last() {
            RngDraw::Shuffle(_, out) => out@,
            RngDraw::Index(_, _) => seq![],
        };
        assert(shuffled_ids(a) + shuffled_ids(b.drop_last()) + tail =~= shuffled_ids(a) + (shuffled_ids(b.drop_last()) + tail));
    }
}

/// No call recorded, no id drawn.
pub proof fn lemma_drew_nothing(d: Seq<RngDraw>)
    ensures
        drew_bags(d, d),
        new_ids(d, d) == Seq::<i8>::empty(),
{
    assert(d.take(d.len() as int) =~= d);
    assert(d.skip(d.len() as int) =~= Seq::<RngDraw>::empty());
}

/// One more bag shuffle adds its output to the ids drawn.
pub proof fn lemma_drew_one_more(d0: Seq<RngDraw>, d1: Seq<RngDraw>, input: [i8; 7], out: [i8; 7])
    requires
        drew_bags(d0, d1),
        input@ == standard_bag(),
    ensures
        drew_bags(d0, d1.push(RngDraw::Shuffle(input, out))),
        new_ids(d0, d1.push(RngDraw::Shuffle(input, out))) == new_ids(d0, d1) + out@,
{
    let x = RngDraw::Shuffle(input, out);
    let d2 = d1.push(x);
    assert(d2.take(d0.len() as int) =~= d1.take(d0.len() as int));
    assert(d2.skip(d0.len() as int) =~= d1.skip(d0.len() as int).push(x));
    assert(d2.skip(d0.len() as int).drop_last() =~= d1.skip(d0.len() as int));
    let t = d2.skip(d0.len() as int);
    assert forall|i: int| 0 <= i < t.len() implies is_bag_shuffle(#[trigger] t[i]) by {
        if i < t.len() - 1 {
            assert(t[i] == d1.skip(d0.len() as int)[i]);
        }
    }
}

/// Shuffling from `d0` to `d1` and on to `d2` is shuffling from `d0` to
/// `d2`, the ids drawn following one another.
pub proof fn lemma_drew_chain(d0: Seq<RngDraw>, d1: Seq<RngDraw>, d2: Seq<RngDraw>)
    requires
        drew_bags(d0, d1),
        drew_bags(d1, d2),
    ensures
        drew_bags(d0, d2),
        new_ids(d0, d2) == new_ids(d0, d1) + new_ids(d1, d2),
{
    let a = d1.skip(d0.len() as int);
    let b = d2.skip(d1.len() as int);
    assert(d2.take(d0.len() as int) =~= d1.take(d1.len() as int).take(d0.len() as int)) by {
        assert forall|i: int| 0 <= i < d0.len() implies d2.take(d0.len() as int)[i] == d1.take(d1.len() as int).take(d0.len() as int)[i] by {
            assert(d2[i] == d2.take(d1.len() as int)[i]);
        }
    }
    assert(d1.take(d1.len() as int) =~= d1);
    assert(d2.skip(d0.len() as int) =~= a + b) by {
        assert forall|i: int| 0 <= i < d2.len() - d0.len() implies d2.skip(d0.len() as int)[i] == (a + b)[i] by {
            if i < a.len() {
                assert(d2[d0.len() + i] == d2.take(d1.len() as int)[d0.len() + i]);
            }
        }
    }
    lemma_shuffled_concat(a, b);
    let t = d2.skip(d0.len() as int);
    assert forall|i: int| 0 <= i < t.len() implies is_bag_shuffle(#[trigger] t[i]) by {
        if i < a.len() {
            assert(t[i] == a[i]);
        } else {
            assert(t[i] == b[i - a.len()]);
        }
    }
}

/// Whether every id of `s` names a kind.
pub open spec fn ids_valid(s: Seq<i8>) -> bool {
    forall|i: int| 0 <= i < s.len() ==> valid_piece_id(#[trigger] s[i] as int)
}

/// The state of a freshly built engine, up to the bag, whose order is random: no piece, no hold, an empty board, no garbage, no streaks, and a
/// queue of whole bags holding more than 14 ids.
pub open spec fn fresh_state(e: TetrisEngine) -> bool {
    &&& board_empty(e.board@)
    &&& e.current_piece is None
    &&& e.hold is None
    &&& !e.hold_locked
    &&& !e.game_over
    &&& e.game_over_reason is None
    &&& !e.last_spawn_was_clutch
    &&& e.b2b_chain == 0
    &&& e.surge_charge == 0
    &&& e.combo == 0
    &&& !e.combo_active
    &&& e.pieces_placed == 0
    &&& e.total_lines_cleared == 0
    &&& e.total_attack_sent == 0
    &&& e.total_attack_canceled == 0
    &&& e.incoming_garbage@.len() == 0
    &&& e.garbage_col is None
    &&& e.last_clear_stats is None
    &&& e.last_end_phase is None
    &&& e.bag@.len() == 21
    &&& whole_bags(e.bag@)
    &&& e.bag_size == e.bag@.len()
}

/// Whether `post` is `pre` reset: an empty board, no piece, no hold, no game
/// over, no queued garbage, no hole column and no canceled attack, with a
/// queue of newly drawn whole bags; streaks, totals, the last records, the
/// modes and the generator's seed carry on.
pub open spec fn reset_of(pre: TetrisEngine, post: TetrisEngine) -> bool {
    &&& board_empty(post.board@)
    &&& post.current_piece is None
    &&& post.hold is None
    &&& !post.hold_locked
    &&& !post.game_over
    &&& post.game_over_reason is None
    &&& !post.last_spawn_was_clutch
    &&& post.incoming_garbage@.len() == 0
    &&& post.garbage_col is None
    &&& post.total_attack_canceled == 0
    &&& post.bag@.len() == 21
    &&& whole_bags(post.bag@)
    &&& post.bag_size == post.bag@.len()
    &&& post.spin_mode == pre.spin_mode
    &&& post.b2b_mode == pre.b2b_mode
    &&& post.b2b_chain == pre.b2b_chain
    &&& post.surge_charge == pre.surge_charge
    &&& post.combo == pre.combo
    &&& post.combo_active == pre.combo_active
    &&& post.pieces_placed == pre.pieces_placed
    &&& post.total_lines_cleared == pre.total_lines_cleared
    &&& post.total_attack_sent == pre.total_attack_sent
    &&& post.last_clear_stats == pre.last_clear_stats
    &&& post.last_end_phase == pre.last_end_phase
    &&& post.rng.seed() == pre.rng.seed()
    &&& drew_bags(pre.rng.draws(), post.rng.draws())
    &&& post.bag@ == new_ids(pre.rng.draws(), post.rng.draws())
}

/// Whether `b` is `a` with at most the queue, its recorded size and the
/// generator changed.
pub open spec fn same_but_queue(a: TetrisEngine, b: TetrisEngine) -> bool {
    b == (TetrisEngine { bag: b.bag, bag_size: b.bag_size, rng: b.rng, ..a })
}

/// A piece of `kind` in its spawn state at `pos`, with no movement history.
pub open spec fn fresh_piece(kind: PieceKind, pos: (i16, i16)) -> Piece {
    Piece {
        kind,
        rotation: 0,
        position: pos,
        last_action_was_rotation: false,
        last_rotation_dir: None,
        last_kick_index: None,
    }
}

/// The highest row above `y` (exclusive) at which `kind` fits in column `x`.
pub open spec fn clutch_row(board: Seq<i8>, kind: PieceKind, rot: int, x: int, y: int) -> Option<int>
    decreases y,
{
    if y <= 0 {
        None
    } else if fits(board, kind, (x, y - 1), rot) {
        Some(y - 1)
    } else {
        clutch_row(board, kind, rot, x, y - 1)
    }
}

/// Where a piece with id `id` spawns and whether it took the clutch path:
/// the spawn point if it fits there, else with clutch allowed the highest
/// fitting row above it, else nowhere.
pub open spec fn spawn_spot(board: Seq<i8>, id: int, allow_clutch: bool) -> Option<((i16, i16), bool)> {
    let kind = kind_of_id(id).unwrap();
    if fits(board, kind, (SPAWN_X as int, SPAWN_Y as int), 0) {
        Some(((SPAWN_X, SPAWN_Y), false))
    } else if allow_clutch && clutch_row(board, kind, 0, SPAWN_X as int, SPAWN_Y as int) is Some {
        Some(((SPAWN_X, clutch_row(board, kind, 0, SPAWN_X as int, SPAWN_Y as int).unwrap() as i16), true))
    } else {
        None
    }
}

/// The effect of spawning id `id` on `pre`, giving `post` and the answer `r`:
/// a piece at its spot with the hold unlocked, or, with no spot, a block-out.
pub open spec fn spawned(pre: TetrisEngine, id: int, allow_clutch: bool, post: TetrisEngine, r: bool) -> bool {
    match spawn_spot(pre.board@, id, allow_clutch) {
        Some((pos, clutch)) => {
            &&& r
            &&& post == (TetrisEngine {
                current_piece: Some(fresh_piece(kind_of_id(id).unwrap(), pos)),
                hold_locked: false,
                last_spawn_was_clutch: clutch,
                ..pre
            })
        },
        None => {
            &&& !r
            &&& post == (TetrisEngine {
                current_piece: None,
                game_over: true,
                game_over_reason: post.game_over_reason,
                last_spawn_was_clutch: false,
                ..pre
            })
            &&& post.game_over_reason matches Some(reason) && reason@ == "block_out"@
        },
    }
}

/// Whether holding is refused in `e`: the game is over, the hold is locked,
/// or there is no current piece.
pub open spec fn hold_refused(e: TetrisEngine) -> bool {
    e.game_over || e.hold_locked || e.current_piece is None
}

/// The effect of a hold on `pre`, giving `post` and the answer `r`: refused,
/// nothing changes; otherwise the current piece's id goes to the hold and
/// the held piece, or the next dealt one, spawns at the spawn point, the hold
/// locking when it does.
pub open spec fn held(pre: TetrisEngine, post: TetrisEngine, r: bool) -> bool {
    if hold_refused(pre) {
        !r && post == pre
    } else {
        let mid = TetrisEngine {
            hold: Some(kind_id(pre.current_piece.unwrap().kind) as i8),
            current_piece: None,
            ..pre
        };
        &&& post.hold_locked == r
        &&& match pre.hold {
            Some(h) => spawned(mid, h as int, false, TetrisEngine { hold_locked: false, ..post }, r),
            None => {
                &&& drew_bags(pre.rng.draws(), post.rng.draws())
                &&& exists|q: Seq<i8>|
                    refilled(pre.bag@, q) && refilled(q.drop_first(), post.bag@)
                        && spawned(with_queue_of(mid, post), q[0] as int, false, TetrisEngine { hold_locked: false, ..post }, r)
                        && pre.bag@ + new_ids(pre.rng.draws(), post.rng.draws()) == seq![q[0]] + post.bag@
            },
        }
    }
}

/// The hold works once per turn: after a hold that went through, a second
/// hold before the next spawn is refused and changes nothing.
pub proof fn lemma_hold_once_per_turn(a: TetrisEngine, b: TetrisEngine, c: TetrisEngine, r2: bool)
    requires
        held(a, b, true),
        held(b, c, r2),
    ensures
        !r2,
        c == b,
{
    assert(!hold_refused(a));
    assert(b.hold_locked);
}

/// `b` with the queue, its size and the generator of `a`.
pub open spec fn with_queue_of(b: TetrisEngine, a: TetrisEngine) -> TetrisEngine {
    TetrisEngine { bag: a.bag, bag_size: a.bag_size, rng: a.rng, ..b }
}

/// Placements whose origin is within a few thousand cells of the board have
/// representable cells.
pub proof fn lemma_small_offsets_representable(kind: PieceKind, x: int, y: int, rot: int)
    requires
        -32000 <= x <= 32000,
        -32000 <= y <= 32000,
        0 <= rot < 4,
    ensures
        cells_representable(kind, (x, y), rot),
{
    lemma_rotation_offsets_small(kind, (rot % 4) as nat);
}

/// Every placement at the spawn point or above it, down to the top row, has
/// representable cells.
pub proof fn lemma_small_placements_representable(kind: PieceKind)
    ensures
        forall|x: int, y: int, rot: int|
            -32000 <= x <= 32000 && -32000 <= y <= 32000 && 0 <= rot < 4 ==> #[trigger] cells_representable(kind, (x, y), rot),
{
    assert forall|x: int, y: int, rot: int|
        -32000 <= x <= 32000 && -32000 <= y <= 32000 && 0 <= rot < 4 implies #[trigger] cells_representable(kind, (x, y), rot) by {
        lemma_small_offsets_representable(kind, x, y, rot);
    }
}

/// Whether the id at the front of `s`, if any, names a kind.
pub open spec fn front_id_valid(s: Seq<i8>) -> bool {
    s.len() > 0 ==> valid_piece_id(s[0] as int)
}

/// Topping up a queue whose front id is valid gives a queue whose front id
/// is valid: the old front, or the first id of a whole bag.
pub proof fn lemma_refilled_front_valid(before: Seq<i8>, after: Seq<i8>)
    requires
        front_id_valid(before),
        refilled(before, after),
    ensures
        after.len() > 14,
        valid_piece_id(after[0] as int),
{
    lemma_refill_reaches(before.len() as int);
    if before.len() > 0 {
        assert(after[0] == after.take(before.len() as int)[0]);
    } else {
        assert(after.skip(0) =~= after);
        lemma_whole_bags_ids_valid(after);
    }
}

/// Topping up keeps a queue of valid ids valid, so dealing from a queue that
/// only ever receives whole bags never meets an id that names no kind.
pub proof fn lemma_refilled_ids_valid(before: Seq<i8>, after: Seq<i8>)
    requires
        ids_valid(before),
        refilled(before, after),
    ensures
        ids_valid(after),
        ids_valid(after.drop_first()),
{
    lemma_whole_bags_ids_valid(after.skip(before.len() as int));
    lemma_refill_reaches(before.len() as int);
    assert forall|i: int| 0 <= i < after.len() implies valid_piece_id(#[trigger] after[i] as int) by {
        if i < before.len() {
            assert(after[i] == after.take(before.len() as int)[i]);
        } else {
            assert(after[i] == after.skip(before.len() as int)[i - before.len()]);
        }
    }
    assert forall|i: int| 0 <= i < after.drop_first().len() implies valid_piece_id(#[trigger] after.drop_first()[i] as int) by {
        assert(after.drop_first()[i] == after[i + 1]);
    }
}

/// Topping up always ends with more than 14 ids.
pub proof fn lemma_refill_reaches(len: int)
    requires
        len >= 0,
    ensures
        len + 7 * refill_count(len) > 14,
    decreases (if len > 14 { 0 } else { 15 - len }),
{
    if len <= 14 {
        lemma_refill_reaches(len + 7);
    }
}

/// The smaller of two lengths.
pub open spec fn min_len(a: int, b: int) -> int {
    if a < b { a } else { b }
}

/// How many ids `s` holds equal to `id`.
pub open spec fn id_count(s: Seq<i8>, id: int) -> nat
    decreases s.len(),
{
    if s.len() == 0 {
        0
    } else {
        id_count(s.drop_last(), id) + if s.last() == id { 1nat } else { 0nat }
    }
}

/// The number of ids left in the bag being dealt, for a queue of `len` ids.
pub open spec fn bag_remainder(len: int, piece_in_play: bool) -> int {
    let rem = if len == 0 { 0 } else { len % 7 };
    if !piece_in_play && rem == 0 {
        min_len(7, len)
    } else {
        rem
    }
}

/// Counting after appending one id.
pub proof fn lemma_id_count_push(s: Seq<i8>, v: i8)
    ensures
        forall|id: int| #[trigger] id_count(s.push(v), id) == id_count(s, id) + if v == id { 1nat } else { 0nat },
{
    assert forall|id: int| #[trigger] id_count(s.push(v), id) == id_count(s, id) + if v == id { 1nat } else { 0nat } by {
        assert(s.push(v).drop_last() =~= s);
    }
}

/// Every id of a full bag names a kind.
pub proof fn lemma_full_bag_ids_valid(s: Seq<i8>)
    requires
        is_full_bag(s),
    ensures
        ids_valid(s),
{
    assert forall|i: int| 0 <= i < s.len() implies valid_piece_id(#[trigger] s[i] as int) by {
        assert(s.contains(s[i]));
        assert(s.to_multiset().count(s[i]) > 0);
        assert(standard_bag().to_multiset().count(s[i]) > 0);
        assert(standard_bag().contains(s[i]));
        let k = choose|k: int| 0 <= k < 7 && standard_bag()[k] == s[i];
        assert(standard_bag()[k] == s[i]);
    }
}

/// Every id of a run of whole bags names a kind.
pub proof fn lemma_whole_bags_ids_valid(s: Seq<i8>)
    requires
        whole_bags(s),
    ensures
        ids_valid(s),
        s.len() % 7 == 0,
    decreases s.len(),
{
    if s.len() > 0 {
        lemma_full_bag_ids_valid(s.take(7));
        lemma_whole_bags_ids_valid(s.skip(7));
        assert forall|i: int| 0 <= i < s.len() implies valid_piece_id(#[trigger] s[i] as int) by {
            if i < 7 {
                assert(s[i] == s.take(7)[i]);
            } else {
                assert(s[i] == s.skip(7)[i - 7]);
            }
        }
    }
}

/// Appending a bag to a run of whole bags gives a run of whole bags.
pub proof fn lemma_whole_bags_push(s: Seq<i8>, b: Seq<i8>)
    requires
        whole_bags(s),
        is_full_bag(b),
    ensures
        whole_bags(s + b),
    decreases s.len(),
{
    if s.len() == 0 {
        assert(s + b =~= b);
        assert(b.take(7) =~= b);
        assert(b.skip(7) =~= Seq::<i8>::empty());
        assert(whole_bags(b.skip(7)));
        assert(whole_bags(b));
    } else {
        lemma_whole_bags_push(s.skip(7), b);
        assert((s + b).take(7) =~= s.take(7));
        assert((s + b).skip(7) =~= s.skip(7) + b);
        assert(whole_bags(s + b));
    }
}

/// The id standing for a kind, index of the count table.
pub fn kind_index(kind: PieceKind) -> (r: usize)
    ensures
        r == kind_ordinal(kind),
{
    match kind {
        PieceKind::I => 0,
        PieceKind::O => 1,
        PieceKind::T => 2,
        PieceKind::S => 3,
        PieceKind::Z => 4,
        PieceKind::J => 5,
        PieceKind::L => 6,
    }
}

impl TetrisEngine {
    /// A fresh engine in the default modes drawing from `rng`, its queue filled
    /// with three bags.
    pub fn new(rng: EngineRng) -> (r: Self)
        ensures
            fresh_state(r),
            r.rng.seed() == rng.seed(),
            drew_bags(rng.draws(), r.rng.draws()),
            r.bag@ == new_ids(rng.draws(), r.rng.draws()),
            r.spin_mode == SpinMode::AllSpin,
            r.b2b_mode == B2BMode::Surge,
    {
        let mut engine = TetrisEngine {
            board: [0i8; 400],
            current_piece: None,
            bag: Vec::new(),
            hold: None,
            hold_locked: false,
            bag_size: 0,
            game_over: false,
            game_over_reason: None,
            last_spawn_was_clutch: false,
            rng,
            spin_mode: SpinMode::AllSpin,
            b2b_mode: B2BMode::Surge,
            b2b_chain: 0,
            surge_charge: 0,
            combo: 0,
            combo_active: false,
            pieces_placed: 0,
            total_lines_cleared: 0,
            total_attack_sent: 0,
            total_attack_canceled: 0,
            incoming_garbage: Vec::new(),
            garbage_col: None,
            last_clear_stats: None,
            last_end_phase: None,
        };
        assert(board_empty(engine.board@));
        engine.generate_bag();
        proof {
            reveal_with_fuel(refill_count, 4);
            assert(engine.bag@.skip(0) =~= engine.bag@);
            assert(Seq::<i8>::empty() + new_ids(rng.draws(), engine.rng.draws()) =~= new_ids(rng.draws(), engine.rng.draws()));
        }
        engine
    }

    /// A fresh engine whose generator is seeded from `seed`.
    pub fn with_seed(seed: u64) -> (r: Self)
        ensures
            fresh_state(r),
            r.rng.seed() == seed,
            drew_bags(Seq::<RngDraw>::empty(), r.rng.draws()),
            r.bag@ == new_ids(Seq::<RngDraw>::empty(), r.rng.draws()),
            r.spin_mode == SpinMode::AllSpin,
            r.b2b_mode == B2BMode::Surge,
    {
        Self::new(EngineRng::seeded(seed))
    }

    /// A fresh engine seeded from `seed` that scores in the given modes.
    pub fn with_seed_and_modes(seed: u64, spin_mode: SpinMode, b2b_mode: B2BMode) -> (r: Self)
        ensures
            fresh_state(r),
            r.rng.seed() == seed,
            drew_bags(Seq::<RngDraw>::empty(), r.rng.draws()),
            r.bag@ == new_ids(Seq::<RngDraw>::empty(), r.rng.draws()),
            r.spin_mode == spin_mode,
            r.b2b_mode == b2b_mode,
    {
        let mut engine = Self::with_seed(seed);
        engine.spin_mode = spin_mode;
        engine.b2b_mode = b2b_mode;
        engine
    }

    /// Clears the game back to an empty board with no piece, no hold, no
    /// queued garbage and a newly drawn queue; streaks, totals, the last
    /// records, the modes and the generator carry on.
    pub fn reset(&mut self)
        ensures
            reset_of(*old(self), *final(self)),
    {
        self.board = [0i8; 400];
        self.current_piece = None;
        self.bag.clear();
        self.hold = None;
        self.hold_locked = false;
        self.bag_size = 0;
        self.game_over = false;
        self.game_over_reason = None;
        self.last_spawn_was_clutch = false;
        self.total_attack_canceled = 0;
        self.incoming_garbage.clear();
        self.garbage_col = None;
        assert(board_empty(self.board@));
        self.generate_bag();
        proof {
            reveal_with_fuel(refill_count, 4);
            assert(self.bag@.skip(0) =~= self.bag@);
            assert(Seq::<i8>::empty() + new_ids(old(self).rng.draws(), self.rng.draws()) =~= new_ids(old(self).rng.draws(), self.rng.draws()));
        }
    }

    /// Where a new piece appears, whatever its kind.
    pub fn spawn_position_for(&self, _kind: Option<PieceKind>) -> (r: (i16, i16))
        ensures
            r == (SPAWN_X, SPAWN_Y),
    {
        (SPAWN_X, SPAWN_Y)
    }

    /// Tops the queue up with shuffled bags until it holds more than 14 ids;
    /// returns the queue.
    pub fn generate_bag(&mut self) -> (r: &[i8])
        ensures
            refilled(old(self).bag@, final(self).bag@),
            final(self).bag@.len() > 14,
            final(self).bag_size == final(self).bag@.len(),
            r@ == final(self).bag@,
            same_but_queue(*old(self), *final(self)),
            final(self).rng.seed() == old(self).rng.seed(),
            drew_bags(old(self).rng.draws(), final(self).rng.draws()),
            final(self).bag@ == old(self).bag@ + new_ids(old(self).rng.draws(), final(self).rng.draws()),
    {
        let ghost start = self.bag@;
        let ghost d0 = self.rng.draws();
        proof {
            lemma_drew_nothing(d0);
            assert(start + Seq::<i8>::empty() =~= start);
        }
        while self.bag.len() <= 14
            invariant
                start.len() <= self.bag@.len(),
                self.bag@.take(start.len() as int) == start,
                whole_bags(self.bag@.skip(start.len() as int)),
                refill_count(start.len() as int) == (self.bag@.len() - start.len()) / 7 + refill_count(self.bag@.len() as int),
                (self.bag@.len() - start.len()) % 7 == 0,
                same_but_queue(*old(self), *self),
                self.rng.seed() == old(self).rng.seed(),
                d0 == old(self).rng.draws(),
                start == old(self).bag@,
                drew_bags(d0, self.rng.draws()),
                self.bag@ == start + new_ids(d0, self.rng.draws()),
            decreases 22 - self.bag@.len(),
        {
            let mut new_bag: [i8; 7] = [1, 2, 3, 4, 5, 6, 7];
            assert(new_bag@ =~= standard_bag());
            let ghost fresh = new_bag;
            let ghost d1 = self.rng.draws();
            self.rng.shuffle_bag(&mut new_bag);
            proof {
                lemma_drew_one_more(d0, d1, fresh, new_bag);
            }
            let ghost before = self.bag@;
            let ghost rng_now = self.rng;
            let mut i: usize = 0;
            while i < 7
                invariant
                    i <= 7,
                    same_but_queue(*old(self), *self),
                    self.rng == rng_now,
                    self.bag@ == before + new_bag@.take(i as int),
                decreases 7 - i,
            {
                self.bag.push(new_bag[i]);
                assert(new_bag@.take(i + 1) =~= new_bag@.take(i as int).push(new_bag@[i as int]));
                i += 1;
            }
            proof {
                assert(new_bag@.take(7) =~= new_bag@);
                assert(is_full_bag(new_bag@));
                lemma_whole_bags_push(before.skip(start.len() as int), new_bag@);
                assert(self.bag@.skip(start.len() as int) =~= before.skip(start.len() as int) + new_bag@);
                assert(self.bag@.take(start.len() as int) =~= before.take(start.len() as int));
                assert(self.bag@ =~= start + new_ids(d0, self.rng.draws()));
            }
        }
        self.bag_size = self.bag.len();
        self.bag.as_slice()
    }

    /// Deals the next id from the queue, topping the queue up with whole bags
    /// before and, when 14 or fewer remain, after.
    pub fn pop_next_piece_id(&mut self) -> (r: i8)
        ensures
            exists|q: Seq<i8>|
                refilled(old(self).bag@, q) && r == q[0] && refilled(q.drop_first(), final(self).bag@),
            final(self).bag@.len() > 14,
            final(self).bag_size == final(self).bag@.len(),
            same_but_queue(*old(self), *final(self)),
            final(self).rng.seed() == old(self).rng.seed(),
            drew_bags(old(self).rng.draws(), final(self).rng.draws()),
            old(self).bag@ + new_ids(old(self).rng.draws(), final(self).rng.draws()) == seq![r] + final(self).bag@,
    {
        let ghost d0 = self.rng.draws();
        self.generate_bag();
        let ghost q = self.bag@;
        let ghost d1 = self.rng.draws();
        let piece_id = self.bag.remove(0);
        assert(self.bag@ =~= q.drop_first());
        self.bag_size = self.bag.len();
        if self.bag_size <= 14 {
            self.generate_bag();
        } else {
            proof {
                assert(self.bag@.take(self.bag@.len() as int) =~= self.bag@);
                assert(self.bag@.skip(self.bag@.len() as int) =~= Seq::<i8>::empty());
                lemma_drew_nothing(d1);
            }
        }
        proof {
            lemma_drew_chain(d0, d1, self.rng.draws());
            assert(old(self).bag@ + new_ids(d0, self.rng.draws()) =~= seq![piece_id] + self.bag@);
        }
        piece_id
    }

    /// Makes a piece of `kind` current at `position` (the spawn point when not
    /// given) in `rotation` taken modulo 4, and unlocks the hold.
    pub fn spawn_piece(&mut self, kind: PieceKind, position: Option<(i16, i16)>, rotation: u8) -> (r: Piece)
        ensures
            r.kind == kind,
            r.rotation == rotation % 4,
            r.position == (match position {
                Some(p) => p,
                None => (SPAWN_X, SPAWN_Y),
            }),
            !r.last_action_was_rotation,
            r.last_rotation_dir is None,
            r.last_kick_index is None,
            *final(self) == (TetrisEngine { current_piece: Some(r), hold_locked: false, ..*old(self) }),
    {
        let position = match position {
            Some(p) => p,
            None => self.spawn_position_for(Some(kind)),
        };
        let piece = Piece::new(kind, rotation, position);
        self.current_piece = Some(piece);
        self.hold_locked = false;
        piece
    }

    /// Deals the next piece and spawns it; nothing happens once the game is over.
    pub fn spawn_next(&mut self, allow_clutch: bool) -> (r: bool)
        requires
            !old(self).game_over ==> front_id_valid(old(self).bag@),
        ensures
            old(self).game_over ==> !r && *final(self) == *old(self),
            !old(self).game_over ==> exists|q: Seq<i8>|
                refilled(old(self).bag@, q) && refilled(q.drop_first(), final(self).bag@)
                    && spawned(with_queue_of(*old(self), *final(self)), q[0] as int, allow_clutch, *final(self), r)
                    && old(self).bag@ + new_ids(old(self).rng.draws(), final(self).rng.draws()) == seq![q[0]] + final(self).bag@,
            !old(self).game_over ==> drew_bags(old(self).rng.draws(), final(self).rng.draws()),
            final(self).bag@.len() > 14 || old(self).game_over,
    {
        if self.game_over {
            return false;
        }
        let ghost pre = *self;
        let next_piece_id = self.pop_next_piece_id();
        let ghost q = choose|q: Seq<i8>|
            refilled(pre.bag@, q) && next_piece_id == q[0] && refilled(q.drop_first(), self.bag@);
        proof {
            lemma_refilled_front_valid(pre.bag@, q);
        }
        let r = self.spawn_specific_piece_id(next_piece_id, allow_clutch);
        assert(refilled(pre.bag@, q) && refilled(q.drop_first(), self.bag@));
        assert(pre.bag@ + new_ids(pre.rng.draws(), self.rng.draws()) == seq![q[0]] + self.bag@);
        r
    }

    /// Spawns the piece with id `id` at the spawn point, or with `allow_clutch`
    /// at the highest free row above it; with no room the game ends in a
    /// block-out.
    pub fn spawn_specific_piece_id(&mut self, piece_id_value: i8, allow_clutch: bool) -> (r: bool)
        requires
            valid_piece_id(piece_id_value as int),
        ensures
            spawned(*old(self), piece_id_value as int, allow_clutch, *final(self), r),
    {
        let kind = piece_kind_from_id(piece_id_value).unwrap();
        let spawn_pos = self.spawn_position_for(Some(kind));
        let piece = Piece::new(kind, 0, spawn_pos);
        proof {
            lemma_small_placements_representable(kind);
        }

        self.last_spawn_was_clutch = false;

        if self.is_position_valid_for_piece(&piece, Some(spawn_pos), Some(0)) {
            self.current_piece = Some(piece);
            self.hold_locked = false;
            return true;
        }

        if allow_clutch {
            if let Some(clutch_pos) = self.find_clutch_spawn(&piece, spawn_pos) {
                let mut clutch_piece = piece;
                clutch_piece.position = clutch_pos;
                self.current_piece = Some(clutch_piece);
                self.last_spawn_was_clutch = true;
                self.hold_locked = false;
                return true;
            }
        }

        self.current_piece = None;
        self.game_over = true;
        self.game_over_reason = Some("block_out".to_string());
        false
    }

    /// Swaps the current piece into the hold: the held piece, or the next
    /// dealt one, spawns at the spawn point and the hold locks until the next
    /// spawn. Refused when the game is over, the hold is locked or there is no
    /// current piece.
    pub fn hold_current(&mut self) -> (r: bool)
        requires
            !hold_refused(*old(self)) ==> match old(self).hold {
                Some(h) => valid_piece_id(h as int),
                None => front_id_valid(old(self).bag@),
            },
        ensures
            held(*old(self), *final(self), r),
    {
        if self.game_over || self.hold_locked {
            return false;
        }

        let piece = match self.current_piece {
            Some(piece) => piece,
            None => return false,
        };

        let current_id = piece_id(piece.kind);
        let held_id = self.hold;
        self.hold = Some(current_id);
        self.current_piece = None;

        let spawned = match held_id {
            Some(held_id) => self.spawn_specific_piece_id(held_id, false),
            None => self.spawn_next(false),
        };

        if spawned {
            self.hold_locked = true;
        }

        spawned
    }

    fn find_clutch_spawn(&self, piece: &Piece, position: (i16, i16)) -> (r: Option<(i16, i16)>)
        requires
            position.0 <= 32000,
            position.0 >= -32000,
            position.1 <= 32000,
            piece.rotation == 0,
        ensures
            match clutch_row(self.board@, piece.kind, 0, position.0 as int, position.1 as int) {
                Some(row) => r == Some((position.0, row as i16)),
                None => r is None,
            },
    {
        let (x, y) = position;
        let mut ny = y;
        while ny > 0
            invariant
                ny <= y,
                x == position.0,
                y == position.1,
                -32000 <= x <= 32000,
                y <= 32000,
                piece.rotation == 0,
                clutch_row(self.board@, piece.kind, 0, x as int, y as int)
                    == clutch_row(self.board@, piece.kind, 0, x as int, ny as int),
            decreases ny,
        {
            ny -= 1;
            let candidate = (x, ny);
            proof {
                lemma_small_offsets_representable(piece.kind, x as int, ny as int, 0);
            }
            if self.is_position_valid_for_piece(piece, Some(candidate), None) {
                return Some(candidate);
            }
        }
        None
    }

    fn is_position_valid_for_piece(&self, piece: &Piece, position: Option<(i16, i16)>, rotation: Option<u8>) -> (r: bool)
        requires
            cells_representable(piece.kind, chosen_position(*piece, position), chosen_rotation(*piece, rotation)),
        ensures
            r == fits(self.board@, piece.kind, chosen_position(*piece, position), chosen_rotation(*piece, rotation)),
    {
        is_position_valid(&self.board, piece, position, rotation)
    }

    /// The current piece, the held piece and the next `next_slots` ids of the
    /// queue, with the ids also laid out as current, hold, next ids padded
    /// with zeros to `2 + next_slots` entries (0 standing for none).
    pub fn get_queue_snapshot(&self, next_slots: usize) -> (r: QueueSnapshot)
        requires
            self.hold matches Some(h) ==> valid_piece_id(h as int),
            ids_valid(self.bag@.take(min_len(next_slots as int, self.bag@.len() as int))),
            next_slots <= usize::MAX - 2,
        ensures
            r.current == (match self.current_piece {
                Some(p) => Some(p.kind),
                None => None,
            }),
            r.hold == (match self.hold {
                Some(h) => kind_of_id(h as int),
                None => None,
            }),
            r.next_ids@ == self.bag@.take(min_len(next_slots as int, self.bag@.len() as int)),
            r.next_kinds@.len() == r.next_ids@.len(),
            forall|i: int| 0 <= i < r.next_kinds@.len() ==> Some(#[trigger] r.next_kinds@[i]) == kind_of_id(r.next_ids@[i] as int),
            r.piece_ids@ == seq![
                (match self.current_piece {
                    Some(p) => kind_id(p.kind) as i8,
                    None => 0i8,
                }),
                (match self.hold {
                    Some(h) => h,
                    None => 0i8,
                })
            ] + r.next_ids@ + Seq::new((next_slots - r.next_ids@.len()) as nat, |i: int| 0i8),
    {
        let current = match self.current_piece {
            Some(piece) => Some(piece.kind),
            None => None,
        };
        let hold = match self.hold {
            Some(id) => Some(piece_kind_from_id(id).unwrap()),
            None => None,
        };
        let take = if next_slots < self.bag.len() { next_slots } else { self.bag.len() };
        let mut next_ids: Vec<i8> = Vec::new();
        let mut next_kinds: Vec<PieceKind> = Vec::new();
        let mut i: usize = 0;
        while i < take
            invariant
                take == min_len(next_slots as int, self.bag@.len() as int),
                i <= take,
                ids_valid(self.bag@.take(take as int)),
                next_ids@ == self.bag@.take(i as int),
                next_kinds@.len() == i,
                forall|j: int| 0 <= j < i ==> Some(#[trigger] next_kinds@[j]) == kind_of_id(next_ids@[j] as int),
            decreases take - i,
        {
            let id = self.bag[i];
            assert(self.bag@.take(take as int)[i as int] == id);
            next_ids.push(id);
            next_kinds.push(piece_kind_from_id(id).unwrap());
            assert(next_ids@ =~= self.bag@.take(i + 1));
            i += 1;
        }

        let mut piece_ids: Vec<i8> = Vec::with_capacity(2 + next_slots);
        piece_ids.push(match current {
            Some(kind) => piece_id(kind),
            None => 0,
        });
        piece_ids.push(match self.hold {
            Some(id) => id,
            None => 0,
        });
        let ghost head = piece_ids@;
        let mut j: usize = 0;
        while j < take
            invariant
                j <= take,
                take == next_ids@.len(),
                piece_ids@ == head + next_ids@.take(j as int),
            decreases take - j,
        {
            piece_ids.push(next_ids[j]);
            assert(next_ids@.take(j + 1) =~= next_ids@.take(j as int).push(next_ids@[j as int]));
            j += 1;
        }
        assert(next_ids@.take(take as int) =~= next_ids@);
        let ghost filled = piece_ids@;
        while piece_ids.len() < 2 + next_slots
            invariant
                filled.len() == 2 + take,
                take <= next_slots <= usize::MAX - 2,
                filled.len() <= piece_ids@.len() <= 2 + next_slots,
                piece_ids@ == filled + Seq::new((piece_ids@.len() - filled.len()) as nat, |k: int| 0i8),
            decreases 2 + next_slots - piece_ids@.len(),
        {
            piece_ids.push(0);
            assert(piece_ids@ =~= filled + Seq::new((piece_ids@.len() - filled.len()) as nat, |k: int| 0i8));
        }
        proof {
            if let Some(h) = self.hold {
                assert(kind_of_id(h as int) is Some);
            }
        }
        QueueSnapshot { current, hold, next_ids, next_kinds, piece_ids }
    }

    /// The unplayed part of the bag being dealt: with a piece in play, the
    /// queue length modulo 7 first ids; with none and an exact number of bags
    /// queued, the next whole bag. Ids outside 1..=7 are not counted.
    pub fn get_bag_remainder_counts(&self) -> (r: BagRemainderCounts)
        ensures
            r.remaining == bag_remainder(self.bag@.len() as int, self.current_piece is Some),
            forall|k: int| 0 <= k < 7 ==> #[trigger] r.counts[k] == id_count(self.bag@.take(r.remaining as int), k + 1),
            r.bag_position == (if self.current_piece is None { 0 } else { 7 - r.remaining }),
    {
        let mut counts: [u8; 7] = [0, 0, 0, 0, 0, 0, 0];
        let mut remaining = if self.bag.len() == 0 { 0 } else { self.bag.len() % 7 };
        if self.current_piece.is_none() && remaining == 0 {
            remaining = if self.bag.len() < 7 { self.bag.len() } else { 7 };
        }

        let mut i: usize = 0;
        while i < remaining
            invariant
                remaining <= 7,
                remaining <= self.bag@.len(),
                i <= remaining,
                forall|k: int| 0 <= k < 7 ==> #[trigger] counts[k] == id_count(self.bag@.take(i as int), k + 1),
                forall|k: int| 0 <= k < 7 ==> #[trigger] counts[k] <= i,
            decreases remaining - i,
        {
            let id = self.bag[i];
            proof {
                lemma_id_count_push(self.bag@.take(i as int), id);
                assert(self.bag@.take(i + 1) =~= self.bag@.take(i as int).push(id));
            }
            if let Some(kind) = piece_kind_from_id(id) {
                let k = kind_index(kind);
                counts[k] = counts[k] + 1;
            }
            i += 1;
        }

        let bag_position = if self.current_piece.is_none() { 0 } else { 7 - remaining };
        BagRemainderCounts { counts, remaining, bag_position }
    }

    /// Ends the turn after a lock that cleared `cleared_lines`: deals and
    /// spawns the next piece, with the clutch path when lines were cleared,
    /// and reports what happened. After game over it only reports.
    pub fn end_phase(&mut self, cleared_lines: i32) -> (r: EndPhaseResult)
        requires
            !old(self).game_over ==> front_id_valid(old(self).bag@),
        ensures
            old(self).game_over ==> *final(self) == *old(self) && !r.spawned,
            !old(self).game_over ==> exists|q: Seq<i8>|
                refilled(old(self).bag@, q) && refilled(q.drop_first(), final(self).bag@)
                    && spawned(with_queue_of(*old(self), *final(self)), q[0] as int, cleared_lines > 0, *final(self), r.spawned)
                    && old(self).bag@ + new_ids(old(self).rng.draws(), final(self).rng.draws()) == seq![q[0]] + final(self).bag@,
            !old(self).game_over ==> drew_bags(old(self).rng.draws(), final(self).rng.draws()),
            r.lines_cleared == cleared_lines,
            r.clutch_clear == (!old(self).game_over && final(self).last_spawn_was_clutch),
            r.game_over == final(self).game_over,
            r.reason == final(self).game_over_reason,
    {
        if self.game_over {
            return EndPhaseResult {
                lines_cleared: cleared_lines,
                spawned: false,
                clutch_clear: false,
                game_over: self.game_over,
                reason: copy_reason(&self.game_over_reason),
            };
        }

        let spawned = self.spawn_next(cleared_lines > 0);
        EndPhaseResult {
            lines_cleared: cleared_lines,
            spawned,
            clutch_clear: self.last_spawn_was_clutch,
            game_over: self.game_over,
            reason: copy_reason(&self.game_over_reason),
        }
    }
}

fn copy_reason(reason: &Option<String>) -> (r: Option<String>)
    ensures
        r == *reason,
{
    match reason {
        Some(s) => Some(s.clone()),
        None => None,
    }
}

impl Default for TetrisEngine {
    fn default() -> (r: Self)
        ensures
            fresh_state(r),
            r.rng.seed() == 0,
            drew_bags(Seq::<RngDraw>::empty(), r.rng.draws()),
            r.bag@ == new_ids(Seq::<RngDraw>::empty(), r.rng.draws()),
            r.spin_mode == SpinMode::AllSpin,
            r.b2b_mode == B2BMode::Surge,
    {
        Self::new(EngineRng::default())
    }
}

} // verus!
