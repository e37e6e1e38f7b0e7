use vstd::prelude::*;

use crate::bfs::{BfsResult, PlacementRecord};
use crate::board::Board;
use crate::piece::PieceKind;
use crate::scoring::{AttackStats, SpinResult};
use crate::text::str_equal;

verus! {

/// The spin part of a grouping key: every field of the spin result.
#[derive(Clone, Debug)]
pub struct SpinResultKey {
    pub piece: PieceKind,
    pub spin_type: &'static str,
    pub is_mini: bool,
    pub is_180: bool,
    pub kick_index: Option<u8>,
    pub rotation_dir: Option<i8>,
    pub corners: Option<u8>,
    pub front_corners: Option<u8>,
    pub description: String,
}

/// What makes two search outcomes the same: the board after the placement
/// and every field of its score.
#[derive(Clone, Debug)]
pub struct BfsResultKey {
    pub board: Board,
    pub attack: i32,
    pub b2b_bonus: i32,
    pub b2b_chain: i32,
    pub b2b_display: i32,
    pub b2b_mode: &'static str,
    pub base_attack: i32,
    pub breaks_b2b: bool,
    pub combo: i32,
    pub combo_active: bool,
    pub combo_attack: i32,
    pub combo_bonus: i32,
    pub combo_multiplier_bits: Option<u64>,
    pub is_difficult: bool,
    pub is_mini: bool,
    pub is_spin: bool,
    pub lines_cleared: i32,
    pub perfect_clear: bool,
    pub qualifies_b2b: bool,
    pub spin: Option<SpinResultKey>,
    pub spin_type: i32,
    pub surge_charge: i32,
    pub surge_segments: Vec<i32>,
    pub surge_send: i32,
    pub t_spin: &'static str,
    pub garbage_cleared: i32,
    pub immediate_garbage: i32,
}

/// Whether two spin results agree in every field, texts by their characters.
pub open spec fn spin_same(a: SpinResult, b: SpinResult) -> bool {
    &&& a.piece == b.piece
    &&& a.spin_type@ == b.spin_type@
    &&& a.is_mini == b.is_mini
    &&& a.is_180 == b.is_180
    &&& a.kick_index == b.kick_index
    &&& a.rotation_dir == b.rotation_dir
    &&& a.corners == b.corners
    &&& a.front_corners == b.front_corners
    &&& a.description@ == b.description@
}

/// Whether two scores agree in every field, texts by their characters and
/// the surge segments element by element.
pub open spec fn stats_same(a: AttackStats, b: AttackStats) -> bool {
    &&& a.attack == b.attack
    &&& a.b2b_bonus == b.b2b_bonus
    &&& a.b2b_chain == b.b2b_chain
    &&& a.b2b_display == b.b2b_display
    &&& a.b2b_mode@ == b.b2b_mode@
    &&& a.base_attack == b.base_attack
    &&& a.breaks_b2b == b.breaks_b2b
    &&& a.combo == b.combo
    &&& a.combo_active == b.combo_active
    &&& a.combo_attack == b.combo_attack
    &&& a.combo_bonus == b.combo_bonus
    &&& a.combo_multiplier_bits == b.combo_multiplier_bits
    &&& a.is_difficult == b.is_difficult
    &&& a.is_mini == b.is_mini
    &&& a.is_spin == b.is_spin
    &&& a.lines_cleared == b.lines_cleared
    &&& a.perfect_clear == b.perfect_clear
    &&& a.qualifies_b2b == b.qualifies_b2b
    &&& match (a.spin, b.spin) {
        (None, None) => true,
        (Some(x), Some(y)) => spin_same(x, y),
        _ => false,
    }
    &&& a.spin_type == b.spin_type
    &&& a.surge_charge == b.surge_charge
    &&& a.surge_segments@ == b.surge_segments@
    &&& a.surge_send == b.surge_send
    &&& a.t_spin@ == b.t_spin@
    &&& a.garbage_cleared == b.garbage_cleared
    &&& a.immediate_garbage == b.immediate_garbage
}

/// Whether `k` is the spin key of `s`.
pub open spec fn spin_key_of(k: SpinResultKey, s: SpinResult) -> bool {
    &&& k.piece == s.piece
    &&& k.spin_type@ == s.spin_type@
    &&& k.is_mini == s.is_mini
    &&& k.is_180 == s.is_180
    &&& k.kick_index == s.kick_index
    &&& k.rotation_dir == s.rotation_dir
    &&& k.corners == s.corners
    &&& k.front_corners == s.front_corners
    &&& k.description@ == s.description@
}

/// Whether `k` is the key of the outcome `board`, `stats`.
pub open spec fn key_of(k: BfsResultKey, board: Board, stats: AttackStats) -> bool {
    &&& k.board@ == board@
    &&& k.attack == stats.attack
    &&& k.b2b_bonus == stats.b2b_bonus
    &&& k.b2b_chain == stats.b2b_chain
    &&& k.b2b_display == stats.b2b_display
    &&& k.b2b_mode@ == stats.b2b_mode@
    &&& k.base_attack == stats.base_attack
    &&& k.breaks_b2b == stats.breaks_b2b
    &&& k.combo == stats.combo
    &&& k.combo_active == stats.combo_active
    &&& k.combo_attack == stats.combo_attack
    &&& k.combo_bonus == stats.combo_bonus
    &&& k.combo_multiplier_bits == stats.combo_multiplier_bits
    &&& k.is_difficult == stats.is_difficult
    &&& k.is_mini == stats.is_mini
    &&& k.is_spin == stats.is_spin
    &&& k.lines_cleared == stats.lines_cleared
    &&& k.perfect_clear == stats.perfect_clear
    &&& k.qualifies_b2b == stats.qualifies_b2b
    &&& match (k.spin, stats.spin) {
        (None, None) => true,
        (Some(x), Some(y)) => spin_key_of(x, y),
        _ => false,
    }
    &&& k.spin_type == stats.spin_type
    &&& k.surge_charge == stats.surge_charge
    &&& k.surge_segments@ == stats.surge_segments@
    &&& k.surge_send == stats.surge_send
    &&& k.t_spin@ == stats.t_spin@
    &&& k.garbage_cleared == stats.garbage_cleared
    &&& k.immediate_garbage == stats.immediate_garbage
}

/// Whether two spin keys agree in every field.
pub open spec fn spin_keys_same(a: SpinResultKey, b: SpinResultKey) -> bool {
    &&& a.piece == b.piece
    &&& a.spin_type@ == b.spin_type@
    &&& a.is_mini == b.is_mini
    &&& a.is_180 == b.is_180
    &&& a.kick_index == b.kick_index
    &&& a.rotation_dir == b.rotation_dir
    &&& a.corners == b.corners
    &&& a.front_corners == b.front_corners
    &&& a.description@ == b.description@
}

/// Whether two keys agree in every field.
pub open spec fn keys_same(a: BfsResultKey, b: BfsResultKey) -> bool {
    &&& a.board@ == b.board@
    &&& a.attack == b.attack
    &&& a.b2b_bonus == b.b2b_bonus
    &&& a.b2b_chain == b.b2b_chain
    &&& a.b2b_display == b.b2b_display
    &&& a.b2b_mode@ == b.b2b_mode@
    &&& a.base_attack == b.base_attack
    &&& a.breaks_b2b == b.breaks_b2b
    &&& a.combo == b.combo
    &&& a.combo_active == b.combo_active
    &&& a.combo_attack == b.combo_attack
    &&& a.combo_bonus == b.combo_bonus
    &&& a.combo_multiplier_bits == b.combo_multiplier_bits
    &&& a.is_difficult == b.is_difficult
    &&& a.is_mini == b.is_mini
    &&& a.is_spin == b.is_spin
    &&& a.lines_cleared == b.lines_cleared
    &&& a.perfect_clear == b.perfect_clear
    &&& a.qualifies_b2b == b.qualifies_b2b
    &&& match (a.spin, b.spin) {
        (None, None) => true,
        (Some(x), Some(y)) => spin_keys_same(x, y),
        _ => false,
    }
    &&& a.spin_type == b.spin_type
    &&& a.surge_charge == b.surge_charge
    &&& a.surge_segments@ == b.surge_segments@
    &&& a.surge_send == b.surge_send
    &&& a.t_spin@ == b.t_spin@
    &&& a.garbage_cleared == b.garbage_cleared
    &&& a.immediate_garbage == b.immediate_garbage
}

/// Keys compare as their outcomes do: two keys agree exactly when their
/// boards and scores do.
pub proof fn lemma_keys_same_iff_outcomes_same(
    a: BfsResultKey,
    b: BfsResultKey,
    board_a: Board,
    stats_a: AttackStats,
    board_b: Board,
    stats_b: AttackStats,
)
    requires
        key_of(a, board_a, stats_a),
        key_of(b, board_b, stats_b),
    ensures
        keys_same(a, b) <==> (board_a@ == board_b@ && stats_same(stats_a, stats_b)),
{
}

fn copy_segments(v: &Vec<i32>) -> (r: Vec<i32>)
    ensures
        r@ == v@,
{
    let mut out: Vec<i32> = Vec::new();
    let mut i: usize = 0;
    while i < v.len()
        invariant
            i <= v@.len(),
            out@ == v@.take(i as int),
        decreases v@.len() - i,
    {
        out.push(v[i]);
        assert(out@ =~= v@.take(i + 1));
        i += 1;
    }
    assert(v@.take(v@.len() as int) =~= v@);
    out
}

fn segments_equal(a: &Vec<i32>, b: &Vec<i32>) -> (r: bool)
    ensures
        r == (a@ == b@),
{
    if a.len() != b.len() {
        return false;
    }
    let mut i: usize = 0;
    while i < a.len()
        invariant
            a@.len() == b@.len(),
            i <= a@.len(),
            forall|j: int| 0 <= j < i ==> a@[j] == b@[j],
        decreases a@.len() - i,
    {
        if a[i] != b[i] {
            return false;
        }
        i += 1;
    }
    assert(a@ =~= b@);
    true
}

fn boards_equal(a: &Board, b: &Board) -> (r: bool)
    ensures
        r == (a@ == b@),
{
    let mut i: usize = 0;
    while i < 400
        invariant
            i <= 400,
            forall|j: int| 0 <= j < i ==> a@[j] == b@[j],
        decreases 400 - i,
    {
        if a[i] != b[i] {
            return false;
        }
        i += 1;
    }
    assert(a@ =~= b@);
    true
}

fn spin_keys_equal(a: &SpinResultKey, b: &SpinResultKey) -> (r: bool)
    ensures
        r == spin_keys_same(*a, *b),
{
    a.piece == b.piece && str_equal(a.spin_type, b.spin_type) && a.is_mini == b.is_mini && a.is_180 == b.is_180
        && a.kick_index == b.kick_index && a.rotation_dir == b.rotation_dir && a.corners == b.corners
        && a.front_corners == b.front_corners && str_equal(a.description.as_str(), b.description.as_str())
}

impl SpinResultKey {
    /// The key of a spin result: a copy of every field.
    pub fn from_spin(spin: &SpinResult) -> (r: Self)
        ensures
            spin_key_of(r, *spin),
    {
        SpinResultKey {
            piece: spin.piece,
            spin_type: spin.spin_type,
            is_mini: spin.is_mini,
            is_180: spin.is_180,
            kick_index: spin.kick_index,
            rotation_dir: spin.rotation_dir,
            corners: spin.corners,
            front_corners: spin.front_corners,
            description: spin.description.clone(),
        }
    }
}

impl BfsResultKey {
    /// The key of the outcome `board`, `stats`: the board and a copy of every
    /// field of the score.
    pub fn from_board_stats(board: &Board, stats: &AttackStats) -> (r: Self)
        ensures
            key_of(r, *board, *stats),
    {
        let spin = match &stats.spin {
            Some(s) => Some(SpinResultKey::from_spin(s)),
            None => None,
        };
        BfsResultKey {
            board: *board,
            attack: stats.attack,
            b2b_bonus: stats.b2b_bonus,
            b2b_chain: stats.b2b_chain,
            b2b_display: stats.b2b_display,
            b2b_mode: stats.b2b_mode,
            base_attack: stats.base_attack,
            breaks_b2b: stats.breaks_b2b,
            combo: stats.combo,
            combo_active: stats.combo_active,
            combo_attack: stats.combo_attack,
            combo_bonus: stats.combo_bonus,
            combo_multiplier_bits: stats.combo_multiplier_bits,
            is_difficult: stats.is_difficult,
            is_mini: stats.is_mini,
            is_spin: stats.is_spin,
            lines_cleared: stats.lines_cleared,
            perfect_clear: stats.perfect_clear,
            qualifies_b2b: stats.qualifies_b2b,
            spin,
            spin_type: stats.spin_type,
            surge_charge: stats.surge_charge,
            surge_segments: copy_segments(&stats.surge_segments),
            surge_send: stats.surge_send,
            t_spin: stats.t_spin,
            garbage_cleared: stats.garbage_cleared,
            immediate_garbage: stats.immediate_garbage,
        }
    }

    /// Whether two keys agree in every field.
    pub fn same_key(&self, other: &Self) -> (r: bool)
        ensures
            r == keys_same(*self, *other),
    {
        let spins = match (&self.spin, &other.spin) {
            (None, None) => true,
            (Some(x), Some(y)) => spin_keys_equal(x, y),
            _ => false,
        };
        boards_equal(&self.board, &other.board) && self.attack == other.attack && self.b2b_bonus == other.b2b_bonus
            && self.b2b_chain == other.b2b_chain && self.b2b_display == other.b2b_display
            && str_equal(self.b2b_mode, other.b2b_mode) && self.base_attack == other.base_attack
            && self.breaks_b2b == other.breaks_b2b && self.combo == other.combo
            && self.combo_active == other.combo_active && self.combo_attack == other.combo_attack
            && self.combo_bonus == other.combo_bonus && self.combo_multiplier_bits == other.combo_multiplier_bits
            && self.is_difficult == other.is_difficult && self.is_mini == other.is_mini
            && self.is_spin == other.is_spin && self.lines_cleared == other.lines_cleared
            && self.perfect_clear == other.perfect_clear && self.qualifies_b2b == other.qualifies_b2b && spins
            && self.spin_type == other.spin_type && self.surge_charge == other.surge_charge
            && segments_equal(&self.surge_segments, &other.surge_segments) && self.surge_send == other.surge_send
            && str_equal(self.t_spin, other.t_spin) && self.garbage_cleared == other.garbage_cleared
            && self.immediate_garbage == other.immediate_garbage
    }
}

/// A search result as values: board, score, placement and grouped placements.
pub type ResultView = (Option<Board>, Option<AttackStats>, PlacementRecord, Seq<PlacementRecord>);

/// The values of a search result.
pub open spec fn result_view(r: BfsResult) -> ResultView {
    (r.board, r.stats, r.placement, r.placements@)
}

/// Whether a result takes part in grouping: it has a board and a score and
/// is a placement, not the skip option.
pub open spec fn groupable(r: ResultView) -> bool {
    r.0 is Some && r.1 is Some && r.2 is Placed
}

/// Whether two groupable results lead to the same board and score.
pub open spec fn same_outcome(a: ResultView, b: ResultView) -> bool {
    a.0.unwrap()@ == b.0.unwrap()@ && stats_same(a.1.unwrap(), b.1.unwrap())
}

/// The first index from `i` on of a groupable entry of `acc` with the same
/// outcome as `r`.
pub open spec fn group_from(acc: Seq<ResultView>, r: ResultView, i: int) -> Option<int>
    decreases acc.len() - i,
{
    if i < 0 || i >= acc.len() {
        None
    } else if groupable(acc[i]) && same_outcome(acc[i], r) {
        Some(i)
    } else {
        group_from(acc, r, i + 1)
    }
}

/// Grouping one more result into `acc`: a result that is not groupable is
/// kept as it is; one whose outcome an earlier group has adds its placement
/// to that group; any other starts a group of its own placement.
pub open spec fn group_step(acc: Seq<ResultView>, r: ResultView) -> Seq<ResultView> {
    if !groupable(r) {
        acc.push(r)
    } else {
        match group_from(acc, r, 0) {
            Some(i) => acc.update(i, (acc[i].0, acc[i].1, acc[i].2, acc[i].3.push(r.2))),
            None => acc.push((r.0, r.1, r.2, seq![r.2])),
        }
    }
}

/// Grouping results in order.
pub open spec fn grouped(s: Seq<ResultView>) -> Seq<ResultView>
    decreases s.len(),
{
    if s.len() == 0 {
        seq![]
    } else {
        group_step(grouped(s.drop_last()), s.last())
    }
}

/// No two groupable entries of `acc` have the same outcome.
pub open spec fn outcomes_distinct(acc: Seq<ResultView>) -> bool {
    forall|i: int, j: int|
        0 <= i < j < acc.len() && groupable(#[trigger] acc[i]) && groupable(#[trigger] acc[j]) ==> !same_outcome(acc[i], acc[j])
}

proof fn lemma_group_from_none(acc: Seq<ResultView>, r: ResultView, i: int)
    requires
        0 <= i,
        forall|j: int| i <= j < acc.len() ==> !(groupable(#[trigger] acc[j]) && same_outcome(acc[j], r)),
    ensures
        group_from(acc, r, i) is None,
    decreases acc.len() - i,
{
    if i < acc.len() {
        lemma_group_from_none(acc, r, i + 1);
    }
}

proof fn lemma_group_from_unique(acc: Seq<ResultView>, r: ResultView, i: int, k: int)
    requires
        0 <= i <= k < acc.len(),
        groupable(acc[k]),
        same_outcome(acc[k], r),
        forall|j: int| i <= j < acc.len() && j != k ==> !(groupable(#[trigger] acc[j]) && same_outcome(acc[j], r)),
    ensures
        group_from(acc, r, i) == Some(k),
    decreases acc.len() - i,
{
    if i < k {
        lemma_group_from_unique(acc, r, i + 1, k);
    }
}

proof fn lemma_group_from_found(acc: Seq<ResultView>, r: ResultView, i: int)
    requires
        0 <= i,
    ensures
        group_from(acc, r, i) matches Some(g) ==> i <= g < acc.len() && groupable(acc[g]) && same_outcome(acc[g], r),
        group_from(acc, r, i) is None ==> forall|j: int| i <= j < acc.len() ==> !(groupable(#[trigger] acc[j]) && same_outcome(acc[j], r)),
    decreases acc.len() - i,
{
    if i < acc.len() {
        lemma_group_from_found(acc, r, i + 1);
    }
}

/// Grouping leaves one entry per outcome: no two groupable entries of the
/// grouped results have the same board and score.
pub proof fn lemma_grouped_distinct(s: Seq<ResultView>)
    ensures
        outcomes_distinct(grouped(s)),
    decreases s.len(),
{
    if s.len() > 0 {
        let acc = grouped(s.drop_last());
        let r = s.last();
        lemma_grouped_distinct(s.drop_last());
        lemma_group_from_found(acc, r, 0);
        let out = grouped(s);
        assert(out == group_step(acc, r));
        assert forall|i: int, j: int| 0 <= i < j < out.len() && groupable(#[trigger] out[i]) && groupable(#[trigger] out[j]) implies !same_outcome(out[i], out[j]) by {
            if j < acc.len() {
                assert(out[i].0 == acc[i].0 && out[i].1 == acc[i].1 && out[i].2 == acc[i].2);
                assert(out[j].0 == acc[j].0 && out[j].1 == acc[j].1 && out[j].2 == acc[j].2);
            } else {
                assert(out[i] == acc[i]);
            }
        }
    }
}

/// Grouping loses nothing: the placement of every groupable result ends up
/// in the placement list of the entry for its board and score, and every
/// other result (the skip option among them) is kept as it was.
pub proof fn lemma_grouped_keeps_placements(s: Seq<ResultView>, i: int)
    requires
        0 <= i < s.len(),
    ensures
        groupable(s[i]) ==> exists|g: int|
            0 <= g < grouped(s).len() && groupable(#[trigger] grouped(s)[g]) && same_outcome(grouped(s)[g], s[i])
                && grouped(s)[g].3.contains(s[i].2),
        !groupable(s[i]) ==> grouped(s).contains(s[i]),
    decreases s.len(),
{
    let acc = grouped(s.drop_last());
    let r = s.last();
    let out = grouped(s);
    assert(out == group_step(acc, r));
    lemma_group_from_found(acc, r, 0);
    if i == s.len() - 1 {
        if groupable(r) {
            match group_from(acc, r, 0) {
                Some(g) => {
                    assert(out[g].3 == acc[g].3.push(r.2));
                    assert(out[g].3[acc[g].3.len() as int] == r.2);
                    assert(groupable(out[g]) && same_outcome(out[g], r));
                },
                None => {
                    let g = acc.len() as int;
                    assert(out[g] == (r.0, r.1, r.2, seq![r.2]));
                    assert(out[g].3[0] == r.2);
                    assert(groupable(out[g]) && same_outcome(out[g], r));
                },
            }
        } else {
            assert(out[acc.len() as int] == r);
        }
    } else {
        let p = s.drop_last();
        assert(p[i] == s[i]);
        lemma_grouped_keeps_placements(p, i);
        if groupable(s[i]) {
            let g = choose|g: int|
                0 <= g < acc.len() && groupable(#[trigger] acc[g]) && same_outcome(acc[g], s[i]) && acc[g].3.contains(s[i].2);
            let w = choose|w: int| 0 <= w < acc[g].3.len() && acc[g].3[w] == s[i].2;
            assert(out[g].0 == acc[g].0 && out[g].1 == acc[g].1 && out[g].2 == acc[g].2);
            assert(out[g].3.len() >= acc[g].3.len() && out[g].3[w] == acc[g].3[w]);
            assert(groupable(out[g]) && same_outcome(out[g], s[i]) && out[g].3.contains(s[i].2));
        } else {
            let w = choose|w: int| 0 <= w < acc.len() && acc[w] == s[i];
            if groupable(r) && group_from(acc, r, 0) is Some {
                assert(group_from(acc, r, 0).unwrap() != w);
            }
            assert(out[w] == acc[w]);
        }
    }
}

/// Whether a result is groupable with the board and score of `r`.
pub open spec fn with_outcome(r: ResultView) -> spec_fn(ResultView) -> bool {
    |x: ResultView| groupable(x) && same_outcome(x, r)
}

/// Whether a result is kept out of grouping.
pub open spec fn ungroupable_fn() -> spec_fn(ResultView) -> bool {
    |x: ResultView| !groupable(x)
}

/// The placements of a run of results.
pub open spec fn placements_of(s: Seq<ResultView>) -> Seq<PlacementRecord> {
    s.map_values(|x: ResultView| x.2)
}

proof fn lemma_filter_none(s: Seq<ResultView>, pred: spec_fn(ResultView) -> bool)
    requires
        forall|i: int| 0 <= i < s.len() ==> !pred(#[trigger] s[i]),
    ensures
        s.filter(pred) == Seq::<ResultView>::empty(),
    decreases s.len(),
{
    reveal(Seq::filter);
    if s.len() > 0 {
        lemma_filter_none(s.drop_last(), pred);
    } else {
        assert(s.filter(pred) =~= Seq::<ResultView>::empty());
    }
}

proof fn lemma_filter_update_out(s: Seq<ResultView>, i: int, v: ResultView, pred: spec_fn(ResultView) -> bool)
    requires
        0 <= i < s.len(),
        !pred(s[i]),
        !pred(v),
    ensures
        s.update(i, v).filter(pred) == s.filter(pred),
    decreases s.len(),
{
    reveal(Seq::filter);
    let t = s.update(i, v);
    if i == s.len() - 1 {
        assert(t.drop_last() =~= s.drop_last());
    } else {
        assert(t.drop_last() =~= s.drop_last().update(i, v));
        lemma_filter_update_out(s.drop_last(), i, v, pred);
    }
}

proof fn lemma_same_outcome_facts(a: ResultView, b: ResultView, c: ResultView)
    ensures
        same_outcome(a, b) ==> same_outcome(b, a),
        same_outcome(a, b) && same_outcome(b, c) ==> same_outcome(a, c),
        (a.0 == b.0 && a.1 == b.1) ==> with_outcome(a) == with_outcome(b),
{
    if a.0 == b.0 && a.1 == b.1 {
        assert(with_outcome(a) =~= with_outcome(b));
    }
}

/// Results kept out of grouping (no board, no score, or the skip option)
/// come out exactly as they went in, in their order.
pub proof fn lemma_grouped_passes_through(s: Seq<ResultView>)
    ensures
        grouped(s).filter(ungroupable_fn()) == s.filter(ungroupable_fn()),
    decreases s.len(),
{
    reveal(Seq::filter);
    if s.len() > 0 {
        let p = s.drop_last();
        let r = s.last();
        let acc = grouped(p);
        let out = grouped(s);
        let pred = ungroupable_fn();
        lemma_grouped_passes_through(p);
        assert(out == group_step(acc, r));
        lemma_group_from_found(acc, r, 0);
        if !groupable(r) {
            assert(out.drop_last() =~= acc);
        } else {
            match group_from(acc, r, 0) {
                Some(i) => {
                    lemma_filter_update_out(acc, i, (acc[i].0, acc[i].1, acc[i].2, acc[i].3.push(r.2)), pred);
                },
                None => {
                    assert(out.drop_last() =~= acc);
                },
            }
        }
    }
}

/// Each merged entry is the first groupable result with its board and score,
/// and its placement list holds, in input order, the placement of every
/// groupable result with that board and score.
pub proof fn lemma_grouped_placements(s: Seq<ResultView>, j: int)
    requires
        0 <= j < grouped(s).len(),
        groupable(grouped(s)[j]),
    ensures
        grouped(s)[j].3 == placements_of(s.filter(with_outcome(grouped(s)[j]))),
        s.filter(with_outcome(grouped(s)[j])).len() > 0,
        s.filter(with_outcome(grouped(s)[j]))[0].0 == grouped(s)[j].0,
        s.filter(with_outcome(grouped(s)[j]))[0].1 == grouped(s)[j].1,
        s.filter(with_outcome(grouped(s)[j]))[0].2 == grouped(s)[j].2,
    decreases s.len(),
{
    let p = s.drop_last();
    let r = s.last();
    let acc = grouped(p);
    let out = grouped(s);
    let g = out[j];
    assert(s.len() > 0) by {
        if s.len() == 0 {
            assert(grouped(s).len() == 0);
        }
    }
    assert(out == group_step(acc, r));
    assert(p.push(r) =~= s);
    lemma_group_from_found(acc, r, 0);
    lemma_grouped_distinct(p);
    lemma_same_outcome_facts(r, g, g);
    if j < acc.len() {
        let a = acc[j];
        assert(g.0 == a.0 && g.1 == a.1 && g.2 == a.2);
        assert(groupable(a));
        lemma_same_outcome_facts(g, a, a);
        lemma_grouped_placements(p, j);
        let pred = with_outcome(g);
        assert(p.filter(pred).len() > 0);
        let hit = groupable(r) && group_from(acc, r, 0) == Some(j);
        if hit {
            assert(same_outcome(a, r));
            lemma_same_outcome_facts(a, r, r);
            assert(pred(r));
            p.lemma_filter_push(r, pred);
            assert(s.filter(pred) == p.filter(pred).push(r));
            assert(placements_of(p.filter(pred).push(r)) =~= placements_of(p.filter(pred)).push(r.2));
            assert(s.filter(pred)[0] == p.filter(pred)[0]);
        } else {
            if groupable(r) && same_outcome(r, g) {
                lemma_same_outcome_facts(r, a, a);
                lemma_same_outcome_facts(a, r, r);
                match group_from(acc, r, 0) {
                    Some(i) => {
                        lemma_same_outcome_facts(acc[i], r, a);
                        if i < j {
                            assert(!same_outcome(acc[i], acc[j]));
                        } else {
                            lemma_same_outcome_facts(acc[j], acc[i], acc[i]);
                            assert(!same_outcome(acc[j], acc[i]));
                        }
                    },
                    None => {
                        assert(!(groupable(acc[j]) && same_outcome(acc[j], r)));
                    },
                }
            }
            assert(!pred(r));
            p.lemma_filter_push(r, pred);
            assert(s.filter(pred) == p.filter(pred));
            assert(g.3 == a.3);
        }
    } else {
        assert(groupable(r) && group_from(acc, r, 0) is None);
        assert(g == (r.0, r.1, r.2, seq![r.2]));
        let pred = with_outcome(g);
        assert forall|i: int| 0 <= i < p.len() implies !pred(#[trigger] p[i]) by {
            if pred(p[i]) {
                lemma_grouped_keeps_placements(p, i);
                let gg = choose|gg: int|
                    0 <= gg < acc.len() && groupable(#[trigger] acc[gg]) && same_outcome(acc[gg], p[i])
                        && acc[gg].3.contains(p[i].2);
                lemma_same_outcome_facts(acc[gg], p[i], g);
                lemma_same_outcome_facts(acc[gg], g, r);
                lemma_same_outcome_facts(g, r, r);
                assert(same_outcome(acc[gg], r));
            }
        }
        lemma_filter_none(p, pred);
        lemma_same_outcome_facts(r, r, r);
        assert(pred(r));
        p.lemma_filter_push(r, pred);
        assert(s.filter(pred) == p.filter(pred).push(r));
        assert(s.filter(pred) =~= seq![r]);
        assert(placements_of(seq![r]) =~= seq![r.2]);
    }
}

/// The values of a run of search results.
pub open spec fn views(s: Seq<BfsResult>) -> Seq<ResultView> {
    s.map_values(|x: BfsResult| result_view(x))
}

/// Every remembered key belongs to a groupable entry of `d` and is the key of
/// its outcome.
spec fn seen_ok(seen: Seq<(BfsResultKey, usize)>, d: Seq<BfsResult>) -> bool {
    forall|j: int|
        0 <= j < seen.len() ==> {
            let e = (#[trigger] seen[j]).1 as int;
            &&& e < d.len()
            &&& groupable(result_view(d[e]))
            &&& key_of(seen[j].0, d[e].board.unwrap(), d[e].stats.unwrap())
        }
}

/// Whether some remembered key points at entry `i`.
spec fn remembered(seen: Seq<(BfsResultKey, usize)>, i: int) -> bool {
    exists|j: int| 0 <= j < seen.len() && (#[trigger] seen[j]).1 == i
}

/// Every groupable entry of `d` has its key remembered.
spec fn all_remembered(seen: Seq<(BfsResultKey, usize)>, d: Seq<BfsResult>) -> bool {
    forall|i: int| 0 <= i < d.len() && groupable(result_view(#[trigger] d[i])) ==> remembered(seen, i)
}

proof fn lemma_grouped_take(input: Seq<ResultView>, k: int)
    requires
        0 <= k < input.len(),
    ensures
        grouped(input.take(k + 1)) == group_step(grouped(input.take(k)), input[k]),
{
    assert(input.take(k + 1).drop_last() =~= input.take(k));
}

/// Merges search results that lead to the same board and score. Results
/// without a board or score, and the skip option, are kept as they are;
/// the first result of each outcome is kept, its placement list starting
/// with its own placement, and every later result of that outcome adds its
/// placement to that list and is dropped.
pub fn dedupe_bfs_results(results: Vec<BfsResult>) -> (r: Vec<BfsResult>)
    ensures
        views(r@) == grouped(views(results@)),
{
    let ghost input = views(results@);
    let mut rest = results;
    let mut deduped: Vec<BfsResult> = Vec::new();
    let mut seen: Vec<(BfsResultKey, usize)> = Vec::new();
    let ghost mut k: int = 0;
    proof {
        assert(views(rest@) =~= input.skip(0));
        assert(input.take(0) =~= Seq::<ResultView>::empty());
        assert(views(deduped@) =~= Seq::<ResultView>::empty());
    }
    while rest.len() > 0
        invariant
            0 <= k <= input.len(),
            views(rest@) == input.skip(k),
            views(deduped@) == grouped(input.take(k)),
            outcomes_distinct(views(deduped@)),
            seen_ok(seen@, deduped@),
            all_remembered(seen@, deduped@),
        decreases rest@.len(),
    {
        let ghost before = deduped@;
        let ghost old_rest = rest@;
        let ghost old_seen = seen@;
        proof {
            assert(views(old_rest).len() == old_rest.len());
            assert(k < input.len());
        }
        let result = rest.remove(0);
        proof {
            assert(input.skip(k)[0] == input[k]);
            assert(views(old_rest)[0] == result_view(old_rest[0]));
            assert forall|i: int| 0 <= i < rest@.len() implies #[trigger] views(rest@)[i] == input.skip(k + 1)[i] by {
                assert(rest@[i] == old_rest[i + 1]);
                assert(views(old_rest)[i + 1] == input.skip(k)[i + 1]);
            }
            assert(views(rest@) =~= input.skip(k + 1));
            lemma_grouped_take(input, k);
            assert(input[k] == result_view(result));
        }
        let placed = match result.placement {
            PlacementRecord::Placed { .. } => true,
            PlacementRecord::Skip => false,
        };
        if result.board.is_some() && result.stats.is_some() && placed {
            let board = result.board.unwrap();
            let key = BfsResultKey::from_board_stats(&board, result.stats.as_ref().unwrap());
            let mut found: Option<usize> = None;
            let mut j: usize = 0;
            while j < seen.len() && found.is_none()
                invariant
                    j <= seen@.len(),
                    found is None ==> forall|jj: int| 0 <= jj < j ==> !keys_same(#[trigger] seen@[jj].0, key),
                    found matches Some(e) ==> exists|jj: int| 0 <= jj < seen@.len() && (#[trigger] seen@[jj]).1 == e
                        && keys_same(seen@[jj].0, key),
                decreases seen@.len() - j,
            {
                if seen[j].0.same_key(&key) {
                    found = Some(seen[j].1);
                }
                j += 1;
            }
            match found {
                Some(e) => {
                    proof {
                        let jj = choose|jj: int| 0 <= jj < seen@.len() && (#[trigger] seen@[jj]).1 == e
                            && keys_same(seen@[jj].0, key);
                        let de = deduped@[e as int];
                        assert(seen_ok(seen@, deduped@));
                        assert(key_of(seen@[jj].0, de.board.unwrap(), de.stats.unwrap()));
                        lemma_keys_same_iff_outcomes_same(seen@[jj].0, key, de.board.unwrap(), de.stats.unwrap(), board, result.stats.unwrap());
                        let acc = views(before);
                        assert(acc[e as int] == result_view(de));
                        assert(same_outcome(acc[e as int], result_view(result)));
                        assert forall|i: int| 0 <= i < acc.len() && i != e as int implies !(groupable(#[trigger] acc[i]) && same_outcome(acc[i], result_view(result))) by {
                            if groupable(acc[i]) && same_outcome(acc[i], result_view(result)) {
                                if i < e as int {
                                    assert(!same_outcome(acc[i], acc[e as int]));
                                } else {
                                    assert(!same_outcome(acc[e as int], acc[i]));
                                }
                            }
                        }
                        lemma_group_from_unique(acc, result_view(result), 0, e as int);
                    }
                    deduped[e].placements.push(result.placement);
                    proof {
                        let acc = views(before);
                        assert(views(deduped@) =~= acc.update(e as int, (acc[e as int].0, acc[e as int].1, acc[e as int].2, acc[e as int].3.push(result.placement))));
                        assert forall|j2: int| 0 <= j2 < seen@.len() implies {
                            let ee = (#[trigger] seen@[j2]).1 as int;
                            &&& ee < deduped@.len()
                            &&& groupable(result_view(deduped@[ee]))
                            &&& key_of(seen@[j2].0, deduped@[ee].board.unwrap(), deduped@[ee].stats.unwrap())
                        } by {
                            assert(seen_ok(seen@, before));
                        }
                        assert forall|i: int| 0 <= i < deduped@.len() && groupable(result_view(#[trigger] deduped@[i])) implies remembered(seen@, i) by {
                            assert(groupable(result_view(before[i])));
                        }
                    }
                },
                None => {
                    proof {
                        let acc = views(before);
                        assert forall|i: int| 0 <= i < acc.len() implies !(groupable(#[trigger] acc[i]) && same_outcome(acc[i], result_view(result))) by {
                            if groupable(acc[i]) && same_outcome(acc[i], result_view(result)) {
                                assert(acc[i] == result_view(before[i]));
                                assert(remembered(seen@, i));
                                let jj = choose|jj: int| 0 <= jj < seen@.len() && (#[trigger] seen@[jj]).1 == i;
                                assert(key_of(seen@[jj].0, before[i].board.unwrap(), before[i].stats.unwrap()));
                                lemma_keys_same_iff_outcomes_same(seen@[jj].0, key, before[i].board.unwrap(), before[i].stats.unwrap(), board, result.stats.unwrap());
                            }
                        }
                        lemma_group_from_none(acc, result_view(result), 0);
                    }
                    let mut result = result;
                    let mut own: Vec<PlacementRecord> = Vec::new();
                    own.push(result.placement);
                    result.placements = own;
                    let n = deduped.len();
                    seen.push((key, n));
                    deduped.push(result);
                    proof {
                        let acc = views(before);
                        assert(views(deduped@) =~= acc.push((result.board, result.stats, result.placement, seq![result.placement])));
                        assert forall|j2: int| 0 <= j2 < seen@.len() implies {
                            let ee = (#[trigger] seen@[j2]).1 as int;
                            &&& ee < deduped@.len()
                            &&& groupable(result_view(deduped@[ee]))
                            &&& key_of(seen@[j2].0, deduped@[ee].board.unwrap(), deduped@[ee].stats.unwrap())
                        } by {
                            if j2 < seen@.len() - 1 {
                                assert(seen_ok(old_seen, before));
                                assert(old_seen[j2] == seen@[j2]);
                            }
                        }
                        assert forall|i: int| 0 <= i < deduped@.len() && groupable(result_view(#[trigger] deduped@[i])) implies remembered(seen@, i) by {
                            if i < n {
                                assert(groupable(result_view(before[i])));
                                assert(remembered(old_seen, i));
                                let jj = choose|jj: int| 0 <= jj < old_seen.len() && (#[trigger] old_seen[jj]).1 == i;
                                assert(seen@[jj] == old_seen[jj]);
                                assert(seen@[jj].1 == i);
                            } else {
                                assert(seen@[seen@.len() - 1].1 == i);
                            }
                        }
                        let d2 = views(deduped@);
                        assert forall|i: int, j2: int| 0 <= i < j2 < d2.len() && groupable(#[trigger] d2[i]) && groupable(#[trigger] d2[j2]) implies !same_outcome(d2[i], d2[j2]) by {
                            if j2 < n {
                                assert(d2[i] == acc[i] && d2[j2] == acc[j2]);
                            } else {
                                assert(d2[i] == acc[i]);
                            }
                        }
                    }
                },
            }
        } else {
            proof {
                assert(!groupable(result_view(result)));
            }
            deduped.push(result);
            proof {
                let acc = views(before);
                assert(views(deduped@) =~= acc.push(result_view(result)));
                assert forall|j2: int| 0 <= j2 < seen@.len() implies {
                    let ee = (#[trigger] seen@[j2]).1 as int;
                    &&& ee < deduped@.len()
                    &&& groupable(result_view(deduped@[ee]))
                    &&& key_of(seen@[j2].0, deduped@[ee].board.unwrap(), deduped@[ee].stats.unwrap())
                } by {
                    assert(seen_ok(seen@, before));
                }
                assert forall|i: int| 0 <= i < deduped@.len() && groupable(result_view(#[trigger] deduped@[i])) implies remembered(seen@, i) by {
                    assert(i < before.len());
                    assert(groupable(result_view(before[i])));
                }
                let d2 = views(deduped@);
                assert forall|i: int, j2: int| 0 <= i < j2 < d2.len() && groupable(#[trigger] d2[i]) && groupable(#[trigger] d2[j2]) implies !same_outcome(d2[i], d2[j2]) by {
                    assert(d2[i] == acc[i] && d2[j2] == acc[j2]);
                }
            }
        }
        proof {
            k = k + 1;
        }
    }
    proof {
        assert(input.take(k) =~= input);
    }
    deduped
}

} // verus!
