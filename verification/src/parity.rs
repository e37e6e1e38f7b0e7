use vstd::prelude::*;

use crate::bfs::PlacementRecord;
use crate::board::Board;
use crate::engine::TetrisEngine;
use crate::garbage::GarbageBatch;
use crate::piece::{Piece, PieceKind};
use crate::scoring::{B2BMode, SpinMode, SpinResult};
use crate::text::str_equal;

verus! {

/// A recorded engine state from which an engine is rebuilt; absent entries
/// take the defaults of a fresh engine.
#[derive(Clone, Debug, PartialEq, Eq)]
pub struct EngineStateFixture {
    pub seed: Option<u64>,
    pub spin_mode: Option<String>,
    pub b2b_mode: Option<String>,
    pub board: Vec<i8>,
    pub current_piece: Option<Piece>,
    pub bag: Vec<i8>,
    pub hold: Option<i8>,
    pub hold_locked: bool,
    pub bag_size: Option<usize>,
    pub b2b_chain: i32,
    pub surge_charge: i32,
    pub combo: i32,
    pub combo_active: bool,
    pub game_over: bool,
    pub game_over_reason: Option<String>,
    pub last_spawn_was_clutch: bool,
    pub pieces_placed: i32,
    pub total_lines_cleared: i32,
    pub total_attack_sent: i32,
    pub total_attack_canceled: i32,
    pub incoming_garbage: Vec<GarbageBatch>,
    pub garbage_col: Option<u8>,
}

impl Default for EngineStateFixture {
    fn default() -> (r: Self)
        ensures
            r.seed is None,
            r.spin_mode is None,
            r.b2b_mode is None,
            r.board@.len() == 0,
            r.current_piece is None,
            r.bag@.len() == 0,
            r.hold is None,
            !r.hold_locked,
            r.bag_size is None,
            r.b2b_chain == 0,
            r.surge_charge == 0,
            r.combo == 0,
            !r.combo_active,
            !r.game_over,
            r.game_over_reason is None,
            !r.last_spawn_was_clutch,
            r.pieces_placed == 0,
            r.total_lines_cleared == 0,
            r.total_attack_sent == 0,
            r.total_attack_canceled == 0,
            r.incoming_garbage@.len() == 0,
            r.garbage_col is None,
    {
        EngineStateFixture {
            seed: None,
            spin_mode: None,
            b2b_mode: None,
            board: Vec::new(),
            current_piece: None,
            bag: Vec::new(),
            hold: None,
            hold_locked: false,
            bag_size: None,
            b2b_chain: 0,
            surge_charge: 0,
            combo: 0,
            combo_active: false,
            game_over: false,
            game_over_reason: None,
            last_spawn_was_clutch: false,
            pieces_placed: 0,
            total_lines_cleared: 0,
            total_attack_sent: 0,
            total_attack_canceled: 0,
            incoming_garbage: Vec::new(),
            garbage_col: None,
        }
    }
}

/// A recorded spin, its type given by name.
#[derive(Clone, Debug, PartialEq, Eq)]
pub struct SpinResultFixture {
    pub piece: PieceKind,
    pub spin_type: String,
    pub is_mini: bool,
    pub is_180: bool,
    pub kick_index: Option<u8>,
    pub rotation_dir: Option<i8>,
    pub corners: Option<u8>,
    pub front_corners: Option<u8>,
    pub description: String,
}

/// The spin type a recorded name stands for: "t-spin" for "t-spin", "spin"
/// for anything else.
pub open spec fn spin_type_named(name: Seq<char>) -> Seq<char> {
    if name == "t-spin"@ {
        "t-spin"@
    } else {
        "spin"@
    }
}

fn spin_type_str(value: &str) -> (r: &'static str)
    ensures
        r@ == spin_type_named(value@),
{
    if str_equal(value, "t-spin") {
        "t-spin"
    } else {
        "spin"
    }
}

impl SpinResultFixture {
    /// The spin this record describes.
    pub fn to_runtime(&self) -> (r: SpinResult)
        ensures
            r.piece == self.piece,
            r.spin_type@ == spin_type_named(self.spin_type@),
            r.is_mini == self.is_mini,
            r.is_180 == self.is_180,
            r.kick_index == self.kick_index,
            r.rotation_dir == self.rotation_dir,
            r.corners == self.corners,
            r.front_corners == self.front_corners,
            r.description == self.description,
    {
        SpinResult {
            piece: self.piece,
            spin_type: spin_type_str(self.spin_type.as_str()),
            is_mini: self.is_mini,
            is_180: self.is_180,
            kick_index: self.kick_index,
            rotation_dir: self.rotation_dir,
            corners: self.corners,
            front_corners: self.front_corners,
            description: self.description.clone(),
        }
    }
}

/// A board from its 400 cells in row-major order.
pub fn board_from_flat(flat: &[i8]) -> (r: Board)
    requires
        flat@.len() == 400,
    ensures
        r@ == flat@,
{
    let mut board: Board = [0i8; 400];
    let mut i: usize = 0;
    while i < 400
        invariant
            flat@.len() == 400,
            i <= 400,
            forall|j: int| 0 <= j < i ==> board[j] == flat@[j],
        decreases 400 - i,
    {
        board[i] = flat[i];
        i += 1;
    }
    assert(board@ =~= flat@);
    board
}

fn copy_text(value: &Option<String>) -> (r: Option<String>)
    ensures
        r == *value,
{
    match value {
        Some(s) => Some(s.clone()),
        None => None,
    }
}

fn copy_ids(ids: &Vec<i8>) -> (r: Vec<i8>)
    ensures
        r@ == ids@,
{
    let mut out: Vec<i8> = Vec::new();
    let mut i: usize = 0;
    while i < ids.len()
        invariant
            i <= ids@.len(),
            out@ == ids@.take(i as int),
        decreases ids@.len() - i,
    {
        out.push(ids[i]);
        assert(out@ =~= ids@.take(i + 1));
        i += 1;
    }
    assert(ids@.take(ids@.len() as int) =~= ids@);
    out
}

fn copy_batches(batches: &Vec<GarbageBatch>) -> (r: Vec<GarbageBatch>)
    ensures
        r@ == batches@,
{
    let mut out: Vec<GarbageBatch> = Vec::new();
    let mut i: usize = 0;
    while i < batches.len()
        invariant
            i <= batches@.len(),
            out@ == batches@.take(i as int),
        decreases batches@.len() - i,
    {
        out.push(batches[i]);
        assert(out@ =~= batches@.take(i + 1));
        i += 1;
    }
    assert(batches@.take(batches@.len() as int) =~= batches@);
    out
}

/// Whether a recorded mode name selects the T-only spin rule.
pub open spec fn names_t_only(mode: Option<String>) -> bool {
    mode matches Some(m) && m@ == "t_only"@
}

/// Whether a recorded mode name selects chaining back-to-back.
pub open spec fn names_chaining(mode: Option<String>) -> bool {
    mode matches Some(m) && m@ == "chaining"@
}

/// An engine in the recorded state: seeded from the seed (0 when absent), in
/// the named modes ("t_only" and "chaining" select those, anything else the
/// defaults), with the recorded board (empty when none is recorded), pieces,
/// queue, counters and garbage, and no last-clear records.
pub fn engine_from_fixture(state: &EngineStateFixture) -> (r: TetrisEngine)
    requires
        state.board@.len() == 0 || state.board@.len() == 400,
    ensures
        r.spin_mode == (if names_t_only(state.spin_mode) { SpinMode::TOnly } else { SpinMode::AllSpin }),
        r.b2b_mode == (if names_chaining(state.b2b_mode) { B2BMode::Chaining } else { B2BMode::Surge }),
        state.board@.len() == 400 ==> r.board@ == state.board@,
        state.board@.len() == 0 ==> forall|i: int| 0 <= i < 400 ==> r.board@[i] == 0,
        r.current_piece == state.current_piece,
        r.bag@ == state.bag@,
        r.hold == state.hold,
        r.hold_locked == state.hold_locked,
        r.bag_size == (match state.bag_size {
            Some(n) => n,
            None => state.bag@.len() as usize,
        }),
        r.b2b_chain == state.b2b_chain,
        r.surge_charge == state.surge_charge,
        r.combo == state.combo,
        r.combo_active == state.combo_active,
        r.game_over == state.game_over,
        r.game_over_reason == state.game_over_reason,
        r.last_spawn_was_clutch == state.last_spawn_was_clutch,
        r.pieces_placed == state.pieces_placed,
        r.total_lines_cleared == state.total_lines_cleared,
        r.total_attack_sent == state.total_attack_sent,
        r.total_attack_canceled == state.total_attack_canceled,
        r.incoming_garbage@ == state.incoming_garbage@,
        r.garbage_col == state.garbage_col,
        r.last_clear_stats is None,
        r.last_end_phase is None,
        r.rng.seed() == (match state.seed {
            Some(seed) => seed,
            None => 0,
        }),
{
    let spin_mode = match &state.spin_mode {
        Some(m) => if str_equal(m.as_str(), "t_only") { SpinMode::TOnly } else { SpinMode::AllSpin },
        None => SpinMode::AllSpin,
    };
    let b2b_mode = match &state.b2b_mode {
        Some(m) => if str_equal(m.as_str(), "chaining") { B2BMode::Chaining } else { B2BMode::Surge },
        None => B2BMode::Surge,
    };
    let seed = match state.seed {
        Some(s) => s,
        None => 0,
    };
    let mut engine = TetrisEngine::with_seed_and_modes(seed, spin_mode, b2b_mode);
    if state.board.len() > 0 {
        engine.board = board_from_flat(state.board.as_slice());
    } else {
        engine.board = [0i8; 400];
    }
    engine.current_piece = state.current_piece;
    engine.bag = copy_ids(&state.bag);
    engine.hold = state.hold;
    engine.hold_locked = state.hold_locked;
    engine.bag_size = match state.bag_size {
        Some(n) => n,
        None => engine.bag.len(),
    };
    engine.b2b_chain = state.b2b_chain;
    engine.surge_charge = state.surge_charge;
    engine.combo = state.combo;
    engine.combo_active = state.combo_active;
    engine.game_over = state.game_over;
    engine.game_over_reason = copy_text(&state.game_over_reason);
    engine.last_spawn_was_clutch = state.last_spawn_was_clutch;
    engine.pieces_placed = state.pieces_placed;
    engine.total_lines_cleared = state.total_lines_cleared;
    engine.total_attack_sent = state.total_attack_sent;
    engine.total_attack_canceled = state.total_attack_canceled;
    engine.incoming_garbage = copy_batches(&state.incoming_garbage);
    engine.garbage_col = state.garbage_col;
    engine.last_clear_stats = None;
    engine.last_end_phase = None;
    engine
}

/// The key by which placements are listed.
pub type SortKey = (u8, i16, i16, i8, i16);

/// The listing key of a placement: rotation, row, column, last rotation
/// direction (none first) and kick index (none last); the skip option after
/// every placement.
pub open spec fn placement_key(placement: PlacementRecord) -> SortKey {
    match placement {
        PlacementRecord::Skip => (u8::MAX, i16::MAX, i16::MAX, i8::MAX, i16::MAX),
        PlacementRecord::Placed { rotation, y, x, last_rot_dir, last_kick_idx, .. } => (
            rotation,
            y,
            x,
            match last_rot_dir {
                Some(d) => d,
                None => i8::MIN,
            },
            match last_kick_idx {
                Some(k) => k as i16,
                None => u8::MAX as i16,
            },
        ),
    }
}

/// The order in which placements are listed: by rotation, row, column, last
/// rotation direction (none first) and kick index (none last); the skip
/// option after every placement.
pub fn placement_sort_key(placement: &PlacementRecord) -> (r: SortKey)
    ensures
        r == placement_key(*placement),
{
    match placement {
        PlacementRecord::Skip => (u8::MAX, i16::MAX, i16::MAX, i8::MAX, i16::MAX),
        PlacementRecord::Placed { rotation, y, x, last_rot_dir, last_kick_idx, .. } => (
            *rotation,
            *y,
            *x,
            match last_rot_dir {
                Some(d) => *d,
                None => i8::MIN,
            },
            match last_kick_idx {
                Some(k) => *k as i16,
                None => u8::MAX as i16,
            },
        ),
    }
}

} // verus!
