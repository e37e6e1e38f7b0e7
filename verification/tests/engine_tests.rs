use tetris_engine::engine::kind_index;
use tetris_engine::{board_index, BOARD_HEIGHT, BOARD_WIDTH, SPAWN_X, SPAWN_Y};
use tetris_engine::{
    B2BMode, BagRemainderCounts, EndPhaseResult, EngineRng, Piece, PieceKind, QueueSnapshot,
    SpinMode, TetrisEngine,
};

fn set_board_cell(engine: &mut TetrisEngine, x: i16, y: i16, value: i8) {
    let index = board_index(x, y).expect("test coordinates must be in bounds");
    engine.board[index] = value;
}

#[test]
fn default_engine_starts_with_phase_two_defaults_and_prefilled_bag() {
    let engine = TetrisEngine::default();

    assert_eq!(engine.board, [0; BOARD_WIDTH * BOARD_HEIGHT]);
    assert_eq!(engine.current_piece, None);
    assert_eq!(engine.hold, None);
    assert!(!engine.hold_locked);
    assert!(!engine.game_over);
    assert_eq!(engine.game_over_reason, None);
    assert!(!engine.last_spawn_was_clutch);
    assert!(engine.bag.len() > 14);
    assert_eq!(engine.bag_size, engine.bag.len());
}

#[test]
fn reset_restores_phase_two_defaults_and_regenerates_bag() {
    let mut engine = TetrisEngine::with_seed(4);
    set_board_cell(&mut engine, 0, 0, 9);
    engine.current_piece = Some(Piece::new(PieceKind::T, 0, (3, 0)));
    engine.hold = Some(1);
    engine.hold_locked = true;
    engine.bag = vec![1];
    engine.bag_size = 1;
    engine.game_over = true;
    engine.game_over_reason = Some("block_out".to_string());
    engine.last_spawn_was_clutch = true;

    engine.reset();

    assert_eq!(engine.board, [0; BOARD_WIDTH * BOARD_HEIGHT]);
    assert_eq!(engine.current_piece, None);
    assert_eq!(engine.hold, None);
    assert!(!engine.hold_locked);
    assert!(!engine.game_over);
    assert_eq!(engine.game_over_reason, None);
    assert!(!engine.last_spawn_was_clutch);
    assert!(engine.bag.len() > 14);
    assert_eq!(engine.bag_size, engine.bag.len());
}

#[test]
fn spawn_position_and_first_bag_match_phase_two_contract() {
    let engine = TetrisEngine::with_seed(1);
    let mut first_bag = engine.bag[..7].to_vec();

    first_bag.sort_unstable();

    assert_eq!(engine.spawn_position_for(None), (SPAWN_X, SPAWN_Y));
    assert_eq!(first_bag, vec![1, 2, 3, 4, 5, 6, 7]);
}

#[test]
fn pop_next_piece_id_replenishes_when_queue_runs_short() {
    let mut engine = TetrisEngine::with_seed(2);
    engine.bag = vec![1];
    engine.bag_size = 1;

    let first_piece = engine.pop_next_piece_id();

    assert_eq!(first_piece, 1);
    assert!(engine.bag_size > 14);
}

#[test]
fn queue_snapshot_matches_python_shape_and_identity_fields() {
    let mut engine = TetrisEngine::with_seed(2);
    engine.current_piece = Some(Piece::new(PieceKind::T, 0, (3, 0)));
    engine.hold = Some(1);

    let snapshot = engine.get_queue_snapshot(3);

    assert_eq!(snapshot.current, Some(PieceKind::T));
    assert_eq!(snapshot.hold, Some(PieceKind::I));
    assert_eq!(snapshot.next_ids.len(), 3);
    assert_eq!(snapshot.piece_ids.len(), 5);
}

#[test]
fn hold_current_stashes_piece_and_spawns_next_from_bag() {
    let mut engine = TetrisEngine::with_seed(3);
    engine.current_piece = Some(Piece::new(PieceKind::T, 0, (3, 0)));
    engine.bag = vec![1, 2, 3];
    engine.bag_size = engine.bag.len();

    assert!(engine.hold_current());
    assert_eq!(engine.hold, Some(3));
    assert_eq!(
        engine.current_piece.map(|piece| piece.kind),
        Some(PieceKind::I)
    );
    assert_eq!(
        engine.current_piece.map(|piece| piece.position),
        Some((SPAWN_X, SPAWN_Y))
    );
    assert_eq!(engine.current_piece.map(|piece| piece.rotation), Some(0));
    assert!(engine.hold_locked);
}

#[test]
fn hold_current_swaps_with_held_piece_and_is_single_use_per_turn() {
    let mut engine = TetrisEngine::with_seed(4);
    engine.current_piece = Some(Piece::new(PieceKind::T, 0, (3, 0)));
    engine.hold = Some(1);

    assert!(engine.hold_current());
    assert_eq!(engine.hold, Some(3));
    assert_eq!(
        engine.current_piece.map(|piece| piece.kind),
        Some(PieceKind::I)
    );
    assert!(engine.hold_locked);

    let current_kind = engine.current_piece.map(|piece| piece.kind);
    let held_id = engine.hold;
    assert!(!engine.hold_current());
    assert_eq!(engine.current_piece.map(|piece| piece.kind), current_kind);
    assert_eq!(engine.hold, held_id);
}

#[test]
fn successful_normal_spawn_is_not_marked_as_clutch() {
    let mut engine = TetrisEngine::with_seed(5);

    assert!(engine.spawn_specific_piece_id(1, false));
    assert_eq!(
        engine.current_piece.map(|piece| piece.kind),
        Some(PieceKind::I)
    );
    assert_eq!(
        engine.current_piece.map(|piece| piece.position),
        Some((SPAWN_X, SPAWN_Y))
    );
    assert!(!engine.last_spawn_was_clutch);
    assert!(!engine.game_over);
}

#[test]
fn blocked_spawn_can_use_clutch_to_find_the_first_valid_higher_row() {
    let mut engine = TetrisEngine::with_seed(6);
    set_board_cell(&mut engine, 3, 19, 9);

    assert!(engine.spawn_specific_piece_id(1, true));
    assert_eq!(
        engine.current_piece.map(|piece| piece.kind),
        Some(PieceKind::I)
    );
    assert_eq!(
        engine.current_piece.map(|piece| piece.position),
        Some((3, 17))
    );
    assert!(engine.last_spawn_was_clutch);
    assert!(!engine.game_over);
}

#[test]
fn blocked_spawn_without_any_clutch_path_sets_block_out() {
    let mut engine = TetrisEngine::with_seed(7);
    for y in 1..=19 {
        set_board_cell(&mut engine, 3, y, 9);
    }

    assert!(!engine.spawn_specific_piece_id(1, true));
    assert_eq!(engine.current_piece, None);
    assert!(engine.game_over);
    assert_eq!(engine.game_over_reason.as_deref(), Some("block_out"));
}

#[test]
fn end_phase_uses_clutch_spawn_when_spawn_row_is_blocked() {
    let mut engine = TetrisEngine::with_seed(8);
    set_board_cell(&mut engine, 3, 19, 9);
    engine.bag = vec![1, 2, 3];
    engine.bag_size = engine.bag.len();

    let result = engine.end_phase(1);

    assert_eq!(
        result,
        EndPhaseResult {
            lines_cleared: 1,
            spawned: true,
            clutch_clear: true,
            game_over: false,
            reason: None,
        }
    );
    assert_eq!(
        engine.current_piece.map(|piece| piece.kind),
        Some(PieceKind::I)
    );
    assert_eq!(
        engine.current_piece.map(|piece| piece.position),
        Some((3, 17))
    );
}

#[test]
fn successful_spawn_resets_hold_lock() {
    let mut engine = TetrisEngine::with_seed(9);
    engine.hold_locked = true;

    assert!(engine.spawn_specific_piece_id(1, false));
    assert!(!engine.hold_locked);
}

#[test]
fn empty_bag_has_zero_remainder_counts() {
    let engine = TetrisEngine {
        board: [0; BOARD_WIDTH * BOARD_HEIGHT],
        current_piece: None,
        bag: Vec::new(),
        hold: None,
        hold_locked: false,
        bag_size: 0,
        game_over: false,
        game_over_reason: None,
        last_spawn_was_clutch: false,
        rng: EngineRng::seeded(0),
        spin_mode: SpinMode::AllSpin,
        b2b_mode: B2BMode::Surge,
        b2b_chain: 0,
        surge_charge: 0,
        combo: 0,
        combo_active: false,
        pieces_placed: 0,
        total_lines_cleared: 0,
        total_attack_sent: 0,
        total_attack_canceled: 0,
        incoming_garbage: Vec::new(),
        garbage_col: None,
        last_clear_stats: None,
        last_end_phase: None,
    };

    assert_eq!(
        engine.get_bag_remainder_counts(),
        BagRemainderCounts {
            counts: [0; 7],
            remaining: 0,
            bag_position: 0,
        }
    );
}

#[test]
fn full_bag_boundary_counts_use_one_full_bag_when_no_piece_is_active() {
    let mut engine = TetrisEngine::with_seed(10);
    engine.current_piece = None;
    engine.bag = vec![1, 2, 3, 4, 5, 6, 7, 1, 2, 3, 4, 5, 6, 7];
    engine.bag_size = engine.bag.len();

    let remainder = engine.get_bag_remainder_counts();

    assert_eq!(
        remainder,
        BagRemainderCounts {
            counts: [1, 1, 1, 1, 1, 1, 1],
            remaining: 7,
            bag_position: 0,
        }
    );
}

#[test]
fn active_piece_remainder_counts_track_current_bag_position() {
    let mut engine = TetrisEngine::with_seed(11);
    engine.current_piece = Some(Piece::new(PieceKind::T, 0, (3, 0)));
    engine.bag = vec![1, 2, 3, 4, 5, 6, 7, 1, 2];
    engine.bag_size = engine.bag.len();

    let remainder = engine.get_bag_remainder_counts();

    assert_eq!(
        remainder,
        BagRemainderCounts {
            counts: [1, 1, 0, 0, 0, 0, 0],
            remaining: 2,
            bag_position: 5,
        }
    );
}

#[test]
fn public_payload_types_are_constructible_with_expected_shapes() {
    let snapshot = QueueSnapshot {
        current: Some(PieceKind::I),
        hold: None,
        next_ids: vec![2, 3],
        next_kinds: vec![PieceKind::O, PieceKind::T],
        piece_ids: vec![1, 0, 2, 3],
    };
    let result = EndPhaseResult {
        lines_cleared: 0,
        spawned: true,
        clutch_clear: false,
        game_over: false,
        reason: None,
    };

    assert_eq!(snapshot.piece_ids.len(), 4);
    assert!(result.spawned);
    assert_eq!(kind_index(PieceKind::L), 6);
    assert_eq!(BOARD_HEIGHT, 40);
}

fn sorted(mut ids: Vec<i8>) -> Vec<i8> {
    ids.sort_unstable();
    ids
}

#[test]
fn fresh_queue_is_made_of_whole_shuffled_bags() {
    for seed in [0u64, 1, 2, 3, 99] {
        let engine = TetrisEngine::with_seed(seed);
        assert_eq!(engine.bag.len(), 21);
        for bag in engine.bag.chunks(7) {
            assert_eq!(sorted(bag.to_vec()), vec![1, 2, 3, 4, 5, 6, 7]);
        }
    }
}

#[test]
fn generate_bag_keeps_the_queue_and_appends_whole_bags() {
    let mut engine = TetrisEngine::with_seed(12);
    engine.bag = vec![5, 6];
    engine.bag_size = 2;
    let queue = engine.generate_bag().to_vec();
    assert_eq!(&queue[..2], &[5, 6]);
    assert_eq!(queue.len(), 16);
    assert_eq!(engine.bag_size, 16);
    for bag in queue[2..].chunks(7) {
        assert_eq!(sorted(bag.to_vec()), vec![1, 2, 3, 4, 5, 6, 7]);
    }
    let before = engine.bag.clone();
    engine.generate_bag();
    assert_eq!(engine.bag, before);
}

#[test]
fn seeded_engines_deal_the_same_queue() {
    let left = TetrisEngine::with_seed(42);
    let right = TetrisEngine::with_seed(42);
    assert_eq!(left.bag, right.bag);
}

#[test]
fn reset_keeps_modes_streaks_and_totals() {
    let mut engine = TetrisEngine::with_seed_and_modes(3, SpinMode::TOnly, B2BMode::Chaining);
    assert_eq!(engine.spin_mode, SpinMode::TOnly);
    assert_eq!(engine.b2b_mode, B2BMode::Chaining);
    engine.b2b_chain = 4;
    engine.combo = 2;
    engine.total_attack_sent = 9;
    engine.garbage_col = Some(3);
    engine.reset();
    assert_eq!(engine.spin_mode, SpinMode::TOnly);
    assert_eq!(engine.b2b_mode, B2BMode::Chaining);
    assert_eq!(engine.b2b_chain, 4);
    assert_eq!(engine.combo, 2);
    assert_eq!(engine.total_attack_sent, 9);
    assert_eq!(engine.garbage_col, None);
    assert_eq!(engine.bag.len(), 21);
}

#[test]
fn spawn_next_deals_the_front_of_the_queue() {
    let mut engine = TetrisEngine::with_seed(13);
    let front = engine.bag[0];
    assert!(engine.spawn_next(false));
    assert_eq!(
        engine.current_piece.map(|piece| piece.kind),
        tetris_engine::piece_kind_from_id(front)
    );
    assert_eq!(engine.bag.len(), 20);
}

#[test]
fn spawn_next_does_nothing_after_game_over() {
    let mut engine = TetrisEngine::with_seed(14);
    engine.game_over = true;
    let bag = engine.bag.clone();
    assert!(!engine.spawn_next(true));
    assert_eq!(engine.bag, bag);
    assert_eq!(engine.current_piece, None);
}

#[test]
fn hold_is_refused_without_a_current_piece_or_after_game_over() {
    let mut engine = TetrisEngine::with_seed(15);
    assert!(!engine.hold_current());
    assert_eq!(engine.hold, None);
    engine.current_piece = Some(Piece::new(PieceKind::S, 0, (3, 18)));
    engine.game_over = true;
    assert!(!engine.hold_current());
    assert_eq!(engine.hold, None);
}

#[test]
fn spawn_piece_places_a_fresh_piece_and_unlocks_hold() {
    let mut engine = TetrisEngine::with_seed(16);
    engine.hold_locked = true;
    let piece = engine.spawn_piece(PieceKind::Z, None, 6);
    assert_eq!(piece.position, (SPAWN_X, SPAWN_Y));
    assert_eq!(piece.rotation, 2);
    assert_eq!(engine.current_piece, Some(piece));
    assert!(!engine.hold_locked);
    let placed = engine.spawn_piece(PieceKind::L, Some((1, 2)), 1);
    assert_eq!(placed.position, (1, 2));
}

#[test]
fn end_phase_after_game_over_only_reports() {
    let mut engine = TetrisEngine::with_seed(17);
    engine.game_over = true;
    engine.game_over_reason = Some("block_out".to_string());
    let result = engine.end_phase(2);
    assert_eq!(
        result,
        EndPhaseResult {
            lines_cleared: 2,
            spawned: false,
            clutch_clear: false,
            game_over: true,
            reason: Some("block_out".to_string()),
        }
    );
    assert_eq!(engine.current_piece, None);
}

#[test]
fn queue_snapshot_pads_missing_ids_with_zeros() {
    let mut engine = TetrisEngine::with_seed(18);
    engine.bag = vec![2, 3];
    engine.bag_size = 2;
    let snapshot = engine.get_queue_snapshot(4);
    assert_eq!(snapshot.current, None);
    assert_eq!(snapshot.hold, None);
    assert_eq!(snapshot.next_ids, vec![2, 3]);
    assert_eq!(snapshot.next_kinds, vec![PieceKind::O, PieceKind::T]);
    assert_eq!(snapshot.piece_ids, vec![0, 0, 2, 3, 0, 0]);
}

#[test]
fn dealing_only_ever_meets_valid_ids() {
    let mut engine = TetrisEngine::with_seed(31);
    for _ in 0..50 {
        let id = engine.pop_next_piece_id();
        assert!(tetris_engine::piece_kind_from_id(id).is_some());
        assert!(engine.bag.iter().all(|&id| (1..=7).contains(&id)));
        assert!(engine.bag.len() > 14);
    }
}
