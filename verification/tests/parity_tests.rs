use tetris_engine::parity::{board_from_flat, engine_from_fixture, placement_sort_key};
use tetris_engine::{
    B2BMode, EngineStateFixture, GarbageBatch, Piece, PieceKind, PlacementRecord,
    SpinResultFixture, SpinMode, TetrisEngine,
};

#[test]
fn clone_behavior_is_deep_for_runtime_state() {
    let mut engine = TetrisEngine::with_seed(7);
    engine.current_piece = Some(Piece::new(PieceKind::T, 1, (3, 0)));
    engine.hold = Some(1);
    engine.b2b_chain = 3;
    engine.surge_charge = 4;
    engine.combo = 2;
    engine.combo_active = true;
    engine.total_attack_sent = 9;
    engine.total_attack_canceled = 5;
    engine.incoming_garbage = vec![GarbageBatch {
        lines: 3,
        timer: 10,
        col: 4,
    }];
    engine.garbage_col = Some(4);

    let mut cloned = engine.clone();
    cloned.board[0] = 9;
    cloned.current_piece.as_mut().expect("clone has active piece").position = (5, 5);
    cloned.bag.remove(0);
    cloned.incoming_garbage[0].lines = 1;
    cloned.garbage_col = Some(2);
    cloned.total_attack_canceled = 8;

    assert_eq!(engine.board[0], 0);
    assert_eq!(
        engine.current_piece.expect("original keeps active piece").position,
        (3, 0)
    );
    assert_ne!(engine.bag.len(), cloned.bag.len());
    assert_eq!(engine.incoming_garbage[0].lines, 3);
    assert_eq!(engine.garbage_col, Some(4));
    assert_eq!(engine.total_attack_canceled, 5);
}

#[test]
fn reset_and_snapshot_clear_garbage_runtime_state() {
    let mut engine = TetrisEngine::with_seed(11);
    engine.current_piece = Some(Piece::new(PieceKind::I, 0, (3, 0)));
    engine.hold = Some(3);
    engine.total_attack_canceled = 6;
    engine.incoming_garbage = vec![GarbageBatch {
        lines: 2,
        timer: 5,
        col: 2,
    }];
    engine.garbage_col = Some(2);

    engine.reset();

    let snapshot = engine.get_queue_snapshot(2);
    assert_eq!(snapshot.current, None);
    assert_eq!(snapshot.hold, None);
    assert!(engine.incoming_garbage.is_empty());
    assert_eq!(engine.garbage_col, None);
    assert_eq!(engine.total_attack_canceled, 0);
    let skip_only = engine.empty_bfs_results(true);
    assert_eq!(skip_only.len(), 1);
    assert_eq!(skip_only[0].placement, PlacementRecord::Skip);
}

#[test]
fn engine_from_default_fixture_is_a_fresh_seed_zero_engine() {
    let state = EngineStateFixture::default();
    let engine = engine_from_fixture(&state);
    assert_eq!(engine.spin_mode, SpinMode::AllSpin);
    assert_eq!(engine.b2b_mode, B2BMode::Surge);
    assert_eq!(engine.board, [0; 400]);
    assert!(engine.bag.is_empty());
    assert_eq!(engine.bag_size, 0);
    assert_eq!(engine.current_piece, None);
    assert!(engine.last_clear_stats.is_none());
}

#[test]
fn engine_from_fixture_copies_the_recorded_state() {
    let mut board = vec![0i8; 400];
    board[399] = 5;
    let state = EngineStateFixture {
        seed: Some(9),
        spin_mode: Some("t_only".to_string()),
        b2b_mode: Some("chaining".to_string()),
        board,
        current_piece: Some(Piece::new(PieceKind::J, 2, (4, 20))),
        bag: vec![3, 1, 2],
        hold: Some(7),
        hold_locked: true,
        bag_size: Some(10),
        b2b_chain: 2,
        surge_charge: 1,
        combo: 3,
        combo_active: true,
        game_over: false,
        game_over_reason: Some("none".to_string()),
        last_spawn_was_clutch: true,
        pieces_placed: 12,
        total_lines_cleared: 6,
        total_attack_sent: 4,
        total_attack_canceled: 2,
        incoming_garbage: vec![GarbageBatch { lines: 2, timer: 3, col: 1 }],
        garbage_col: Some(1),
    };
    let engine = engine_from_fixture(&state);
    assert_eq!(engine.spin_mode, SpinMode::TOnly);
    assert_eq!(engine.b2b_mode, B2BMode::Chaining);
    assert_eq!(engine.board[399], 5);
    assert_eq!(engine.board[0], 0);
    assert_eq!(engine.current_piece, state.current_piece);
    assert_eq!(engine.bag, vec![3, 1, 2]);
    assert_eq!(engine.bag_size, 10);
    assert_eq!(engine.hold, Some(7));
    assert!(engine.hold_locked);
    assert_eq!(engine.combo, 3);
    assert_eq!(engine.game_over_reason.as_deref(), Some("none"));
    assert_eq!(engine.incoming_garbage, state.incoming_garbage);
    assert_eq!(engine.garbage_col, Some(1));
    assert_eq!(engine.pieces_placed, 12);

    let other_modes = EngineStateFixture {
        spin_mode: Some("all_spin".to_string()),
        b2b_mode: Some("surge".to_string()),
        ..EngineStateFixture::default()
    };
    let engine = engine_from_fixture(&other_modes);
    assert_eq!(engine.spin_mode, SpinMode::AllSpin);
    assert_eq!(engine.b2b_mode, B2BMode::Surge);
}

#[test]
fn board_from_flat_keeps_row_major_order() {
    let flat: Vec<i8> = (0..400).map(|i| (i % 7) as i8).collect();
    let board = board_from_flat(&flat);
    assert_eq!(board.to_vec(), flat);
}

#[test]
fn placement_sort_key_orders_skip_last() {
    let placed = PlacementRecord::placed(PieceKind::T, 3, 17, 5, true, None, Some(2));
    assert_eq!(placement_sort_key(&placed), (1, 17, 3, i8::MIN, 2));
    let no_kick = PlacementRecord::placed(PieceKind::T, 3, 17, 0, false, Some(-1), None);
    assert_eq!(placement_sort_key(&no_kick), (0, 17, 3, -1, 255));
    assert_eq!(
        placement_sort_key(&PlacementRecord::Skip),
        (u8::MAX, i16::MAX, i16::MAX, i8::MAX, i16::MAX)
    );
    assert!(placement_sort_key(&placed) < placement_sort_key(&PlacementRecord::Skip));
}

#[test]
fn spin_fixture_maps_unknown_spin_types_to_spin() {
    let fixture = SpinResultFixture {
        piece: PieceKind::S,
        spin_type: "weird".to_string(),
        is_mini: true,
        is_180: false,
        kick_index: Some(3),
        rotation_dir: Some(-1),
        corners: None,
        front_corners: None,
        description: "S-Spin Mini".to_string(),
    };
    let runtime = fixture.to_runtime();
    assert_eq!(runtime.spin_type, "spin");
    assert_eq!(runtime.piece, PieceKind::S);
    assert_eq!(runtime.description, "S-Spin Mini");
    assert!(runtime.is_mini);

    let t_fixture = SpinResultFixture { spin_type: "t-spin".to_string(), ..fixture };
    assert_eq!(t_fixture.to_runtime().spin_type, "t-spin");
}
