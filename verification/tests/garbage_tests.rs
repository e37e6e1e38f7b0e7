use tetris_engine::garbage::{hole_candidates_for, hole_column_at};
use tetris_engine::{board_index, GarbageBatch, PendingGarbageSummary, TetrisEngine};
use tetris_engine::{BOARD_HEIGHT, BOARD_WIDTH, GARBAGE_ID};

fn set_board_cell(engine: &mut TetrisEngine, x: i16, y: i16, value: i8) {
    let index = board_index(x, y).expect("test coordinates must be in bounds");
    engine.board[index] = value;
}

#[test]
fn add_incoming_garbage_with_explicit_and_random_columns() {
    let mut engine = TetrisEngine::with_seed(0);

    engine.add_incoming_garbage(3, 10, Some(4));
    engine.add_incoming_garbage(2, 5, None);

    assert_eq!(
        engine.incoming_garbage[0],
        GarbageBatch {
            lines: 3,
            timer: 10,
            col: 4,
        }
    );
    assert_ne!(engine.incoming_garbage[1].col, 4);
}

#[test]
fn next_garbage_hole_column_uses_last_applied_column_when_queue_is_empty() {
    let mut engine = TetrisEngine::with_seed(1);
    engine.garbage_col = Some(6);

    engine.add_incoming_garbage(1, 3, None);

    assert_ne!(engine.incoming_garbage[0].col, 6);
}

#[test]
fn cancel_garbage_consumes_oldest_batches_first() {
    let mut engine = TetrisEngine::default();
    engine.incoming_garbage = vec![
        GarbageBatch {
            lines: 2,
            timer: 10,
            col: 1,
        },
        GarbageBatch {
            lines: 3,
            timer: 11,
            col: 2,
        },
    ];

    let remaining_attack = engine.cancel_garbage(4);

    assert_eq!(remaining_attack, 0);
    assert_eq!(
        engine.incoming_garbage,
        vec![GarbageBatch {
            lines: 1,
            timer: 11,
            col: 2,
        }]
    );
}

#[test]
fn resolve_outgoing_attack_ignores_opener_multiplier() {
    let mut engine = TetrisEngine::default();
    engine.incoming_garbage = vec![GarbageBatch {
        lines: 5,
        timer: 10,
        col: 2,
    }];

    let result = engine.resolve_outgoing_attack(3, Some(true));

    assert!(!result.used_opener_multiplier);
    assert!(!result.opener_phase);
    assert_eq!(result.canceled, 3);
    assert_eq!(result.sent, 0);
    assert_eq!(result.incoming_after.total_lines, 2);
    assert_eq!(engine.total_attack_canceled, 3);
}

#[test]
fn apply_garbage_shifts_board_up() {
    let mut engine = TetrisEngine::default();
    set_board_cell(&mut engine, 0, (BOARD_HEIGHT - 3) as i16, 7);

    engine.apply_garbage(2, 4);

    let bottom_row = BOARD_HEIGHT - 1;
    for x in 0..BOARD_WIDTH as i16 {
        let index = board_index(x, bottom_row as i16).expect("bottom row index must exist");
        let expected = if x == 4 { 0 } else { GARBAGE_ID };
        assert_eq!(engine.board[index], expected);
    }
    assert_eq!(engine.garbage_col, Some(4));
    let shifted_idx = board_index(0, (BOARD_HEIGHT - 5) as i16).expect("shifted cell exists");
    assert_eq!(engine.board[shifted_idx], 7);
}

#[test]
fn tick_garbage_lands_expired_batches_and_keeps_pending() {
    let mut engine = TetrisEngine::default();
    engine.incoming_garbage = vec![
        GarbageBatch {
            lines: 2,
            timer: 1,
            col: 3,
        },
        GarbageBatch {
            lines: 1,
            timer: 3,
            col: 5,
        },
    ];

    let landed = engine.tick_garbage();

    assert_eq!(landed, 2);
    assert_eq!(
        engine.incoming_garbage,
        vec![GarbageBatch {
            lines: 1,
            timer: 2,
            col: 5,
        }]
    );
    let hole_idx = board_index(3, (BOARD_HEIGHT - 1) as i16).expect("bottom hole exists");
    assert_eq!(engine.board[hole_idx], 0);
    assert_eq!(
        engine.get_pending_garbage_summary(),
        PendingGarbageSummary {
            total_lines: 1,
            min_timer: 2,
            max_timer: 2,
            batch_count: 1,
            landing_within_one_ply: false,
        }
    );
}

#[test]
fn tick_garbage_applies_multiple_expired_batches_in_order() {
    let mut engine = TetrisEngine::default();
    engine.incoming_garbage = vec![
        GarbageBatch {
            lines: 1,
            timer: 1,
            col: 2,
        },
        GarbageBatch {
            lines: 1,
            timer: 1,
            col: 7,
        },
    ];

    let landed = engine.tick_garbage();

    assert_eq!(landed, 2);
    assert!(engine.incoming_garbage.is_empty());
    let final_hole = board_index(7, (BOARD_HEIGHT - 1) as i16).expect("bottom row exists");
    assert_eq!(engine.board[final_hole], 0);
}

#[test]
fn apply_garbage_marks_top_out_when_blocks_are_pushed_off() {
    let mut engine = TetrisEngine::default();
    set_board_cell(&mut engine, 2, 0, 9);

    engine.apply_garbage(1, 4);

    assert!(engine.game_over);
    assert_eq!(engine.game_over_reason.as_deref(), Some("garbage_top_out"));
    assert_eq!(engine.board.len(), BOARD_WIDTH * BOARD_HEIGHT);
}

#[test]
fn apply_garbage_clamps_line_count_and_preserves_board_shape() {
    let mut engine = TetrisEngine::default();
    set_board_cell(&mut engine, 0, (BOARD_HEIGHT - 1) as i16, 8);

    engine.apply_garbage(BOARD_HEIGHT as i32 + 5, 6);

    for row in 0..BOARD_HEIGHT as i16 {
        for col in 0..BOARD_WIDTH as i16 {
            let index = board_index(col, row).expect("board index must exist");
            let expected = if col == 6 { 0 } else { GARBAGE_ID };
            assert_eq!(engine.board[index], expected);
        }
    }
    assert!(engine.game_over);
    assert_eq!(engine.game_over_reason.as_deref(), Some("garbage_top_out"));
}

#[test]
fn add_incoming_garbage_ignores_non_positive_line_counts() {
    let mut engine = TetrisEngine::default();

    engine.add_incoming_garbage(0, 10, Some(3));
    engine.add_incoming_garbage(-2, 10, Some(3));

    assert!(engine.incoming_garbage.is_empty());
}

#[test]
fn apply_garbage_ignores_non_positive_line_counts() {
    let mut engine = TetrisEngine::default();
    let before = engine.board;

    engine.apply_garbage(0, 3);
    engine.apply_garbage(-4, 3);

    assert_eq!(engine.board, before);
    assert!(!engine.game_over);
}

fn batch(lines: i32, timer: i32, col: u8) -> GarbageBatch {
    GarbageBatch { lines, timer, col }
}

#[test]
fn pending_summary_of_an_empty_queue_is_all_zero() {
    let engine = TetrisEngine::default();
    assert_eq!(engine.get_pending_garbage_summary(), PendingGarbageSummary::default());
    assert_eq!(
        PendingGarbageSummary::default(),
        PendingGarbageSummary {
            total_lines: 0,
            min_timer: 0,
            max_timer: 0,
            batch_count: 0,
            landing_within_one_ply: false,
        }
    );
}

#[test]
fn pending_summary_totals_lines_and_timer_range() {
    let mut engine = TetrisEngine::default();
    engine.incoming_garbage = vec![batch(2, 5, 1), batch(4, 1, 2), batch(1, 9, 3)];
    assert_eq!(
        engine.get_pending_garbage_summary(),
        PendingGarbageSummary {
            total_lines: 7,
            min_timer: 1,
            max_timer: 9,
            batch_count: 3,
            landing_within_one_ply: true,
        }
    );
}

#[test]
fn cancel_garbage_returns_leftover_attack_when_queue_runs_out() {
    let mut engine = TetrisEngine::default();
    engine.incoming_garbage = vec![batch(2, 3, 1), batch(1, 4, 2)];
    assert_eq!(engine.cancel_garbage(5), 2);
    assert!(engine.incoming_garbage.is_empty());

    engine.incoming_garbage = vec![batch(3, 3, 1)];
    assert_eq!(engine.cancel_garbage(-4), 0);
    assert_eq!(engine.incoming_garbage, vec![batch(3, 3, 1)]);
}

#[test]
fn resolve_outgoing_attack_splits_attack_into_canceled_and_sent() {
    let mut engine = TetrisEngine::default();
    engine.incoming_garbage = vec![batch(2, 10, 2), batch(1, 12, 3)];
    let result = engine.resolve_outgoing_attack(7, None);
    assert_eq!(result.outgoing_attack, 7);
    assert_eq!(result.canceled, 3);
    assert_eq!(result.sent, 4);
    assert_eq!(result.canceled + result.sent, result.outgoing_attack);
    assert_eq!(result.incoming_before.total_lines, 3);
    assert_eq!(result.incoming_after.total_lines, 0);
    assert_eq!(engine.total_attack_canceled, 3);

    let negative = engine.resolve_outgoing_attack(-3, Some(false));
    assert_eq!(negative.outgoing_attack, 0);
    assert_eq!(negative.sent, 0);
    assert_eq!(negative.canceled, 0);
}

#[test]
fn tick_garbage_keeps_every_line_either_landed_or_waiting() {
    let mut engine = TetrisEngine::default();
    engine.incoming_garbage = vec![batch(2, 1, 3), batch(3, 4, 5), batch(1, 0, 6), batch(2, 2, 1)];
    let before = engine.get_pending_garbage_summary().total_lines;
    let landed = engine.tick_garbage();
    let after = engine.get_pending_garbage_summary().total_lines;
    assert_eq!(landed, 3);
    assert_eq!(landed + after, before);
    assert_eq!(engine.incoming_garbage, vec![batch(3, 3, 5), batch(2, 1, 1)]);
    assert_eq!(engine.garbage_col, Some(6));
}

#[test]
fn new_hole_column_differs_from_the_last_queued_one() {
    for seed in 0..20u64 {
        let mut engine = TetrisEngine::with_seed(seed);
        engine.add_incoming_garbage(1, 5, Some(seed as u8 % 10));
        for _ in 0..5 {
            engine.add_incoming_garbage(1, 5, None);
        }
        for pair in engine.incoming_garbage.windows(2) {
            assert_ne!(pair[0].col, pair[1].col);
            assert!(pair[1].col < 10);
        }
    }
}

#[test]
fn hole_candidates_skip_the_previous_column() {
    assert_eq!(hole_candidates_for(0), [1, 2, 3, 4, 5, 6, 7, 8, 9]);
    assert_eq!(hole_candidates_for(9), [0, 1, 2, 3, 4, 5, 6, 7, 8]);
    assert_eq!(hole_candidates_for(4), [0, 1, 2, 3, 5, 6, 7, 8, 9]);
    assert_eq!(hole_column_at(4, 3), 3);
    assert_eq!(hole_column_at(4, 4), 5);
    assert_eq!(hole_column_at(4, 8), 9);
}
