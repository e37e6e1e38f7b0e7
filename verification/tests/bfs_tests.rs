use tetris_engine::bfs::{python_semantics_bfs, TerminalState};
use tetris_engine::{
    board_index, is_position_valid, Piece, PieceKind, PlacementRecord, TetrisEngine,
    BOARD_WIDTH, ROTATION_NAMES,
};

fn search(engine: &TetrisEngine, piece: &Piece, include_180: bool) -> Vec<TerminalState> {
    let inputs = engine.bfs_inputs_for_piece(piece);
    python_semantics_bfs(engine, &inputs, piece.last_action_was_rotation, include_180)
}

#[test]
fn bfs_inputs_copy_the_piece_state() {
    let engine = TetrisEngine::default();
    let mut piece = Piece::new(PieceKind::O, 6, (4, 9));
    piece.last_rotation_dir = Some(-1);
    piece.last_kick_index = Some(3);
    let inputs = engine.bfs_inputs_for_piece(&piece);
    assert_eq!(inputs.kind, PieceKind::O);
    assert_eq!((inputs.start_x, inputs.start_y, inputs.start_rot), (4, 9, 2));
    assert!(inputs.piece_is_o);
    assert_eq!(inputs.last_rot_dir, Some(-1));
    assert_eq!(inputs.last_kick_idx, Some(3));
    assert!(!engine.bfs_inputs_for_piece(&Piece::new(PieceKind::T, 0, (0, 0))).piece_is_o);
}

#[test]
fn empty_results_hold_only_the_skip_option() {
    let mut engine = TetrisEngine::default();
    engine.board[5] = 3;
    assert!(engine.empty_bfs_results(false).is_empty());
    let skip = engine.empty_bfs_results(true);
    assert_eq!(skip.len(), 1);
    assert_eq!(skip[0].board, Some(engine.board));
    assert!(skip[0].stats.is_none());
    assert_eq!(skip[0].placement, PlacementRecord::Skip);
    assert!(skip[0].placements.is_empty());
}

#[test]
fn i_piece_on_empty_board_has_the_reference_number_of_resting_spots() {
    let engine = TetrisEngine::default();
    let results = search(&engine, &Piece::new(PieceKind::I, 0, (3, 0)), true);
    assert_eq!(results.len(), 34);
}

#[test]
fn every_search_result_rests_and_is_reported_once() {
    let mut engine = TetrisEngine::default();
    for x in 0..BOARD_WIDTH as i16 {
        if x != 4 {
            engine.board[board_index(x, 39).unwrap()] = 8;
        }
    }
    for kind in [PieceKind::I, PieceKind::O, PieceKind::T, PieceKind::S, PieceKind::Z, PieceKind::J, PieceKind::L] {
        let piece = Piece::new(kind, 0, (3, 18));
        let results = search(&engine, &piece, true);
        assert!(!results.is_empty());
        for (i, t) in results.iter().enumerate() {
            assert!(is_position_valid(&engine.board, &piece, Some((t.x, t.y)), Some(t.rotation)));
            assert!(!is_position_valid(&engine.board, &piece, Some((t.x, t.y + 1)), Some(t.rotation)));
            for u in &results[i + 1..] {
                assert!((t.x, t.y, t.rotation) != (u.x, u.y, u.rotation));
            }
        }
    }
}

#[test]
fn half_turn_moves_appear_only_when_asked_for() {
    let engine = TetrisEngine::default();
    let piece = Piece::new(PieceKind::T, 0, (3, 0));
    let without_180 = search(&engine, &piece, false);
    let with_180 = search(&engine, &piece, true);
    assert!(without_180.iter().all(|t| t.last_rot_dir != Some(2)));
    assert!(with_180.iter().any(|t| t.last_rot_dir == Some(2)));
}

#[test]
fn o_piece_quarter_turn_stays_in_place() {
    let mut engine = TetrisEngine::default();
    for x in 0..BOARD_WIDTH as i16 {
        let index = board_index(x, 7).expect("floor row index exists");
        engine.board[index] = 9;
    }
    let piece = Piece::new(PieceKind::O, 0, (4, 4));
    let results = search(&engine, &piece, false);
    assert!(results
        .iter()
        .any(|t| t.x == 4 && t.y == 4 && t.rotation == 1 && t.last_rot_dir == Some(1)));
}

#[test]
fn search_leaves_the_board_alone() {
    let mut engine = TetrisEngine::default();
    let index = board_index(0, 39).expect("board index exists");
    engine.board[index] = 9;
    let before = engine.board;
    let results = search(&engine, &Piece::new(PieceKind::I, 0, (3, 0)), true);
    assert_eq!(engine.board, before);
    assert!(!results.is_empty());
}

#[test]
fn placed_records_name_their_rotation() {
    for rotation in 0u8..8 {
        let record = PlacementRecord::placed(PieceKind::T, 1, 2, rotation, true, Some(1), Some(0));
        match record {
            PlacementRecord::Placed { r, rotation: stored, x, y, kind, last_was_rot, .. } => {
                assert_eq!(stored, rotation % 4);
                assert_eq!(r, ROTATION_NAMES[usize::from(stored)]);
                assert_eq!((x, y, kind, last_was_rot), (1, 2, PieceKind::T, true));
            }
            PlacementRecord::Skip => panic!("placed returns a placement"),
        }
    }
}

#[test]
fn blocked_start_yields_no_moves_but_itself_if_resting() {
    let mut engine = TetrisEngine::default();
    for cell in engine.board.iter_mut() {
        *cell = 1;
    }
    let results = search(&engine, &Piece::new(PieceKind::T, 0, (3, 18)), true);
    assert_eq!(results.len(), 1);
    assert_eq!((results[0].x, results[0].y, results[0].rotation), (3, 18, 0));
}

#[test]
fn results_come_in_queue_order_with_first_found_history() {
    let engine = TetrisEngine::default();
    let piece = Piece::new(PieceKind::O, 0, (4, 37));
    let results = search(&engine, &piece, false);
    // The start rests on the floor and is taken off the queue first.
    assert_eq!((results[0].x, results[0].y, results[0].rotation), (4, 37, 0));
    assert!(!results[0].last_was_rot);
    // Shifts are tried before turns, so the first spot left of the start
    // is reached by a shift.
    assert_eq!((results[1].x, results[1].y, results[1].rotation), (3, 37, 0));
    assert!(!results[1].last_was_rot);
    assert_eq!(results[1].last_rot_dir, None);
}
