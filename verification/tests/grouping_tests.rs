use tetris_engine::grouping::{dedupe_bfs_results, BfsResultKey};
use tetris_engine::scoring::build_attack_stats;
use tetris_engine::{
    classify_clear, AttackStats, B2BMode, BfsResult, Board, PieceKind, PlacementRecord, SpinResult,
};

fn stats(attack: i32, spin: bool) -> AttackStats {
    let spin_result = SpinResult {
        piece: PieceKind::T,
        spin_type: "t-spin",
        is_mini: false,
        is_180: false,
        kick_index: Some(1),
        rotation_dir: Some(-1),
        corners: Some(3),
        front_corners: Some(2),
        description: "T-Spin".to_string(),
    };
    let classification = classify_clear(2, if spin { Some(&spin_result) } else { None }, false);
    build_attack_stats(
        B2BMode::Surge,
        classification,
        false,
        1,
        true,
        4,
        2,
        3,
        5,
        4,
        5,
        1,
        Some(1.25f64.to_bits()),
        attack,
    )
}

fn board_with(cell: usize) -> Board {
    let mut board = [0; 400];
    board[cell] = 4;
    board
}

fn placed(x: i16, rotation: u8) -> PlacementRecord {
    PlacementRecord::placed(PieceKind::T, x, 30, rotation, false, None, None)
}

fn result(board: Option<Board>, stats: Option<AttackStats>, placement: PlacementRecord) -> BfsResult {
    BfsResult {
        board,
        stats,
        placement,
        placements: Vec::new(),
    }
}

#[test]
fn dedupe_key_depends_on_board_and_every_stats_field() {
    let board = board_with(399);
    let base = stats(5, true);
    let left = BfsResultKey::from_board_stats(&board, &base);
    let right = BfsResultKey::from_board_stats(&board, &base.clone());
    assert!(left.same_key(&right));

    let mut altered = base.clone();
    altered.combo_bonus += 1;
    assert!(!left.same_key(&BfsResultKey::from_board_stats(&board, &altered)));

    let mut other_text = base.clone();
    if let Some(spin) = other_text.spin.as_mut() {
        spin.description = "T-Spin Double".to_string();
    }
    assert!(!left.same_key(&BfsResultKey::from_board_stats(&board, &other_text)));

    let mut other_segments = base.clone();
    other_segments.surge_segments.push(0);
    assert!(!left.same_key(&BfsResultKey::from_board_stats(&board, &other_segments)));

    assert!(!left.same_key(&BfsResultKey::from_board_stats(&board_with(398), &base)));
    assert!(!left.same_key(&BfsResultKey::from_board_stats(&board, &stats(5, false))));
}

#[test]
fn skip_results_stay_outside_outcome_groups() {
    let board = board_with(10);
    let results = vec![
        result(Some(board), None, PlacementRecord::Skip),
        result(Some(board), Some(stats(1, false)), placed(0, 0)),
        result(Some(board), Some(stats(1, false)), placed(1, 0)),
    ];

    let grouped = dedupe_bfs_results(results);

    assert_eq!(grouped.len(), 2);
    assert_eq!(grouped[0].placement, PlacementRecord::Skip);
    assert!(grouped[0].placements.is_empty());
    assert_eq!(grouped[1].placements, vec![placed(0, 0), placed(1, 0)]);
}

#[test]
fn dedupe_merges_results_with_the_same_outcome_in_order() {
    let a = board_with(390);
    let b = board_with(391);
    let results = vec![
        result(Some(a), Some(stats(2, false)), placed(0, 0)),
        result(Some(b), Some(stats(2, false)), placed(1, 0)),
        result(Some(a), Some(stats(2, false)), placed(2, 1)),
        result(Some(a), Some(stats(3, false)), placed(3, 0)),
        result(None, Some(stats(2, false)), placed(4, 0)),
        result(Some(b), Some(stats(2, false)), placed(5, 2)),
        result(Some(a), Some(stats(2, false)), placed(6, 3)),
    ];

    let grouped = dedupe_bfs_results(results);

    assert_eq!(grouped.len(), 4);
    assert_eq!(grouped[0].placement, placed(0, 0));
    assert_eq!(grouped[0].placements, vec![placed(0, 0), placed(2, 1), placed(6, 3)]);
    assert_eq!(grouped[1].placements, vec![placed(1, 0), placed(5, 2)]);
    assert_eq!(grouped[2].placements, vec![placed(3, 0)]);
    assert_eq!(grouped[3].placement, placed(4, 0));
    assert!(grouped[3].placements.is_empty());
    let total: usize = grouped.iter().map(|r| r.placements.len()).sum();
    assert_eq!(total, 6);
}

#[test]
fn dedupe_of_nothing_is_nothing() {
    assert!(dedupe_bfs_results(Vec::new()).is_empty());
}

#[test]
fn each_group_lists_every_placement_of_its_outcome_in_input_order() {
    let a = board_with(380);
    let results = vec![
        result(Some(a), Some(stats(1, false)), placed(0, 0)),
        result(None, None, PlacementRecord::Skip),
        result(Some(a), Some(stats(1, false)), placed(4, 2)),
        result(Some(a), Some(stats(9, false)), placed(5, 0)),
        result(Some(a), Some(stats(1, false)), placed(1, 3)),
    ];
    let grouped = dedupe_bfs_results(results);
    assert_eq!(grouped.len(), 3);
    assert_eq!(grouped[0].placement, placed(0, 0));
    assert_eq!(grouped[0].placements, vec![placed(0, 0), placed(4, 2), placed(1, 3)]);
    assert_eq!(grouped[1].placement, PlacementRecord::Skip);
    assert_eq!(grouped[2].placements, vec![placed(5, 0)]);
}
