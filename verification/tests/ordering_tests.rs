use tetris_engine::ordering::{order_bfs_results, representative_placement, sorted_placements};
use tetris_engine::parity::placement_sort_key;
use tetris_engine::{BfsResult, PieceKind, PlacementRecord};

fn at(x: i16, y: i16, rotation: u8, dir: Option<i8>, kick: Option<u8>) -> PlacementRecord {
    PlacementRecord::placed(PieceKind::S, x, y, rotation, dir.is_some(), dir, kick)
}

fn with(placement: PlacementRecord, placements: Vec<PlacementRecord>) -> BfsResult {
    BfsResult {
        board: None,
        stats: None,
        placement,
        placements,
    }
}

#[test]
fn placements_are_listed_by_rotation_row_column_direction_and_kick() {
    let input = vec![
        at(2, 30, 1, None, None),
        at(5, 30, 0, Some(1), Some(2)),
        at(5, 30, 0, None, None),
        at(1, 31, 0, None, None),
        at(1, 30, 0, None, None),
        at(5, 30, 0, Some(1), None),
        PlacementRecord::Skip,
        at(5, 30, 0, Some(-1), Some(0)),
    ];
    let sorted = sorted_placements(&input);
    assert_eq!(
        sorted,
        vec![
            at(1, 30, 0, None, None),
            at(5, 30, 0, None, None),
            at(5, 30, 0, Some(-1), Some(0)),
            at(5, 30, 0, Some(1), Some(2)),
            at(5, 30, 0, Some(1), None),
            at(1, 31, 0, None, None),
            at(2, 30, 1, None, None),
            PlacementRecord::Skip,
        ]
    );
    for pair in sorted.windows(2) {
        assert!(placement_sort_key(&pair[0]) <= placement_sort_key(&pair[1]));
    }
}

#[test]
fn equal_keys_keep_their_order() {
    let first = PlacementRecord::placed(PieceKind::T, 4, 20, 2, true, None, None);
    let second = PlacementRecord::placed(PieceKind::J, 4, 20, 2, false, None, None);
    assert_eq!(sorted_placements(&vec![first, second]), vec![first, second]);
    assert_eq!(sorted_placements(&vec![second, first]), vec![second, first]);
}

#[test]
fn representative_is_the_first_grouped_placement_or_the_own_one() {
    let own = at(9, 9, 3, None, None);
    assert_eq!(representative_placement(&with(own, Vec::new())), own);
    let grouped = with(own, vec![at(4, 30, 2, None, None), at(3, 35, 1, None, None)]);
    assert_eq!(representative_placement(&grouped), at(3, 35, 1, None, None));
}

#[test]
fn results_are_ordered_by_their_representatives() {
    let results = vec![
        with(PlacementRecord::Skip, Vec::new()),
        with(at(0, 30, 2, None, None), vec![at(0, 30, 2, None, None)]),
        with(at(7, 30, 0, None, None), vec![at(7, 30, 0, None, None), at(1, 30, 0, None, None)]),
        with(at(3, 29, 0, None, None), Vec::new()),
    ];
    let ordered = order_bfs_results(results);
    let firsts: Vec<PlacementRecord> = ordered.iter().map(representative_placement).collect();
    assert_eq!(
        firsts,
        vec![
            at(3, 29, 0, None, None),
            at(1, 30, 0, None, None),
            at(0, 30, 2, None, None),
            PlacementRecord::Skip,
        ]
    );
    assert_eq!(ordered[1].placement, at(7, 30, 0, None, None));
}
