use tetris_engine::rotation::RotationDirection;
use tetris_engine::{
    rotation_candidates, rotation_delta_from_i8, rotation_delta_from_str, rotation_states,
    PieceKind,
};

#[test]
fn rotation_delta_helpers_match_python_semantics() {
    assert_eq!(rotation_delta_from_i8(1), Some(1));
    assert_eq!(rotation_delta_from_i8(-1), Some(-1));
    assert_eq!(rotation_delta_from_i8(2), Some(2));
    assert_eq!(rotation_delta_from_i8(-2), Some(2));
    assert_eq!(rotation_delta_from_i8(0), None);

    assert_eq!(rotation_delta_from_str("CW"), Some(1));
    assert_eq!(rotation_delta_from_str("cw"), Some(1));
    assert_eq!(rotation_delta_from_str("CCW"), Some(-1));
    assert_eq!(rotation_delta_from_str("ccw"), Some(-1));
    assert_eq!(rotation_delta_from_str("180"), Some(2));
    assert_eq!(rotation_delta_from_str("half"), None);
}

#[test]
fn generated_rotation_states_match_reference_geometry() {
    assert_eq!(
        rotation_states(PieceKind::I),
        [
            [(0, 1), (1, 1), (2, 1), (3, 1)],
            [(2, 0), (2, 1), (2, 2), (2, 3)],
            [(3, 2), (2, 2), (1, 2), (0, 2)],
            [(1, 3), (1, 2), (1, 1), (1, 0)],
        ]
    );
    assert_eq!(
        rotation_states(PieceKind::O),
        [
            [(1, 1), (2, 1), (1, 2), (2, 2)],
            [(2, 1), (2, 2), (1, 1), (1, 2)],
            [(2, 2), (1, 2), (2, 1), (1, 1)],
            [(1, 2), (1, 1), (2, 2), (2, 1)],
        ]
    );
    assert_eq!(
        rotation_states(PieceKind::T),
        [
            [(1, 0), (0, 1), (1, 1), (2, 1)],
            [(2, 1), (1, 0), (1, 1), (1, 2)],
            [(1, 2), (2, 1), (1, 1), (0, 1)],
            [(0, 1), (1, 2), (1, 1), (1, 0)],
        ]
    );
    assert_eq!(
        rotation_states(PieceKind::S),
        [
            [(1, 0), (2, 0), (0, 1), (1, 1)],
            [(2, 1), (2, 2), (1, 0), (1, 1)],
            [(1, 2), (0, 2), (2, 1), (1, 1)],
            [(0, 1), (0, 0), (1, 2), (1, 1)],
        ]
    );
    assert_eq!(
        rotation_states(PieceKind::Z),
        [
            [(0, 0), (1, 0), (1, 1), (2, 1)],
            [(2, 0), (2, 1), (1, 1), (1, 2)],
            [(2, 2), (1, 2), (1, 1), (0, 1)],
            [(0, 2), (0, 1), (1, 1), (1, 0)],
        ]
    );
    assert_eq!(
        rotation_states(PieceKind::J),
        [
            [(0, 0), (0, 1), (1, 1), (2, 1)],
            [(2, 0), (1, 0), (1, 1), (1, 2)],
            [(2, 2), (2, 1), (1, 1), (0, 1)],
            [(0, 2), (1, 2), (1, 1), (1, 0)],
        ]
    );
    assert_eq!(
        rotation_states(PieceKind::L),
        [
            [(2, 0), (0, 1), (1, 1), (2, 1)],
            [(2, 2), (1, 0), (1, 1), (1, 2)],
            [(0, 2), (2, 1), (1, 1), (0, 1)],
            [(0, 0), (1, 2), (1, 1), (1, 0)],
        ]
    );
}

#[test]
fn rotation_candidates_match_reference_expectations() {
    assert_eq!(
        rotation_candidates(PieceKind::T, 0, 1, 1),
        vec![(0, 0, 0), (1, -1, 0), (2, -1, 1), (3, 0, -2), (4, -1, -2)]
    );
    assert_eq!(
        rotation_candidates(PieceKind::T, 1, 0, -1),
        vec![(0, 0, 0), (1, 1, 0), (2, 1, -1), (3, 0, 2), (4, 1, 2)]
    );
    assert_eq!(
        rotation_candidates(PieceKind::I, 0, 1, 1),
        vec![(0, 1, 0), (1, -1, 0), (2, 2, 0), (3, -1, -1), (4, 2, 2)]
    );
    assert_eq!(
        rotation_candidates(PieceKind::I, 1, 0, -1),
        vec![(0, -1, 0), (1, 1, 0), (2, -2, 0), (3, 1, 1), (4, -2, -2)]
    );
    assert_eq!(
        rotation_candidates(PieceKind::T, 0, 2, 2),
        vec![(0, 0, 0), (1, 0, 1), (2, 1, 1), (3, -1, 1), (4, 0, -1)]
    );
    assert_eq!(
        rotation_candidates(PieceKind::T, 1, 3, 2),
        vec![(0, 0, 0), (1, 1, 0), (2, 1, 2), (3, 1, 1), (4, 0, 2)]
    );
}

#[test]
fn one_eighty_candidates_switch_between_ns_and_ew_tables() {
    assert_eq!(
        rotation_candidates(PieceKind::T, 2, 0, 2),
        vec![(0, 0, 0), (1, 0, 1), (2, 1, 1), (3, -1, 1), (4, 0, -1)]
    );
    assert_eq!(
        rotation_candidates(PieceKind::T, 3, 1, 2),
        vec![(0, 0, 0), (1, 1, 0), (2, 1, 2), (3, 1, 1), (4, 0, 2)]
    );
}

#[test]
fn o_piece_non_one_eighty_rotation_has_only_zero_offset_candidate() {
    assert_eq!(rotation_candidates(PieceKind::O, 0, 1, 1), vec![(0, 0, 0)]);
    assert_eq!(rotation_candidates(PieceKind::O, 1, 0, -1), vec![(0, 0, 0)]);
}

#[test]
fn rotation_direction_deltas_are_quarter_turn_counts() {
    assert_eq!(RotationDirection::Cw.delta(), 1);
    assert_eq!(RotationDirection::Ccw.delta(), -1);
    assert_eq!(RotationDirection::Half.delta(), 2);
    assert_eq!(rotation_delta_from_i8(3), None);
    assert_eq!(rotation_delta_from_i8(-128), None);
    assert_eq!(rotation_delta_from_str(""), None);
    assert_eq!(rotation_delta_from_str("Cw"), None);
}

#[test]
fn quarter_turn_kicks_reverse_into_their_opposites() {
    for kind in [PieceKind::I, PieceKind::T, PieceKind::S, PieceKind::Z, PieceKind::J, PieceKind::L] {
        for o in 0u8..4 {
            let n = (o + 1) % 4;
            let forward = rotation_candidates(kind, o, n, 1);
            let back = rotation_candidates(kind, n, o, -1);
            assert_eq!(forward.len(), 5);
            for i in 0..5 {
                assert_eq!(forward[i].0, back[i].0);
                assert_eq!(forward[i].1, -back[i].1);
                assert_eq!(forward[i].2, -back[i].2);
            }
        }
    }
}

#[test]
fn four_quarter_turns_return_to_spawn_cells() {
    for kind in [
        PieceKind::I,
        PieceKind::O,
        PieceKind::T,
        PieceKind::S,
        PieceKind::Z,
        PieceKind::J,
        PieceKind::L,
    ] {
        let states = rotation_states(kind);
        let size: i8 = if kind == PieceKind::I || kind == PieceKind::O { 4 } else { 3 };
        let m = size - 1;
        let turned: Vec<(i8, i8)> = states[3].iter().map(|&(x, y)| (m - y, x)).collect();
        assert_eq!(turned, states[0].to_vec());
    }
}

#[test]
fn rotation_state_wraps_modulo_four_in_candidates() {
    assert_eq!(
        rotation_candidates(PieceKind::T, 4, 5, 1),
        rotation_candidates(PieceKind::T, 0, 1, 1)
    );
    assert_eq!(rotation_candidates(PieceKind::O, 2, 0, -2).len(), 5);
}

#[test]
fn i_piece_quarter_kicks_include_the_state_shift() {
    assert_eq!(
        rotation_candidates(PieceKind::I, 1, 2, 1),
        vec![(0, 0, -1), (1, -1, -1), (2, 2, -1), (3, -1, 1), (4, 2, -2)]
    );
    assert_eq!(
        rotation_candidates(PieceKind::I, 2, 1, -1),
        vec![(0, 0, 1), (1, 1, 1), (2, -2, 1), (3, 1, -1), (4, -2, 2)]
    );
}
