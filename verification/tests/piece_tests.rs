use tetris_engine::piece::{
    piece_definition, piece_kind_as_str, piece_kind_from_str, I_OFFSETS, JLSTZ_OFFSETS, KICKS_180_EW, KICKS_180_NS, O_OFFSETS,
};
use tetris_engine::{piece_id, piece_kind_from_id, Piece, PieceKind};

const ALL_KINDS: [PieceKind; 7] = [
    PieceKind::I,
    PieceKind::O,
    PieceKind::T,
    PieceKind::S,
    PieceKind::Z,
    PieceKind::J,
    PieceKind::L,
];

#[test]
fn piece_id_round_trip_matches_reference_mapping() {
    for kind in ALL_KINDS {
        let id = piece_id(kind);
        assert_eq!(piece_kind_from_id(id), Some(kind));
    }
    assert_eq!(piece_kind_from_id(0), None);
    assert_eq!(piece_kind_from_id(8), None);
    assert_eq!(piece_kind_from_id(-1), None);
}

#[test]
fn piece_new_normalizes_rotation_modulo_four() {
    let piece = Piece::new(PieceKind::T, 5, (3, 18));
    assert_eq!(piece.rotation, 1);
    assert_eq!(piece.position, (3, 18));
    assert!(!piece.last_action_was_rotation);
    assert_eq!(piece.last_rotation_dir, None);
    assert_eq!(piece.last_kick_index, None);
}

#[test]
fn piece_tables_match_reference_values() {
    assert_eq!(
        piece_definition(PieceKind::I).blocks,
        [(0, 1), (1, 1), (2, 1), (3, 1)]
    );
    assert_eq!(
        piece_definition(PieceKind::O).blocks,
        [(1, 1), (2, 1), (1, 2), (2, 2)]
    );
    assert_eq!(JLSTZ_OFFSETS[1], [(0, 0), (1, 0), (1, -1), (0, 2), (1, 2)]);
    assert_eq!(I_OFFSETS[2], [(0, 0), (2, 0), (-1, 0), (2, -1), (-1, -1)]);
    assert_eq!(O_OFFSETS[0], [(0, 0)]);
    assert_eq!(KICKS_180_NS, [(0, 0), (0, 1), (1, 1), (-1, 1), (0, -1)]);
    assert_eq!(KICKS_180_EW, [(0, 0), (1, 0), (1, 2), (1, 1), (0, 2)]);
}

#[test]
fn piece_ids_follow_the_reference_order_and_sizes() {
    let expected_ids = [1, 2, 3, 4, 5, 6, 7];
    let expected_sizes = [4, 4, 3, 3, 3, 3, 3];
    for (i, kind) in ALL_KINDS.iter().enumerate() {
        assert_eq!(piece_id(*kind), expected_ids[i]);
        assert_eq!(kind.index(), i);
        assert_eq!(piece_definition(*kind).size, expected_sizes[i]);
    }
    assert_eq!(Piece::new(PieceKind::L, 7, (0, 0)).rotation, 3);
}

#[test]
fn kind_letters_round_trip() {
    let letters = ["I", "O", "T", "S", "Z", "J", "L"];
    for (i, kind) in ALL_KINDS.iter().enumerate() {
        assert_eq!(piece_kind_as_str(*kind), letters[i]);
        assert_eq!(piece_kind_from_str(letters[i]), Some(*kind));
    }
    assert_eq!(piece_kind_from_str("t"), None);
    assert_eq!(piece_kind_from_str("TT"), None);
    assert_eq!(piece_kind_from_str(""), None);
}
