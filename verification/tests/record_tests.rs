use tetris_engine::record::{
    rotation_name, PlacementField, PlacementFields, PlacementRecordError, PLACEMENT_FIELD_NAMES,
};
use tetris_engine::{PieceKind, PlacementRecord};

fn empty_fields() -> PlacementFields {
    PlacementFields {
        skip: None,
        x: None,
        y: None,
        r: None,
        rotation: None,
        kind: None,
        last_was_rot: None,
        last_rot_dir: None,
        last_kick_idx: None,
    }
}

fn full_fields() -> PlacementFields {
    PlacementFields {
        skip: None,
        x: Some(3),
        y: Some(17),
        r: Some("N".to_string()),
        rotation: Some(0),
        kind: Some(PieceKind::T),
        last_was_rot: Some(true),
        last_rot_dir: Some(Some(1)),
        last_kick_idx: Some(Some(0)),
    }
}

#[test]
fn written_fields_read_back_as_the_same_record() {
    let records = [
        PlacementRecord::Skip,
        PlacementRecord::Placed {
            x: 3,
            y: 17,
            r: "N",
            rotation: 0,
            kind: PieceKind::T,
            last_was_rot: true,
            last_rot_dir: Some(1),
            last_kick_idx: Some(0),
        },
        PlacementRecord::placed(PieceKind::L, -1, 38, 3, false, None, None),
    ];
    for record in records {
        let fields = record.to_fields();
        assert_eq!(PlacementRecord::from_fields(&fields), Ok(record));
    }
}

#[test]
fn skip_fields_are_written_alone() {
    let fields = PlacementRecord::Skip.to_fields();
    assert_eq!(fields.skip, Some(true));
    assert_eq!(fields.x, None);
    assert_eq!(fields.r, None);
    let placed = full_fields();
    let written = PlacementRecord::from_fields(&placed).unwrap().to_fields();
    assert_eq!(written, placed);
}

#[test]
fn missing_fields_are_reported_in_order() {
    assert_eq!(
        PlacementRecord::from_fields(&empty_fields()),
        Err(PlacementRecordError::MissingField(PlacementField::R))
    );
    let bad_name = PlacementFields { r: Some("Q".to_string()), ..empty_fields() };
    assert_eq!(
        PlacementRecord::from_fields(&bad_name),
        Err(PlacementRecordError::InvalidRotationName)
    );
    let no_x = PlacementFields { x: None, ..full_fields() };
    assert_eq!(
        PlacementRecord::from_fields(&no_x),
        Err(PlacementRecordError::MissingField(PlacementField::X))
    );
    let no_y = PlacementFields { y: None, ..full_fields() };
    assert_eq!(
        PlacementRecord::from_fields(&no_y),
        Err(PlacementRecordError::MissingField(PlacementField::Y))
    );
    let no_rotation = PlacementFields { rotation: None, ..full_fields() };
    assert_eq!(
        PlacementRecord::from_fields(&no_rotation),
        Err(PlacementRecordError::MissingField(PlacementField::Rotation))
    );
    let no_kind = PlacementFields { kind: None, ..full_fields() };
    assert_eq!(
        PlacementRecord::from_fields(&no_kind),
        Err(PlacementRecordError::MissingField(PlacementField::Kind))
    );
    let no_flag = PlacementFields { last_was_rot: None, ..full_fields() };
    assert_eq!(
        PlacementRecord::from_fields(&no_flag),
        Err(PlacementRecordError::MissingField(PlacementField::LastWasRot))
    );
}

#[test]
fn optional_history_fields_default_to_none_and_skip_false_is_ignored() {
    let fields = PlacementFields {
        skip: Some(false),
        last_rot_dir: None,
        last_kick_idx: None,
        r: Some("W".to_string()),
        ..full_fields()
    };
    assert_eq!(
        PlacementRecord::from_fields(&fields),
        Ok(PlacementRecord::Placed {
            x: 3,
            y: 17,
            r: "W",
            rotation: 0,
            kind: PieceKind::T,
            last_was_rot: true,
            last_rot_dir: None,
            last_kick_idx: None,
        })
    );
    let skip = PlacementFields { skip: Some(true), ..empty_fields() };
    assert_eq!(PlacementRecord::from_fields(&skip), Ok(PlacementRecord::Skip));
}

#[test]
fn field_names_round_trip() {
    let fields = [
        PlacementField::Skip,
        PlacementField::X,
        PlacementField::Y,
        PlacementField::R,
        PlacementField::Rotation,
        PlacementField::Kind,
        PlacementField::LastWasRot,
        PlacementField::LastRotDir,
        PlacementField::LastKickIdx,
    ];
    for (i, field) in fields.iter().enumerate() {
        assert_eq!(field.name(), PLACEMENT_FIELD_NAMES[i]);
        assert_eq!(PlacementField::from_name(field.name()), Some(*field));
    }
    assert_eq!(PlacementField::from_name("z"), None);
    assert_eq!(PlacementField::LastKickIdx.name(), "last_kick_idx");
}

#[test]
fn rotation_names_map_to_the_four_states() {
    assert_eq!(rotation_name("N"), Some("N"));
    assert_eq!(rotation_name("E"), Some("E"));
    assert_eq!(rotation_name("S"), Some("S"));
    assert_eq!(rotation_name("W"), Some("W"));
    assert_eq!(rotation_name("n"), None);
    assert_eq!(rotation_name(""), None);
}
