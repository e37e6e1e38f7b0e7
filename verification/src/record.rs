use vstd::prelude::*;

use crate::bfs::PlacementRecord;
use crate::constants::ROTATION_NAMES;
use crate::piece::PieceKind;
use crate::text::str_equal;

verus! {

/// A field of a written placement record.
#[derive(Clone, Copy, Debug, PartialEq, Eq, Structural)]
pub enum PlacementField {
    Skip,
    X,
    Y,
    R,
    Rotation,
    Kind,
    LastWasRot,
    LastRotDir,
    LastKickIdx,
}

/// The names of the fields of a written placement record, in the order of
/// the fields.
pub const PLACEMENT_FIELD_NAMES: [&'static str; 9] = [
    "skip",
    "x",
    "y",
    "r",
    "rotation",
    "kind",
    "last_was_rot",
    "last_rot_dir",
    "last_kick_idx",
];

/// Position of a field in `PLACEMENT_FIELD_NAMES`.
pub open spec fn field_ordinal(f: PlacementField) -> int {
    match f {
        PlacementField::Skip => 0,
        PlacementField::X => 1,
        PlacementField::Y => 2,
        PlacementField::R => 3,
        PlacementField::Rotation => 4,
        PlacementField::Kind => 5,
        PlacementField::LastWasRot => 6,
        PlacementField::LastRotDir => 7,
        PlacementField::LastKickIdx => 8,
    }
}

impl PlacementField {
    /// The field's name as written in a record.
    pub fn name(self) -> (r: &'static str)
        ensures
            r == PLACEMENT_FIELD_NAMES[field_ordinal(self)],
    {
        match self {
            PlacementField::Skip => PLACEMENT_FIELD_NAMES[0],
            PlacementField::X => PLACEMENT_FIELD_NAMES[1],
            PlacementField::Y => PLACEMENT_FIELD_NAMES[2],
            PlacementField::R => PLACEMENT_FIELD_NAMES[3],
            PlacementField::Rotation => PLACEMENT_FIELD_NAMES[4],
            PlacementField::Kind => PLACEMENT_FIELD_NAMES[5],
            PlacementField::LastWasRot => PLACEMENT_FIELD_NAMES[6],
            PlacementField::LastRotDir => PLACEMENT_FIELD_NAMES[7],
            PlacementField::LastKickIdx => PLACEMENT_FIELD_NAMES[8],
        }
    }

    /// The field called `name`; `None` for a name that is not a field.
    pub fn from_name(name: &str) -> (r: Option<PlacementField>)
        ensures
            r matches Some(f) ==> name@ == PLACEMENT_FIELD_NAMES[field_ordinal(f)]@,
            r is None ==> forall|i: int| 0 <= i < 9 ==> name@ != #[trigger] PLACEMENT_FIELD_NAMES[i]@,
    {
        let fields: [PlacementField; 9] = [
            PlacementField::Skip,
            PlacementField::X,
            PlacementField::Y,
            PlacementField::R,
            PlacementField::Rotation,
            PlacementField::Kind,
            PlacementField::LastWasRot,
            PlacementField::LastRotDir,
            PlacementField::LastKickIdx,
        ];
        let mut i: usize = 0;
        while i < 9
            invariant
                i <= 9,
                forall|j: int| 0 <= j < 9 ==> field_ordinal(#[trigger] fields[j]) == j,
                forall|j: int| 0 <= j < i ==> name@ != #[trigger] PLACEMENT_FIELD_NAMES[j]@,
            decreases 9 - i,
        {
            if str_equal(name, PLACEMENT_FIELD_NAMES[i]) {
                return Some(fields[i]);
            }
            i += 1;
        }
        None
    }
}

/// The fields read from a written placement record, each only if present.
#[derive(Clone, Debug, PartialEq, Eq)]
pub struct PlacementFields {
    pub skip: Option<bool>,
    pub x: Option<i16>,
    pub y: Option<i16>,
    pub r: Option<String>,
    pub rotation: Option<u8>,
    pub kind: Option<PieceKind>,
    pub last_was_rot: Option<bool>,
    pub last_rot_dir: Option<Option<i8>>,
    pub last_kick_idx: Option<Option<u8>>,
}

/// Why a written placement record could not be read back.
#[derive(Clone, Copy, Debug, PartialEq, Eq, Structural)]
pub enum PlacementRecordError {
    /// A field the record needs is absent.
    MissingField(PlacementField),
    /// The rotation name is not one of N, E, S, W.
    InvalidRotationName,
}

/// The index of the rotation state called `name`, if it is one.
pub open spec fn rotation_index(name: Seq<char>) -> Option<int> {
    if name == ROTATION_NAMES[0]@ {
        Some(0)
    } else if name == ROTATION_NAMES[1]@ {
        Some(1)
    } else if name == ROTATION_NAMES[2]@ {
        Some(2)
    } else if name == ROTATION_NAMES[3]@ {
        Some(3)
    } else {
        None
    }
}

/// The rotation name `name` as one of `ROTATION_NAMES`; `None` for any other text.
pub fn rotation_name(name: &str) -> (r: Option<&'static str>)
    ensures
        r == (match rotation_index(name@) {
            Some(i) => Some(ROTATION_NAMES[i]),
            None => None,
        }),
{
    if str_equal(name, ROTATION_NAMES[0]) {
        Some(ROTATION_NAMES[0])
    } else if str_equal(name, ROTATION_NAMES[1]) {
        Some(ROTATION_NAMES[1])
    } else if str_equal(name, ROTATION_NAMES[2]) {
        Some(ROTATION_NAMES[2])
    } else if str_equal(name, ROTATION_NAMES[3]) {
        Some(ROTATION_NAMES[3])
    } else {
        None
    }
}

/// The record that the fields describe: the skip option when `skip` is
/// true; otherwise a placement, for which `r`, then a valid rotation name,
/// then `x`, `y`, `rotation`, `kind` and `last_was_rot` are required in that
/// order, and the last rotation direction and kick default to none.
pub open spec fn record_of_fields(f: PlacementFields) -> Result<PlacementRecord, PlacementRecordError> {
    if f.skip == Some(true) {
        Ok(PlacementRecord::Skip)
    } else if f.r is None {
        Err(PlacementRecordError::MissingField(PlacementField::R))
    } else if rotation_index(f.r.unwrap()@) is None {
        Err(PlacementRecordError::InvalidRotationName)
    } else if f.x is None {
        Err(PlacementRecordError::MissingField(PlacementField::X))
    } else if f.y is None {
        Err(PlacementRecordError::MissingField(PlacementField::Y))
    } else if f.rotation is None {
        Err(PlacementRecordError::MissingField(PlacementField::Rotation))
    } else if f.kind is None {
        Err(PlacementRecordError::MissingField(PlacementField::Kind))
    } else if f.last_was_rot is None {
        Err(PlacementRecordError::MissingField(PlacementField::LastWasRot))
    } else {
        Ok(PlacementRecord::Placed {
            x: f.x.unwrap(),
            y: f.y.unwrap(),
            r: ROTATION_NAMES[rotation_index(f.r.unwrap()@).unwrap()],
            rotation: f.rotation.unwrap(),
            kind: f.kind.unwrap(),
            last_was_rot: f.last_was_rot.unwrap(),
            last_rot_dir: match f.last_rot_dir {
                Some(d) => d,
                None => None,
            },
            last_kick_idx: match f.last_kick_idx {
                Some(k) => k,
                None => None,
            },
        })
    }
}

impl PlacementRecord {
    /// Reads a record back from its written fields.
    pub fn from_fields(fields: &PlacementFields) -> (r: Result<PlacementRecord, PlacementRecordError>)
        ensures
            r == record_of_fields(*fields),
    {
        if let Some(true) = fields.skip {
            return Ok(PlacementRecord::Skip);
        }
        let r = match &fields.r {
            Some(name) => match rotation_name(name.as_str()) {
                Some(r) => r,
                None => return Err(PlacementRecordError::InvalidRotationName),
            },
            None => return Err(PlacementRecordError::MissingField(PlacementField::R)),
        };
        let x = match fields.x {
            Some(x) => x,
            None => return Err(PlacementRecordError::MissingField(PlacementField::X)),
        };
        let y = match fields.y {
            Some(y) => y,
            None => return Err(PlacementRecordError::MissingField(PlacementField::Y)),
        };
        let rotation = match fields.rotation {
            Some(v) => v,
            None => return Err(PlacementRecordError::MissingField(PlacementField::Rotation)),
        };
        let kind = match fields.kind {
            Some(k) => k,
            None => return Err(PlacementRecordError::MissingField(PlacementField::Kind)),
        };
        let last_was_rot = match fields.last_was_rot {
            Some(b) => b,
            None => return Err(PlacementRecordError::MissingField(PlacementField::LastWasRot)),
        };
        let last_rot_dir = match fields.last_rot_dir {
            Some(d) => d,
            None => None,
        };
        let last_kick_idx = match fields.last_kick_idx {
            Some(k) => k,
            None => None,
        };
        Ok(PlacementRecord::Placed { x, y, r, rotation, kind, last_was_rot, last_rot_dir, last_kick_idx })
    }
}

/// Whether `f` are the fields written for `rec`: `skip` alone for the skip
/// option, every field but `skip` for a placement.
pub open spec fn written_fields(rec: PlacementRecord, f: PlacementFields) -> bool {
    match rec {
        PlacementRecord::Skip => {
            &&& f.skip == Some(true)
            &&& f.x is None && f.y is None && f.r is None && f.rotation is None && f.kind is None
            &&& f.last_was_rot is None && f.last_rot_dir is None && f.last_kick_idx is None
        },
        PlacementRecord::Placed { x, y, r, rotation, kind, last_was_rot, last_rot_dir, last_kick_idx } => {
            &&& f.skip is None
            &&& f.x == Some(x)
            &&& f.y == Some(y)
            &&& f.r matches Some(name) && name@ == r@
            &&& f.rotation == Some(rotation)
            &&& f.kind == Some(kind)
            &&& f.last_was_rot == Some(last_was_rot)
            &&& f.last_rot_dir == Some(last_rot_dir)
            &&& f.last_kick_idx == Some(last_kick_idx)
        },
    }
}

impl PlacementRecord {
    /// The fields to write for this record.
    pub fn to_fields(&self) -> (r: PlacementFields)
        ensures
            written_fields(*self, r),
    {
        match self {
            PlacementRecord::Skip => PlacementFields {
                skip: Some(true),
                x: None,
                y: None,
                r: None,
                rotation: None,
                kind: None,
                last_was_rot: None,
                last_rot_dir: None,
                last_kick_idx: None,
            },
            PlacementRecord::Placed { x, y, r, rotation, kind, last_was_rot, last_rot_dir, last_kick_idx } => PlacementFields {
                skip: None,
                x: Some(*x),
                y: Some(*y),
                r: Some((*r).to_owned()),
                rotation: Some(*rotation),
                kind: Some(*kind),
                last_was_rot: Some(*last_was_rot),
                last_rot_dir: Some(*last_rot_dir),
                last_kick_idx: Some(*last_kick_idx),
            },
        }
    }
}

/// Reading back what was written gives the record again, for the skip
/// option and for every placement named by one of the four rotation names.
pub proof fn lemma_fields_round_trip(rec: PlacementRecord, f: PlacementFields, i: int)
    requires
        written_fields(rec, f),
        0 <= i < 4,
        rec matches PlacementRecord::Placed { r, .. } ==> r == ROTATION_NAMES[i],
    ensures
        record_of_fields(f) == Ok::<PlacementRecord, PlacementRecordError>(rec),
{
    reveal_strlit("N");
    reveal_strlit("E");
    reveal_strlit("S");
    reveal_strlit("W");
    assert(ROTATION_NAMES[0]@ == "N"@ && ROTATION_NAMES[1]@ == "E"@ && ROTATION_NAMES[2]@ == "S"@ && ROTATION_NAMES[3]@ == "W"@);
    assert("N"@[0] == 'N' && "E"@[0] == 'E' && "S"@[0] == 'S' && "W"@[0] == 'W');
    assert(ROTATION_NAMES[0]@ != ROTATION_NAMES[1]@ && ROTATION_NAMES[0]@ != ROTATION_NAMES[2]@ && ROTATION_NAMES[0]@ != ROTATION_NAMES[3]@);
    assert(ROTATION_NAMES[1]@ != ROTATION_NAMES[2]@ && ROTATION_NAMES[1]@ != ROTATION_NAMES[3]@ && ROTATION_NAMES[2]@ != ROTATION_NAMES[3]@);
    if let PlacementRecord::Placed { r, .. } = rec {
        assert(rotation_index(f.r.unwrap()@) == Some(i));
    }
}

} // verus!
