use vstd::prelude::*;

use crate::text::str_equal;

verus! {

/// The seven tetromino shapes.
#[derive(Clone, Copy, Debug, PartialEq, Eq, Hash, Structural)]
pub enum PieceKind {
    I,
    O,
    T,
    S,
    Z,
    J,
    L,
}

/// Position of a kind in the order I, O, T, S, Z, J, L.
pub open spec fn kind_ordinal(kind: PieceKind) -> int {
    match kind {
        PieceKind::I => 0,
        PieceKind::O => 1,
        PieceKind::T => 2,
        PieceKind::S => 3,
        PieceKind::Z => 4,
        PieceKind::J => 5,
        PieceKind::L => 6,
    }
}

/// The cell value that a locked block of `kind` leaves on the board.
pub open spec fn kind_id(kind: PieceKind) -> int {
    kind_ordinal(kind) + 1
}

/// The kind whose cell value is `id`, if any.
pub open spec fn kind_of_id(id: int) -> Option<PieceKind> {
    if id == 1 {
        Some(PieceKind::I)
    } else if id == 2 {
        Some(PieceKind::O)
    } else if id == 3 {
        Some(PieceKind::T)
    } else if id == 4 {
        Some(PieceKind::S)
    } else if id == 5 {
        Some(PieceKind::Z)
    } else if id == 6 {
        Some(PieceKind::J)
    } else if id == 7 {
        Some(PieceKind::L)
    } else {
        None
    }
}

/// Whether `id` is the cell value of some kind.
pub open spec fn valid_piece_id(id: int) -> bool {
    1 <= id <= 7
}

impl PieceKind {
    /// Position of this kind in the order I, O, T, S, Z, J, L.
    pub fn index(self) -> (r: usize)
        ensures
            r == kind_ordinal(self),
            r < 7,
    {
        match self {
            PieceKind::I => 0,
            PieceKind::O => 1,
            PieceKind::T => 2,
            PieceKind::S => 3,
            PieceKind::Z => 4,
            PieceKind::J => 5,
            PieceKind::L => 6,
        }
    }
}

/// An active piece: its shape, rotation state, origin and the facts about its
/// last movement that spin detection reads.
#[derive(Clone, Copy, Debug, PartialEq, Eq)]
pub struct Piece {
    pub kind: PieceKind,
    pub rotation: u8,
    pub position: (i16, i16),
    pub last_action_was_rotation: bool,
    pub last_rotation_dir: Option<i8>,
    pub last_kick_index: Option<u8>,
}

impl Piece {
    /// A fresh piece with no movement history; the rotation is taken modulo 4.
    pub fn new(kind: PieceKind, rotation: u8, position: (i16, i16)) -> (r: Self)
        ensures
            r.kind == kind,
            r.rotation == rotation % 4,
            r.position == position,
            !r.last_action_was_rotation,
            r.last_rotation_dir is None,
            r.last_kick_index is None,
    {
        Self {
            kind,
            rotation: rotation % 4,
            position,
            last_action_was_rotation: false,
            last_rotation_dir: None,
            last_kick_index: None,
        }
    }
}

/// The bounding-box size and spawn-state block offsets of a shape.
#[derive(Clone, Copy, Debug, PartialEq, Eq)]
pub struct PieceDefinition {
    pub size: i8,
    pub blocks: [(i8, i8); 4],
}

/// Bounding-box sizes of the shapes, in the order I, O, T, S, Z, J, L.
pub const PIECE_SIZES: [i8; 7] = [4, 4, 3, 3, 3, 3, 3];

/// Spawn-state block offsets of the shapes, in the order I, O, T, S, Z, J, L.
pub const PIECE_BLOCKS: [[(i8, i8); 4]; 7] = [
    [(0, 1), (1, 1), (2, 1), (3, 1)],
    [(1, 1), (2, 1), (1, 2), (2, 2)],
    [(1, 0), (0, 1), (1, 1), (2, 1)],
    [(1, 0), (2, 0), (0, 1), (1, 1)],
    [(0, 0), (1, 0), (1, 1), (2, 1)],
    [(0, 0), (0, 1), (1, 1), (2, 1)],
    [(2, 0), (0, 1), (1, 1), (2, 1)],
];

/// Wall-kick offsets of the J, L, S, T and Z pieces, per rotation state.
pub const JLSTZ_OFFSETS: [[(i8, i8); 5]; 4] = [
    [(0, 0), (0, 0), (0, 0), (0, 0), (0, 0)],
    [(0, 0), (1, 0), (1, -1), (0, 2), (1, 2)],
    [(0, 0), (0, 0), (0, 0), (0, 0), (0, 0)],
    [(0, 0), (-1, 0), (-1, -1), (0, 2), (-1, 2)],
];

/// Wall-kick offsets of the I piece, per rotation state.
pub const I_OFFSETS: [[(i8, i8); 5]; 4] = [
    [(0, 0), (-1, 0), (2, 0), (-1, 0), (2, 0)],
    [(0, 0), (1, 0), (1, 0), (1, 1), (1, -2)],
    [(0, 0), (2, 0), (-1, 0), (2, -1), (-1, -1)],
    [(0, 0), (-1, 0), (-1, 0), (-1, 1), (-1, -2)],
];

/// How far the I piece's rotation states sit from its spawn state, per state:
/// the offsets that a quarter turn of the I piece adds to the differences of
/// its kick table.
pub const I_STATE_SHIFTS: [(i8, i8); 4] = [(0, 0), (-1, 0), (-1, 1), (0, 1)];

/// Wall-kick offsets of the O piece, per rotation state.
pub const O_OFFSETS: [[(i8, i8); 1]; 4] = [[(0, 0)], [(0, 0)], [(0, 0)], [(0, 0)]];

/// Half-turn kicks tried from the N and S states.
pub const KICKS_180_NS: [(i8, i8); 5] = [(0, 0), (0, 1), (1, 1), (-1, 1), (0, -1)];

/// Half-turn kicks tried from the E and W states.
pub const KICKS_180_EW: [(i8, i8); 5] = [(0, 0), (1, 0), (1, 2), (1, 1), (0, 2)];

/// The kind whose cell value is `id`; `None` outside 1..=7.
pub fn piece_kind_from_id(id: i8) -> (r: Option<PieceKind>)
    ensures
        r == kind_of_id(id as int),
{
    match id {
        1 => Some(PieceKind::I),
        2 => Some(PieceKind::O),
        3 => Some(PieceKind::T),
        4 => Some(PieceKind::S),
        5 => Some(PieceKind::Z),
        6 => Some(PieceKind::J),
        7 => Some(PieceKind::L),
        _ => None,
    }
}

/// The cell value of `kind`.
pub fn piece_id(kind: PieceKind) -> (r: i8)
    ensures
        r == kind_id(kind),
        valid_piece_id(r as int),
{
    match kind {
        PieceKind::I => 1,
        PieceKind::O => 2,
        PieceKind::T => 3,
        PieceKind::S => 4,
        PieceKind::Z => 5,
        PieceKind::J => 6,
        PieceKind::L => 7,
    }
}

/// The definition of `kind`.
pub fn piece_definition(kind: PieceKind) -> (r: PieceDefinition)
    ensures
        r.size == PIECE_SIZES[kind_ordinal(kind)],
        r.blocks == PIECE_BLOCKS[kind_ordinal(kind)],
{
    let i = kind.index();
    PieceDefinition { size: PIECE_SIZES[i], blocks: PIECE_BLOCKS[i] }
}

/// The letter naming a kind.
pub open spec fn kind_name(kind: PieceKind) -> Seq<char> {
    match kind {
        PieceKind::I => "I"@,
        PieceKind::O => "O"@,
        PieceKind::T => "T"@,
        PieceKind::S => "S"@,
        PieceKind::Z => "Z"@,
        PieceKind::J => "J"@,
        PieceKind::L => "L"@,
    }
}

/// The letter naming `kind`.
pub fn piece_kind_as_str(kind: PieceKind) -> (r: &'static str)
    ensures
        r@ == kind_name(kind),
{
    match kind {
        PieceKind::I => "I",
        PieceKind::O => "O",
        PieceKind::T => "T",
        PieceKind::S => "S",
        PieceKind::Z => "Z",
        PieceKind::J => "J",
        PieceKind::L => "L",
    }
}

/// The kind named by the letter `name`; `None` for any other text.
pub fn piece_kind_from_str(name: &str) -> (r: Option<PieceKind>)
    ensures
        r matches Some(k) ==> kind_name(k) == name@,
        r is None ==> forall|k: PieceKind| kind_name(k) != name@,
{
    if str_equal(name, "I") {
        Some(PieceKind::I)
    } else if str_equal(name, "O") {
        Some(PieceKind::O)
    } else if str_equal(name, "T") {
        Some(PieceKind::T)
    } else if str_equal(name, "S") {
        Some(PieceKind::S)
    } else if str_equal(name, "Z") {
        Some(PieceKind::Z)
    } else if str_equal(name, "J") {
        Some(PieceKind::J)
    } else if str_equal(name, "L") {
        Some(PieceKind::L)
    } else {
        None
    }
}

/// Cell values and kinds correspond one to one: the id of a kind names it
/// back, and an id that names a kind is that kind's id.
pub proof fn lemma_piece_id_round_trip(kind: PieceKind, id: int)
    ensures
        kind_of_id(kind_id(kind)) == Some(kind),
        kind_of_id(id) == Some(kind) ==> kind_id(kind) == id,
        kind_of_id(id) is Some <==> valid_piece_id(id),
{
}

} // verus!
