use vstd::prelude::*;

use crate::piece::{
    kind_ordinal, piece_definition, PieceKind, I_OFFSETS, I_STATE_SHIFTS, JLSTZ_OFFSETS, KICKS_180_EW,
    KICKS_180_NS, O_OFFSETS, PIECE_BLOCKS, PIECE_SIZES,
};
use crate::text::str_equal;

verus! {

/// A rotation request.
#[derive(Clone, Copy, Debug, PartialEq, Eq, Structural)]
pub enum RotationDirection {
    Cw,
    Ccw,
    Half,
}

impl RotationDirection {
    /// Quarter turns of this rotation: clockwise 1, counter-clockwise -1, half turn 2.
    pub fn delta(self) -> (r: i8)
        ensures
            r == (match self {
                RotationDirection::Cw => 1i8,
                RotationDirection::Ccw => -1i8,
                RotationDirection::Half => 2i8,
            }),
    {
        match self {
            RotationDirection::Cw => 1,
            RotationDirection::Ccw => -1,
            RotationDirection::Half => 2,
        }
    }
}

/// Normalises an integer rotation request: 1 and -1 stand, 2 and -2 are a half
/// turn, anything else is refused.
pub fn rotation_delta_from_i8(value: i8) -> (r: Option<i8>)
    ensures
        r == (if value == 1 || value == -1 {
            Some(value)
        } else if value == 2 || value == -2 {
            Some(2i8)
        } else {
            None
        }),
{
    match value {
        1 | -1 => Some(value),
        2 | -2 => Some(2),
        _ => None,
    }
}

/// Parses a named rotation request: "CW"/"cw", "CCW"/"ccw" and "180".
pub fn rotation_delta_from_str(value: &str) -> (r: Option<i8>)
    ensures
        r == (if value@ == "CW"@ || value@ == "cw"@ {
            Some(1i8)
        } else if value@ == "CCW"@ || value@ == "ccw"@ {
            Some(-1i8)
        } else if value@ == "180"@ {
            Some(2i8)
        } else {
            None
        }),
{
    if str_equal(value, "CW") || str_equal(value, "cw") {
        Some(1)
    } else if str_equal(value, "CCW") || str_equal(value, "ccw") {
        Some(-1)
    } else if str_equal(value, "180") {
        Some(2)
    } else {
        None
    }
}

/// `v` clamped to the range of `i8`.
pub open spec fn clamp_i8(v: int) -> i8 {
    if v < -128 {
        -128i8
    } else if v > 127 {
        127i8
    } else {
        v as i8
    }
}

/// Where a cell lands when its `size`-wide bounding box turns about its centre:
/// clockwise for 1, counter-clockwise for -1, a half turn otherwise.
pub open spec fn rotate_point(p: (i8, i8), size: i8, direction: i8) -> (i8, i8) {
    let m = size - 1;
    if direction == 1 {
        (clamp_i8(m - p.1), p.0)
    } else if direction == -1 {
        (p.1, clamp_i8(m - p.0))
    } else {
        (clamp_i8(m - p.0), clamp_i8(m - p.1))
    }
}

/// Every cell of `cells` turned as `rotate_point` says.
pub open spec fn rotate_cells(cells: Seq<(i8, i8)>, size: i8, direction: i8) -> Seq<(i8, i8)> {
    cells.map_values(|p: (i8, i8)| rotate_point(p, size, direction))
}

/// Block offsets of `kind` in rotation state `r`: the spawn cells turned
/// clockwise `r` times.
pub open spec fn rotation_state(kind: PieceKind, r: nat) -> Seq<(i8, i8)>
    decreases r,
{
    if r == 0 {
        PIECE_BLOCKS[kind_ordinal(kind)]@
    } else {
        rotate_cells(rotation_state(kind, (r - 1) as nat), PIECE_SIZES[kind_ordinal(kind)], 1)
    }
}

fn clamp_to_i8(v: i16) -> (r: i8)
    ensures
        r == clamp_i8(v as int),
{
    if v < -128 {
        -128
    } else if v > 127 {
        127
    } else {
        v as i8
    }
}

fn rotate_one(p: (i8, i8), size: i8, direction: i8) -> (r: (i8, i8))
    requires
        size > i8::MIN,
    ensures
        r == rotate_point(p, size, direction),
{
    let m = size as i16 - 1;
    if direction == 1 {
        (clamp_to_i8(m - p.1 as i16), p.0)
    } else if direction == -1 {
        (p.1, clamp_to_i8(m - p.0 as i16))
    } else {
        (clamp_to_i8(m - p.0 as i16), clamp_to_i8(m - p.1 as i16))
    }
}

/// Turns four cells inside a `size`-wide box about its centre.
fn rotate_coords(coords: [(i8, i8); 4], size: i8, direction: i8) -> (r: [(i8, i8); 4])
    requires
        size > i8::MIN,
        direction == 1 || direction == -1 || direction == 2 || direction == -2,
    ensures
        r@ == rotate_cells(coords@, size, direction),
{
    let r = [
        rotate_one(coords[0], size, direction),
        rotate_one(coords[1], size, direction),
        rotate_one(coords[2], size, direction),
        rotate_one(coords[3], size, direction),
    ];
    assert(r@ =~= rotate_cells(coords@, size, direction));
    r
}

/// The four rotation states of `kind`, generated from its spawn cells.
fn build_piece_rotation_states(kind: PieceKind) -> (r: [[(i8, i8); 4]; 4])
    ensures
        forall|s: int| 0 <= s < 4 ==> #[trigger] r[s]@ == rotation_state(kind, s as nat),
{
    let definition = piece_definition(kind);
    let first = definition.blocks;
    let second = rotate_coords(first, definition.size, 1);
    let third = rotate_coords(second, definition.size, 1);
    let fourth = rotate_coords(third, definition.size, 1);
    proof {
        reveal_with_fuel(rotation_state, 4);
    }
    let r = [first, second, third, fourth];
    assert(r[0]@ == rotation_state(kind, 0));
    assert(r[1]@ == rotation_state(kind, 1));
    assert(r[2]@ == rotation_state(kind, 2));
    assert(r[3]@ == rotation_state(kind, 3));
    r
}

/// Rotation states of every kind, in the order I, O, T, S, Z, J, L.
fn build_rotation_tables() -> (r: [[[(i8, i8); 4]; 4]; 7])
    ensures
        forall|k: PieceKind, s: int|
            0 <= s < 4 ==> #[trigger] r[kind_ordinal(k)][s]@ == rotation_state(k, s as nat),
{
    let r = [
        build_piece_rotation_states(PieceKind::I),
        build_piece_rotation_states(PieceKind::O),
        build_piece_rotation_states(PieceKind::T),
        build_piece_rotation_states(PieceKind::S),
        build_piece_rotation_states(PieceKind::Z),
        build_piece_rotation_states(PieceKind::J),
        build_piece_rotation_states(PieceKind::L),
    ];
    assert forall|k: PieceKind, s: int|
        0 <= s < 4 implies #[trigger] r[kind_ordinal(k)][s]@ == rotation_state(k, s as nat) by {
        match k {
            PieceKind::I => {},
            PieceKind::O => {},
            PieceKind::T => {},
            PieceKind::S => {},
            PieceKind::Z => {},
            PieceKind::J => {},
            PieceKind::L => {},
        }
    }
    r
}

/// The block offsets of `kind` in each of its four rotation states.
pub fn rotation_states(kind: PieceKind) -> (r: [[(i8, i8); 4]; 4])
    ensures
        forall|s: int| 0 <= s < 4 ==> #[trigger] r[s]@ == rotation_state(kind, s as nat),
{
    let tables = build_rotation_tables();
    let r = tables[kind.index()];
    assert forall|s: int| 0 <= s < 4 implies #[trigger] r[s]@ == rotation_state(kind, s as nat) by {
        assert(tables[kind_ordinal(kind)][s]@ == rotation_state(kind, s as nat));
    }
    r
}

/// The offset that a quarter turn of `kind` reads for kick `i` in `state`:
/// the JLSTZ table, or for the I piece its table shifted by the state's
/// position.
pub open spec fn quarter_offset(kind: PieceKind, state: int, i: int) -> (int, int) {
    if kind == PieceKind::I {
        (I_OFFSETS[state][i].0 + I_STATE_SHIFTS[state].0, I_OFFSETS[state][i].1 + I_STATE_SHIFTS[state].1)
    } else {
        (JLSTZ_OFFSETS[state][i].0 as int, JLSTZ_OFFSETS[state][i].1 as int)
    }
}

/// The kicks tried for a rotation of `kind` from `old_state` to `new_state`
/// by `delta` quarter turns, in trial order, each as (index, dx, dy).
pub open spec fn rotation_candidate_seq(kind: PieceKind, old_state: u8, new_state: u8, delta: i8) -> Seq<(u8, i8, i8)> {
    let o = (old_state % 4) as int;
    let n = (new_state % 4) as int;
    if delta == 2 || delta == -2 {
        if o % 2 == 0 {
            Seq::new(5, |i: int| (i as u8, KICKS_180_NS[i].0, KICKS_180_NS[i].1))
        } else {
            Seq::new(5, |i: int| (i as u8, KICKS_180_EW[i].0, KICKS_180_EW[i].1))
        }
    } else if kind == PieceKind::O {
        seq![(0u8, O_OFFSETS[o][0].0, O_OFFSETS[o][0].1)]
    } else {
        Seq::new(
            5,
            |i: int|
                (
                    i as u8,
                    (quarter_offset(kind, o, i).0 - quarter_offset(kind, n, i).0) as i8,
                    (quarter_offset(kind, o, i).1 - quarter_offset(kind, n, i).1) as i8,
                ),
        )
    }
}

/// The kicks to try, in order, for rotating `kind` from `old_state` to
/// `new_state` by `delta` quarter turns: the half-turn table of the start
/// state's axis for |delta| = 2, the single zero kick of the O piece, or the
/// differences of the JLSTZ table or of the shifted I table.
pub fn rotation_candidates(kind: PieceKind, old_state: u8, new_state: u8, delta: i8) -> (r: Vec<(u8, i8, i8)>)
    requires
        delta != i8::MIN,
    ensures
        r@ == rotation_candidate_seq(kind, old_state, new_state, delta),
{
    let o = (old_state % 4) as usize;
    let n = (new_state % 4) as usize;
    let mut candidates: Vec<(u8, i8, i8)> = Vec::new();

    if delta == 2 || delta == -2 {
        let kicks = if o % 2 == 0 { KICKS_180_NS } else { KICKS_180_EW };
        let mut i: usize = 0;
        while i < 5
            invariant
                i <= 5,
                candidates@.len() == i,
                forall|j: int| 0 <= j < i ==> #[trigger] candidates@[j] == (j as u8, kicks[j].0, kicks[j].1),
            decreases 5 - i,
        {
            candidates.push((i as u8, kicks[i].0, kicks[i].1));
            i += 1;
        }
        assert(candidates@ =~= rotation_candidate_seq(kind, old_state, new_state, delta));
        return candidates;
    }

    if kind == PieceKind::O {
        candidates.push((0, O_OFFSETS[o][0].0, O_OFFSETS[o][0].1));
        assert(candidates@ =~= rotation_candidate_seq(kind, old_state, new_state, delta));
        return candidates;
    }

    let offsets = if kind == PieceKind::I { I_OFFSETS } else { JLSTZ_OFFSETS };
    let mut i: usize = 0;
    while i < 5
        invariant
            i <= 5,
            o < 4,
            n < 4,
            o == old_state % 4,
            n == new_state % 4,
            kind != PieceKind::O,
            !(delta == 2 || delta == -2),
            offsets == (if kind == PieceKind::I { I_OFFSETS } else { JLSTZ_OFFSETS }),
            candidates@.len() == i,
            forall|j: int| 0 <= j < i ==> #[trigger] candidates@[j] == rotation_candidate_seq(kind, old_state, new_state, delta)[j],
        decreases 5 - i,
    {
        let (mut ox, mut oy) = offsets[o][i];
        let (mut nx, mut ny) = offsets[n][i];
        assert(-2 <= ox <= 2 && -2 <= nx <= 2 && -2 <= oy <= 2 && -2 <= ny <= 2);
        if kind == PieceKind::I {
            ox = ox + I_STATE_SHIFTS[o].0;
            oy = oy + I_STATE_SHIFTS[o].1;
            nx = nx + I_STATE_SHIFTS[n].0;
            ny = ny + I_STATE_SHIFTS[n].1;
        }
        candidates.push((i as u8, ox - nx, oy - ny));
        i += 1;
    }
    assert(candidates@ =~= rotation_candidate_seq(kind, old_state, new_state, delta));
    candidates
}

/// Turning a cell of its bounding box clockwise and then counter-clockwise,
/// or the other way round, or by two half turns, puts it back where it was.
pub proof fn lemma_turn_back(p: (i8, i8), size: i8)
    requires
        1 <= size,
        0 <= p.0 < size,
        0 <= p.1 < size,
    ensures
        rotate_point(rotate_point(p, size, 1i8), size, -1i8) == p,
        rotate_point(rotate_point(p, size, -1i8), size, 1i8) == p,
        rotate_point(rotate_point(p, size, 2i8), size, 2i8) == p,
{
}

/// Four clockwise quarter turns bring every shape back to its spawn cells.
pub proof fn lemma_four_quarter_turns(kind: PieceKind)
    ensures
        rotation_state(kind, 4) == rotation_state(kind, 0),
{
    reveal_with_fuel(rotation_state, 5);
    let cells = PIECE_BLOCKS[kind_ordinal(kind)]@;
    let size = PIECE_SIZES[kind_ordinal(kind)];
    assert forall|i: int| 0 <= i < 4 implies #[trigger] rotation_state(kind, 4)[i] == cells[i] by {
        let p = cells[i];
        assert(0 <= p.0 < size && 0 <= p.1 < size);
    }
    assert(rotation_state(kind, 4) =~= rotation_state(kind, 0));
}

/// A quarter-turn kick and the matching kick of the turn back are opposite:
/// kick `i` from state `o` to `n` is the negation of kick `i` from `n` to `o`.
pub proof fn lemma_quarter_kicks_reverse(kind: PieceKind, o: u8, n: u8, d1: i8, d2: i8, i: int)
    requires
        kind != PieceKind::O,
        !(d1 == 2 || d1 == -2),
        !(d2 == 2 || d2 == -2),
        0 <= i < 5,
    ensures
        rotation_candidate_seq(kind, o, n, d1)[i].0 == rotation_candidate_seq(kind, n, o, d2)[i].0,
        rotation_candidate_seq(kind, o, n, d1)[i].1 == -rotation_candidate_seq(kind, n, o, d2)[i].1,
        rotation_candidate_seq(kind, o, n, d1)[i].2 == -rotation_candidate_seq(kind, n, o, d2)[i].2,
{
    let a = (o % 4) as int;
    let b = (n % 4) as int;
    assert(-3 <= quarter_offset(kind, a, i).0 <= 3 && -3 <= quarter_offset(kind, b, i).0 <= 3);
    assert(-3 <= quarter_offset(kind, a, i).1 <= 3 && -3 <= quarter_offset(kind, b, i).1 <= 3);
}

} // verus!
