use vstd::prelude::*;

use crate::piece::{kind_ordinal, Piece, PieceKind, PIECE_BLOCKS, PIECE_SIZES};
use crate::rotation::{rotate_cells, rotate_point, rotation_state, rotation_states};

verus! {

/// The playfield, row-major from the top row: 10 columns by 40 rows; 0 is
/// empty, any other value is a block.
pub type Board = [i8; 400];

/// Whether (x, y) is a cell of the playfield.
pub open spec fn in_bounds(x: int, y: int) -> bool {
    0 <= x < 10 && 0 <= y < 40
}

/// The row-major index of an in-bounds cell.
pub open spec fn cell_index(x: int, y: int) -> int {
    y * 10 + x
}

/// Whether a piece block may not occupy (x, y): outside the playfield, or a
/// non-empty cell.
pub open spec fn blocked(board: Seq<i8>, x: int, y: int) -> bool {
    !in_bounds(x, y) || board[cell_index(x, y)] != 0
}

/// The board cells covered by `kind` with origin `pos` in rotation state `rot`.
pub open spec fn piece_cells(kind: PieceKind, pos: (int, int), rot: int) -> Seq<(int, int)> {
    let st = rotation_state(kind, (rot % 4) as nat);
    Seq::new(4, |i: int| (pos.0 + st[i].0, pos.1 + st[i].1))
}

/// Whether `kind` fits at `pos` in rotation state `rot`: none of its cells is blocked.
pub open spec fn fits(board: Seq<i8>, kind: PieceKind, pos: (int, int), rot: int) -> bool {
    let c = piece_cells(kind, pos, rot);
    &&& !blocked(board, c[0].0, c[0].1)
    &&& !blocked(board, c[1].0, c[1].1)
    &&& !blocked(board, c[2].0, c[2].1)
    &&& !blocked(board, c[3].0, c[3].1)
}

/// Whether every cell of the placement has coordinates that `i16` holds.
pub open spec fn cells_representable(kind: PieceKind, pos: (int, int), rot: int) -> bool {
    let c = piece_cells(kind, pos, rot);
    &&& representable(c[0])
    &&& representable(c[1])
    &&& representable(c[2])
    &&& representable(c[3])
}

/// Whether both coordinates of `c` fit in `i16`.
pub open spec fn representable(c: (int, int)) -> bool {
    i16::MIN <= c.0 <= i16::MAX && i16::MIN <= c.1 <= i16::MAX
}

/// The origin that a query about `piece` uses.
pub open spec fn chosen_position(piece: Piece, position: Option<(i16, i16)>) -> (int, int) {
    match position {
        Some(p) => (p.0 as int, p.1 as int),
        None => (piece.position.0 as int, piece.position.1 as int),
    }
}

/// The rotation state that a query about `piece` uses.
pub open spec fn chosen_rotation(piece: Piece, rotation: Option<u8>) -> int {
    ((match rotation {
        Some(r) => r,
        None => piece.rotation,
    }) % 4) as int
}

/// Every block offset of every rotation state lies in 0..=3.
pub proof fn lemma_rotation_offsets_small(kind: PieceKind, s: nat)
    ensures
        rotation_state(kind, s).len() == 4,
        forall|i: int|
            0 <= i < 4 ==> 0 <= #[trigger] rotation_state(kind, s)[i].0 < PIECE_SIZES[kind_ordinal(kind)]
                && 0 <= rotation_state(kind, s)[i].1 < PIECE_SIZES[kind_ordinal(kind)],
        PIECE_SIZES[kind_ordinal(kind)] <= 4,
    decreases s,
{
    let size = PIECE_SIZES[kind_ordinal(kind)];
    if s == 0 {
        assert(PIECE_BLOCKS[kind_ordinal(kind)]@.len() == 4);
        assert forall|i: int|
            0 <= i < 4 implies 0 <= #[trigger] rotation_state(kind, s)[i].0 < size
                && 0 <= rotation_state(kind, s)[i].1 < size by {
            match kind {
                PieceKind::I => {},
                PieceKind::O => {},
                PieceKind::T => {},
                PieceKind::S => {},
                PieceKind::Z => {},
                PieceKind::J => {},
                PieceKind::L => {},
            }
        }
    } else {
        lemma_rotation_offsets_small(kind, (s - 1) as nat);
        let prev = rotation_state(kind, (s - 1) as nat);
        assert(rotation_state(kind, s) == rotate_cells(prev, size, 1));
        assert forall|i: int|
            0 <= i < 4 implies 0 <= #[trigger] rotation_state(kind, s)[i].0 < size
                && 0 <= rotation_state(kind, s)[i].1 < size by {
            assert(rotation_state(kind, s)[i] == rotate_point(prev[i], size, 1));
        }
    }
}

/// The index of (x, y) in the row-major board, or `None` off the playfield.
pub fn board_index(x: i16, y: i16) -> (r: Option<usize>)
    ensures
        r is Some <==> in_bounds(x as int, y as int),
        r matches Some(i) ==> i == cell_index(x as int, y as int),
{
    if x < 0 || x >= 10 || y < 0 || y >= 40 {
        return None;
    }
    Some(y as usize * 10 + x as usize)
}

/// The board cells covered by `piece`, at `position` and in `rotation` where
/// given and at its own origin and rotation otherwise.
#[verifier::spinoff_prover]
pub fn compute_blocks(piece: &Piece, position: Option<(i16, i16)>, rotation: Option<u8>) -> (r: [(i16, i16); 4])
    requires
        cells_representable(piece.kind, chosen_position(*piece, position), chosen_rotation(*piece, rotation)),
    ensures
        forall|i: int|
            0 <= i < 4 ==> (#[trigger] r[i]).0 == piece_cells(piece.kind, chosen_position(*piece, position), chosen_rotation(*piece, rotation))[i].0
                && r[i].1 == piece_cells(piece.kind, chosen_position(*piece, position), chosen_rotation(*piece, rotation))[i].1,
{
    let origin = match position {
        Some(p) => p,
        None => piece.position,
    };
    let state = match rotation {
        Some(r) => r,
        None => piece.rotation,
    } % 4;
    let states = rotation_states(piece.kind);
    let local = states[state as usize];
    let ghost cells = piece_cells(piece.kind, chosen_position(*piece, position), chosen_rotation(*piece, rotation));
    assert(local@ == rotation_state(piece.kind, state as nat));
    assert(cells[0] == (origin.0 + local[0].0, origin.1 + local[0].1));
    assert(cells[1] == (origin.0 + local[1].0, origin.1 + local[1].1));
    assert(cells[2] == (origin.0 + local[2].0, origin.1 + local[2].1));
    assert(cells[3] == (origin.0 + local[3].0, origin.1 + local[3].1));
    [
        (origin.0 + local[0].0 as i16, origin.1 + local[0].1 as i16),
        (origin.0 + local[1].0 as i16, origin.1 + local[1].1 as i16),
        (origin.0 + local[2].0 as i16, origin.1 + local[2].1 as i16),
        (origin.0 + local[3].0 as i16, origin.1 + local[3].1 as i16),
    ]
}

/// The board as its 40 rows of 10 cells, top row first.
pub fn board_rows(board: &Board) -> (r: Vec<Vec<i8>>)
    ensures
        r@.len() == 40,
        forall|y: int| 0 <= y < 40 ==> (#[trigger] r@[y])@ == board@.subrange(y * 10, y * 10 + 10),
{
    let mut rows: Vec<Vec<i8>> = Vec::new();
    let mut y: usize = 0;
    while y < 40
        invariant
            y <= 40,
            rows@.len() == y,
            forall|yy: int| 0 <= yy < y ==> (#[trigger] rows@[yy])@ == board@.subrange(yy * 10, yy * 10 + 10),
        decreases 40 - y,
    {
        let mut row: Vec<i8> = Vec::new();
        let mut x: usize = 0;
        while x < 10
            invariant
                y < 40,
                x <= 10,
                row@ == board@.subrange(y * 10, y * 10 + x),
            decreases 10 - x,
        {
            row.push(board[y * 10 + x]);
            assert(row@ =~= board@.subrange(y * 10, y * 10 + x + 1));
            x += 1;
        }
        rows.push(row);
        y += 1;
    }
    rows
}

/// Whether a block may not go to (x, y): off the playfield or on a non-empty cell.
pub fn cell_blocked(board: &Board, x: i16, y: i16) -> (r: bool)
    ensures
        r == blocked(board@, x as int, y as int),
{
    match board_index(x, y) {
        Some(index) => board[index] != 0,
        None => true,
    }
}

/// Whether `piece` fits on `board` at `position` and in `rotation` (its own
/// origin and rotation where these are not given).
pub fn is_position_valid(board: &Board, piece: &Piece, position: Option<(i16, i16)>, rotation: Option<u8>) -> (r: bool)
    requires
        cells_representable(piece.kind, chosen_position(*piece, position), chosen_rotation(*piece, rotation)),
    ensures
        r == fits(board@, piece.kind, chosen_position(*piece, position), chosen_rotation(*piece, rotation)),
{
    let blocks = compute_blocks(piece, position, rotation);
    !cell_blocked(board, blocks[0].0, blocks[0].1) && !cell_blocked(board, blocks[1].0, blocks[1].1)
        && !cell_blocked(board, blocks[2].0, blocks[2].1) && !cell_blocked(board, blocks[3].0, blocks[3].1)
}

} // verus!
