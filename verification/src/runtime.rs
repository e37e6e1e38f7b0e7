use vstd::prelude::*;

use crate::bfs::lemma_fits_near;
use crate::board::{cells_representable, fits, is_position_valid, lemma_rotation_offsets_small};
use crate::engine::TetrisEngine;
use crate::piece::{Piece, PieceKind};

verus! {

/// The clocks of a game running in real time: time gathered towards the next
/// gravity row, and time the current piece has rested.
#[derive(Clone, Copy, Debug, PartialEq, Eq, Structural)]
pub struct RuntimeTimers {
    pub gravity_timer_ms: i32,
    pub lock_timer_ms: i32,
}

/// What one tick asks of the game.
#[derive(Clone, Copy, Debug, PartialEq, Eq, Structural)]
pub enum RuntimeAction {
    /// Nothing happens.
    Nothing,
    /// The current piece falls this many rows.
    Fall(i32),
    /// The current piece locks and the next one spawns.
    Lock,
}

/// `v`, raised to `lo` when below it.
pub open spec fn at_least(v: int, lo: int) -> int {
    if v < lo {
        lo
    } else {
        v
    }
}

/// One tick of `dt_ms` milliseconds, with a row falling every `gravity_ms`
/// and a resting piece locking after `lock_delay_ms` (times below 0, 1 and 1
/// are raised to those). With no piece in play nothing changes. A piece that
/// can fall (`free_rows` rows below it are free) gathers time and falls one
/// row per full gravity period, as far as it can, and its rest clock
/// restarts. A resting piece loses its gravity time and gathers rest time,
/// locking once the delay is reached.
pub open spec fn tick_outcome(
    timers: RuntimeTimers,
    dt_ms: int,
    gravity_ms: int,
    lock_delay_ms: int,
    active: bool,
    free_rows: int,
) -> (int, int, RuntimeAction) {
    let dt = at_least(dt_ms, 0);
    let gravity = at_least(gravity_ms, 1);
    let delay = at_least(lock_delay_ms, 1);
    if !active {
        (timers.gravity_timer_ms as int, timers.lock_timer_ms as int, RuntimeAction::Nothing)
    } else if free_rows > 0 {
        let g = timers.gravity_timer_ms + dt;
        let n = if g < gravity {
            0
        } else if g / gravity < free_rows {
            g / gravity
        } else {
            free_rows
        };
        (g - n * gravity, 0, if n > 0 { RuntimeAction::Fall(n as i32) } else { RuntimeAction::Nothing })
    } else {
        let l = timers.lock_timer_ms + dt;
        if l >= delay {
            (0, 0, RuntimeAction::Lock)
        } else {
            (0, l, RuntimeAction::Nothing)
        }
    }
}

/// Decides one tick of real time: the new timers and what the game must do.
pub fn tick_runtime_step(
    timers: RuntimeTimers,
    dt_ms: i32,
    gravity_ms: i32,
    lock_delay_ms: i32,
    active: bool,
    free_rows: i32,
) -> (r: (RuntimeTimers, RuntimeAction))
    requires
        free_rows >= 0,
        active && free_rows > 0 ==> timers.gravity_timer_ms + at_least(dt_ms as int, 0) <= i32::MAX,
        active && free_rows == 0 ==> timers.lock_timer_ms + at_least(dt_ms as int, 0) <= i32::MAX,
    ensures
        ({
            let o = tick_outcome(timers, dt_ms as int, gravity_ms as int, lock_delay_ms as int, active, free_rows as int);
            &&& r.0.gravity_timer_ms == o.0
            &&& r.0.lock_timer_ms == o.1
            &&& r.1 == o.2
        }),
{
    let dt = if dt_ms < 0 { 0 } else { dt_ms };
    let gravity = if gravity_ms < 1 { 1 } else { gravity_ms };
    let delay = if lock_delay_ms < 1 { 1 } else { lock_delay_ms };
    if !active {
        return (timers, RuntimeAction::Nothing);
    }
    if free_rows > 0 {
        let g = timers.gravity_timer_ms + dt;
        let n = if g < gravity {
            0
        } else if g / gravity < free_rows {
            g / gravity
        } else {
            free_rows
        };
        assert(0 <= n * gravity <= g || n == 0) by (nonlinear_arith)
            requires
                gravity >= 1,
                n == 0 || (g >= gravity && n <= g / gravity && n >= 0),
        ;
        let rest = g - n * gravity;
        let action = if n > 0 { RuntimeAction::Fall(n) } else { RuntimeAction::Nothing };
        (RuntimeTimers { gravity_timer_ms: rest, lock_timer_ms: 0 }, action)
    } else {
        let l = timers.lock_timer_ms + dt;
        if l >= delay {
            (RuntimeTimers { gravity_timer_ms: 0, lock_timer_ms: 0 }, RuntimeAction::Lock)
        } else {
            (RuntimeTimers { gravity_timer_ms: 0, lock_timer_ms: l }, RuntimeAction::Nothing)
        }
    }
}

/// Whether `piece` fits at each of the `n` rows below its origin.
pub open spec fn falls_clear(board: Seq<i8>, piece: Piece, n: int) -> bool {
    forall|i: int|
        1 <= i <= n ==> #[trigger] fits(board, piece.kind, (piece.position.0 as int, piece.position.1 + i), (piece.rotation % 4) as int)
}

/// Whether `n` is how far `piece` can fall: it fits in each of the `n` rows
/// below it and not in the next.
pub open spec fn is_fall_room(board: Seq<i8>, piece: Piece, n: int) -> bool {
    &&& 0 <= n
    &&& falls_clear(board, piece, n)
    &&& !fits(board, piece.kind, (piece.position.0 as int, piece.position.1 + n + 1), (piece.rotation % 4) as int)
}

/// How far `piece` can fall on `board`.
pub open spec fn free_rows(board: Seq<i8>, piece: Piece) -> int {
    choose|n: int| is_fall_room(board, piece, n)
}

/// The fall room is unique, so it is what `free_rows` names.
pub proof fn lemma_free_rows_unique(board: Seq<i8>, piece: Piece, n: int)
    requires
        is_fall_room(board, piece, n),
    ensures
        free_rows(board, piece) == n,
{
    let m = free_rows(board, piece);
    assert(is_fall_room(board, piece, m));
    if m < n {
        assert(fits(board, piece.kind, (piece.position.0 as int, piece.position.1 + (m + 1)), (piece.rotation % 4) as int));
    } else if n < m {
        assert(fits(board, piece.kind, (piece.position.0 as int, piece.position.1 + (n + 1)), (piece.rotation % 4) as int));
    }
}

/// Every placement whose origin leaves room for offsets up to 3 below the
/// top of `i16` has representable cells.
proof fn lemma_offsets_representable(kind: PieceKind, x: int, y: int, rot: int)
    requires
        i16::MIN <= x <= i16::MAX - 3,
        i16::MIN <= y <= i16::MAX - 3,
        0 <= rot < 4,
    ensures
        cells_representable(kind, (x, y), rot),
{
    lemma_rotation_offsets_small(kind, (rot % 4) as nat);
}

impl TetrisEngine {
    /// How many rows `piece` can fall from where it is: the rows below it in
    /// which it fits, up to the first in which it does not.
    pub fn fall_distance(&self, piece: &Piece) -> (r: i32)
        requires
            piece.position.0 <= i16::MAX - 3,
            piece.position.1 <= i16::MAX - 4,
        ensures
            0 <= r,
            falls_clear(self.board@, *piece, r as int),
            !fits(self.board@, piece.kind, (piece.position.0 as int, piece.position.1 + r + 1), (piece.rotation % 4) as int),
    {
        let x = piece.position.0;
        let y = piece.position.1;
        let rot = piece.rotation % 4;
        let mut n: i16 = 0;
        loop
            invariant
                0 <= n <= 64,
                x == piece.position.0,
                y == piece.position.1,
                rot == piece.rotation % 4,
                x <= i16::MAX - 3,
                y <= i16::MAX - 4,
                n >= 1 ==> y + n <= 39,
                falls_clear(self.board@, *piece, n as int),
            decreases 64 - n,
        {
            proof {
                lemma_offsets_representable(piece.kind, x as int, y as int + n + 1, rot as int);
            }
            if !is_position_valid(&self.board, piece, Some((x, y + n + 1)), Some(rot)) {
                return n as i32;
            }
            proof {
                lemma_fits_near(self.board@, piece.kind, (x as int, y + n + 1, rot as int));
                if n >= 1 {
                    assert(fits(self.board@, piece.kind, (x as int, y + 1), rot as int));
                    lemma_fits_near(self.board@, piece.kind, (x as int, y + 1, rot as int));
                }
                assert(falls_clear(self.board@, *piece, n + 1)) by {
                    assert forall|i: int| 1 <= i <= n + 1 implies #[trigger] fits(
                        self.board@,
                        piece.kind,
                        (piece.position.0 as int, piece.position.1 + i),
                        (piece.rotation % 4) as int,
                    ) by {
                        if i <= n {
                            assert(falls_clear(self.board@, *piece, n as int));
                        }
                    }
                }
            }
            n = n + 1;
        }
    }

    /// Decides one tick of real time for this engine: a piece is in play when
    /// the game is not over and there is a current piece, and the rows it can
    /// fall are measured on the board.
    pub fn tick_runtime_decision(&self, timers: RuntimeTimers, dt_ms: i32, gravity_ms: i32, lock_delay_ms: i32) -> (r: (RuntimeTimers, RuntimeAction))
        requires
            !self.game_over && self.current_piece is Some ==> {
                let p = self.current_piece.unwrap();
                &&& p.position.0 <= i16::MAX - 3
                &&& p.position.1 <= i16::MAX - 4
                &&& if free_rows(self.board@, p) > 0 {
                    timers.gravity_timer_ms + at_least(dt_ms as int, 0) <= i32::MAX
                } else {
                    timers.lock_timer_ms + at_least(dt_ms as int, 0) <= i32::MAX
                }
            },
        ensures
            ({
                let active = !self.game_over && self.current_piece is Some;
                let free = if active { free_rows(self.board@, self.current_piece.unwrap()) } else { 0 };
                let o = tick_outcome(timers, dt_ms as int, gravity_ms as int, lock_delay_ms as int, active, free);
                r.0.gravity_timer_ms == o.0 && r.0.lock_timer_ms == o.1 && r.1 == o.2
            }),
    {
        if self.game_over {
            return tick_runtime_step(timers, dt_ms, gravity_ms, lock_delay_ms, false, 0);
        }
        match self.current_piece {
            Some(piece) => {
                let free = self.fall_distance(&piece);
                proof {
                    lemma_free_rows_unique(self.board@, piece, free as int);
                }
                tick_runtime_step(timers, dt_ms, gravity_ms, lock_delay_ms, true, free)
            },
            None => tick_runtime_step(timers, dt_ms, gravity_ms, lock_delay_ms, false, 0),
        }
    }
}

} // verus!
