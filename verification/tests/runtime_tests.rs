use tetris_engine::runtime::{tick_runtime_step, RuntimeAction, RuntimeTimers};
use tetris_engine::{Piece, PieceKind, TetrisEngine};

fn timers(gravity: i32, lock: i32) -> RuntimeTimers {
    RuntimeTimers { gravity_timer_ms: gravity, lock_timer_ms: lock }
}

#[test]
fn no_piece_in_play_changes_nothing() {
    let t = timers(30, 40);
    assert_eq!(tick_runtime_step(t, 500, 100, 100, false, 5), (t, RuntimeAction::Nothing));
}

#[test]
fn falling_piece_drops_one_row_per_gravity_period() {
    assert_eq!(
        tick_runtime_step(timers(0, 5), 250, 100, 500, true, 10),
        (timers(50, 0), RuntimeAction::Fall(2))
    );
    assert_eq!(
        tick_runtime_step(timers(40, 0), 30, 100, 500, true, 10),
        (timers(70, 0), RuntimeAction::Nothing)
    );
}

#[test]
fn falling_stops_where_the_piece_rests() {
    assert_eq!(
        tick_runtime_step(timers(0, 0), 350, 100, 500, true, 1),
        (timers(250, 0), RuntimeAction::Fall(1))
    );
}

#[test]
fn resting_piece_locks_after_the_delay() {
    let (t, action) = tick_runtime_step(timers(80, 0), 300, 100, 500, true, 0);
    assert_eq!((t, action), (timers(0, 300), RuntimeAction::Nothing));
    assert_eq!(tick_runtime_step(t, 250, 100, 500, true, 0), (timers(0, 0), RuntimeAction::Lock));
}

#[test]
fn out_of_range_times_are_raised() {
    assert_eq!(
        tick_runtime_step(timers(0, 0), -50, 0, 0, true, 0),
        (timers(0, 0), RuntimeAction::Nothing)
    );
    assert_eq!(
        tick_runtime_step(timers(3, 0), -50, -7, 10, true, 2),
        (timers(1, 0), RuntimeAction::Fall(2))
    );
}

#[test]
fn engine_decision_measures_the_fall_on_the_board() {
    let mut engine = TetrisEngine::with_seed(3);
    let piece = Piece::new(PieceKind::T, 0, (3, 18));
    assert_eq!(engine.fall_distance(&piece), 20);
    engine.current_piece = Some(piece);
    assert_eq!(
        engine.tick_runtime_decision(timers(0, 0), 1000, 10, 500),
        (timers(800, 0), RuntimeAction::Fall(20))
    );
    engine.current_piece = Some(Piece::new(PieceKind::T, 0, (3, 38)));
    assert_eq!(
        engine.tick_runtime_decision(timers(0, 0), 600, 10, 500),
        (timers(0, 0), RuntimeAction::Lock)
    );
    engine.game_over = true;
    assert_eq!(
        engine.tick_runtime_decision(timers(7, 8), 600, 10, 500),
        (timers(7, 8), RuntimeAction::Nothing)
    );
}
