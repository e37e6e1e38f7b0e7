use tetris_engine::{
    BOARD_HEIGHT, BOARD_WIDTH, GARBAGE_ID, HIDDEN_ROWS, ROTATION_NAMES, SPAWN_X, SPAWN_Y,
    VISIBLE_HEIGHT,
};

#[test]
fn board_and_spawn_constants_match_reference_values() {
    assert_eq!(BOARD_WIDTH, 10);
    assert_eq!(BOARD_HEIGHT, 40);
    assert_eq!(VISIBLE_HEIGHT, 20);
    assert_eq!(HIDDEN_ROWS, 20);
    assert_eq!(GARBAGE_ID, -1);
    assert_eq!(SPAWN_X, 3);
    assert_eq!(SPAWN_Y, 18);
    assert_eq!(ROTATION_NAMES, ["N", "E", "S", "W"]);
}
