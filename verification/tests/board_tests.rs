use tetris_engine::board::board_rows;
use tetris_engine::{board_index, cell_blocked, compute_blocks, is_position_valid, Piece, PieceKind};
use tetris_engine::{BOARD_HEIGHT, BOARD_WIDTH};

#[test]
fn board_index_is_row_major_and_bounds_checked() {
    assert_eq!(board_index(0, 0), Some(0));
    assert_eq!(board_index(9, 0), Some(9));
    assert_eq!(board_index(0, 1), Some(10));
    assert_eq!(board_index(9, 39), Some(399));
    assert_eq!(board_index(-1, 0), None);
    assert_eq!(board_index(10, 0), None);
    assert_eq!(board_index(0, 40), None);
}

#[test]
fn compute_blocks_matches_reference_global_coordinates() {
    let piece = Piece::new(PieceKind::T, 0, (4, 10));
    assert_eq!(
        compute_blocks(&piece, None, None),
        [(5, 10), (4, 11), (5, 11), (6, 11)]
    );
    assert_eq!(
        compute_blocks(&piece, Some((7, 18)), Some(1)),
        [(9, 19), (8, 18), (8, 19), (8, 20)]
    );

    let i_piece = Piece::new(PieceKind::I, 0, (3, 18));
    assert_eq!(
        compute_blocks(&i_piece, Some((3, 18)), Some(2)),
        [(6, 20), (5, 20), (4, 20), (3, 20)]
    );
}

#[test]
fn is_position_valid_accepts_open_placements_and_rejects_out_of_bounds() {
    let board = [0; BOARD_WIDTH * BOARD_HEIGHT];
    let piece = Piece::new(PieceKind::T, 0, (4, 10));
    assert!(is_position_valid(&board, &piece, None, None));

    let left_oob = Piece::new(PieceKind::I, 0, (-1, 18));
    assert!(!is_position_valid(&board, &left_oob, None, None));

    let top_oob = Piece::new(PieceKind::T, 0, (4, -1));
    assert!(!is_position_valid(&board, &top_oob, None, None));

    let bottom_oob = Piece::new(PieceKind::O, 0, (4, 38));
    assert!(!is_position_valid(&board, &bottom_oob, None, None));

    let right_oob = Piece::new(PieceKind::I, 0, (7, 18));
    assert!(!is_position_valid(&board, &right_oob, None, None));
}

#[test]
fn is_position_valid_rejects_occupied_cell_collisions() {
    let mut board = [0; BOARD_WIDTH * BOARD_HEIGHT];
    let piece = Piece::new(PieceKind::T, 0, (4, 10));
    let collision_index = board_index(5, 11).unwrap();
    board[collision_index] = 9;

    assert!(!is_position_valid(&board, &piece, None, None));
}

#[test]
fn cell_blocked_treats_bounds_and_non_zero_cells_as_blocked() {
    let mut board = [0; BOARD_WIDTH * BOARD_HEIGHT];
    board[board_index(2, 3).unwrap()] = 7;

    assert!(cell_blocked(&board, -1, 0));
    assert!(cell_blocked(&board, 10, 0));
    assert!(cell_blocked(&board, 2, 3));
    assert!(!cell_blocked(&board, 0, 0));
}

#[test]
fn cell_blocked_rejects_rows_outside_the_board() {
    let board = [0; BOARD_WIDTH * BOARD_HEIGHT];
    assert!(cell_blocked(&board, 0, -1));
    assert!(cell_blocked(&board, 0, 40));
    assert!(!cell_blocked(&board, 9, 39));
}

#[test]
fn is_position_valid_uses_the_given_rotation_and_position() {
    let board = [0; BOARD_WIDTH * BOARD_HEIGHT];
    let piece = Piece::new(PieceKind::I, 0, (3, 18));
    // Vertical I at column 8 + 2 = 10 is outside the board.
    assert!(!is_position_valid(&board, &piece, Some((8, 10)), Some(1)));
    assert!(is_position_valid(&board, &piece, Some((7, 10)), Some(1)));
}

#[test]
fn board_rows_split_the_board_top_row_first() {
    let mut board = [0; BOARD_WIDTH * BOARD_HEIGHT];
    board[board_index(3, 0).unwrap()] = 2;
    board[board_index(9, 39).unwrap()] = -1;
    let rows = board_rows(&board);
    assert_eq!(rows.len(), 40);
    assert!(rows.iter().all(|row| row.len() == 10));
    assert_eq!(rows[0][3], 2);
    assert_eq!(rows[39][9], -1);
    assert_eq!(rows.concat(), board.to_vec());
}
