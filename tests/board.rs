use tetris::{Board, PieceKind, GAME_HEIGHT, GAME_WIDTH};

fn fill_row(board: &mut Board, y: usize, color: u8) {
    for x in 0..GAME_WIDTH {
        board.set_cell(x, y, color);
    }
}

fn row(board: &Board, y: usize) -> Vec<Option<u8>> {
    (0..GAME_WIDTH).map(|x| board.cell(x, y)).collect()
}

#[test]
fn new_board_is_empty() {
    let board = Board::new(GAME_HEIGHT);
    assert_eq!(board.height(), 20);
    for y in 0..GAME_HEIGHT {
        for x in 0..GAME_WIDTH {
            assert!(!board.is_occupied(x, y));
        }
        assert!(!board.row_is_full(y));
    }
}

#[test]
fn set_and_clear_cell() {
    let mut board = Board::new(4);
    board.set_cell(3, 2, 31);
    assert!(board.is_occupied(3, 2));
    assert_eq!(board.cell(3, 2), Some(31));
    assert!(!board.is_occupied(2, 3));
    board.clear_cell(3, 2);
    assert_eq!(board.cell(3, 2), None);
}

#[test]
fn row_full_only_when_every_cell_taken() {
    let mut board = Board::new(3);
    for x in 0..GAME_WIDTH - 1 {
        board.set_cell(x, 1, 32);
    }
    assert!(!board.row_is_full(1));
    board.set_cell(GAME_WIDTH - 1, 1, 32);
    assert!(board.row_is_full(1));
}

#[test]
fn clear_with_no_full_rows_changes_nothing() {
    let mut board = Board::new(5);
    board.set_cell(0, 4, 33);
    assert_eq!(board.clear_full_rows(), 0);
    assert_eq!(board.height(), 5);
    assert_eq!(board.cell(0, 4), Some(33));
}

#[test]
fn clear_one_full_row_shifts_rows_above_down() {
    let mut board = Board::new(5);
    board.set_cell(2, 2, 34);
    fill_row(&mut board, 3, 35);
    board.set_cell(7, 4, 36);
    assert_eq!(board.clear_full_rows(), 1);
    assert_eq!(board.height(), 5);
    assert_eq!(row(&board, 0), vec![None; GAME_WIDTH]);
    assert_eq!(board.cell(2, 3), Some(34));
    assert_eq!(board.cell(2, 2), None);
    assert_eq!(board.cell(7, 4), Some(36));
}

#[test]
fn clear_several_full_rows_keeps_order_of_the_rest() {
    let mut board = Board::new(8);
    board.set_cell(0, 1, 1);
    fill_row(&mut board, 2, 9);
    board.set_cell(1, 3, 2);
    fill_row(&mut board, 4, 9);
    fill_row(&mut board, 5, 9);
    board.set_cell(2, 6, 3);
    fill_row(&mut board, 7, 9);
    assert_eq!(board.clear_full_rows(), 4);
    assert_eq!(board.height(), 8);
    for y in 0..5 {
        assert_eq!(row(&board, y), vec![None; GAME_WIDTH]);
    }
    assert_eq!(board.cell(0, 5), Some(1));
    assert_eq!(board.cell(1, 6), Some(2));
    assert_eq!(board.cell(2, 7), Some(3));
    for y in 0..8 {
        assert!(!board.row_is_full(y));
    }
}

#[test]
fn clear_every_row_of_a_full_board() {
    let mut board = Board::new(GAME_HEIGHT);
    for y in 0..GAME_HEIGHT {
        fill_row(&mut board, y, 5);
    }
    assert_eq!(board.clear_full_rows(), GAME_HEIGHT);
    assert_eq!(board.height(), GAME_HEIGHT);
    for y in 0..GAME_HEIGHT {
        assert_eq!(row(&board, y), vec![None; GAME_WIDTH]);
    }
}

#[test]
fn placement_inside_an_empty_board_passes() {
    let board = Board::new(GAME_HEIGHT);
    let shape = PieceKind::Tee.shape();
    // Cells span columns 1..=3 and rows 1..=2.
    assert_eq!(board.check_placement(&shape, 2, 2), (true, true));
    let square = PieceKind::Square.shape();
    // Cells at columns 9, 10 and rows 18, 19.
    assert_eq!(board.check_placement(&square, 9, 18), (true, true));
    // Rows 19 and 20: row 20 is past the last row.
    assert_eq!(board.check_placement(&square, 9, 19), (true, false));
}

#[test]
fn placement_out_of_columns_fails_column_flag() {
    let board = Board::new(GAME_HEIGHT);
    let tee = PieceKind::Tee.shape();
    assert_eq!(board.check_placement(&tee, 1, 5), (false, true));
    assert_eq!(board.check_placement(&tee, 10, 5), (false, true));
    assert_eq!(board.check_placement(&tee, 9, 5), (true, true));
}

#[test]
fn placement_out_of_rows_fails_row_flag() {
    let board = Board::new(GAME_HEIGHT);
    let straight = PieceKind::Straight.shape();
    assert_eq!(board.check_placement(&straight, 5, 1), (true, false));
    assert_eq!(board.check_placement(&straight, 5, 18), (true, false));
    assert_eq!(board.check_placement(&straight, 5, 17), (true, true));
}

#[test]
fn placement_on_a_block_fails_both_flags() {
    let mut board = Board::new(GAME_HEIGHT);
    // Column 5 on the playfield is board column index 4.
    board.set_cell(4, 10, 31);
    let straight = PieceKind::Straight.shape();
    assert_eq!(board.check_placement(&straight, 5, 9), (false, false));
    assert_eq!(board.check_placement(&straight, 6, 9), (true, true));
}
