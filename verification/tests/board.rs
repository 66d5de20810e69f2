use cgc_core::tetris::board::GameBoard;
use cgc_core::tetris::consts::{BOARD_HEIGHT, BOARD_WIDTH};

fn fill_row(board: &mut GameBoard, y: i32, except: Option<i32>) {
    for x in 0..BOARD_WIDTH as i32 {
        if Some(x) != except {
            board.occupy((x, y));
        }
    }
}

fn row_bits(board: &GameBoard, y: i32) -> Vec<bool> {
    (0..BOARD_WIDTH as i32).map(|x| board.is_filled(x, y)).collect()
}

#[test]
fn board_has_configured_size() {
    assert_eq!(BOARD_WIDTH, 10);
    assert_eq!(BOARD_HEIGHT, 20);
}

#[test]
fn new_board_is_free_everywhere_inside() {
    let board = GameBoard::new();
    for y in 0..20 {
        for x in 0..10 {
            assert!(board.check((x, y)));
            assert!(!board.is_filled(x, y));
        }
    }
}

#[test]
fn check_is_false_outside_whatever_the_board_holds() {
    let empty = GameBoard::new();
    let mut full = GameBoard::new();
    for y in 0..20 {
        fill_row(&mut full, y, None);
    }
    for board in [&empty, &full] {
        for x in -3..13 {
            assert!(!board.check((x, -1)));
            assert!(!board.check((x, 20)));
            assert!(!board.check((x, 21)));
        }
        for y in -3..23 {
            assert!(!board.check((-1, y)));
            assert!(!board.check((10, y)));
        }
        assert!(!board.check((i32::MIN, i32::MIN)));
        assert!(!board.check((i32::MAX, i32::MAX)));
        assert!(!board.check((0, i32::MAX)));
        assert!(!board.check((i32::MIN, 0)));
    }
}

#[test]
fn top_edge_is_a_wall() {
    let board = GameBoard::new();
    assert!(board.check((0, 19)));
    assert!(!board.check((0, 20)));
}

#[test]
fn check_negates_occupancy_inside() {
    let mut board = GameBoard::new();
    board.occupy((3, 7));
    assert!(!board.check((3, 7)));
    assert!(board.is_filled(3, 7));
    assert!(board.check((7, 3)));
    assert!(board.check((3, 6)));
    assert!(board.check((4, 7)));
}

#[test]
fn occupy_outside_is_a_no_op() {
    let mut board = GameBoard::new();
    board.occupy((-1, 0));
    board.occupy((10, 0));
    board.occupy((0, -1));
    board.occupy((0, 20));
    board.occupy((i32::MAX, i32::MIN));
    for y in 0..20 {
        for x in 0..10 {
            assert!(board.check((x, y)));
        }
    }
}

#[test]
fn occupy_twice_is_occupy_once() {
    let mut board = GameBoard::new();
    board.occupy((2, 2));
    board.occupy((2, 2));
    assert!(board.is_filled(2, 2));
    assert_eq!(board.get_max_y(2), 2);
}

#[test]
fn get_max_y_is_highest_filled_row() {
    let mut board = GameBoard::new();
    board.occupy((4, 3));
    board.occupy((4, 11));
    board.occupy((4, 7));
    assert_eq!(board.get_max_y(4), 11);
    board.occupy((4, 19));
    assert_eq!(board.get_max_y(4), 19);
}

#[test]
fn get_max_y_is_zero_for_empty_column_and_outside() {
    let mut board = GameBoard::new();
    board.occupy((4, 3));
    assert_eq!(board.get_max_y(5), 0);
    assert_eq!(board.get_max_y(-1), 0);
    assert_eq!(board.get_max_y(10), 0);
    assert_eq!(board.get_max_y(i32::MAX), 0);
}

#[test]
fn get_max_y_is_zero_for_floor_cell_only() {
    let mut board = GameBoard::new();
    board.occupy((6, 0));
    assert_eq!(board.get_max_y(6), 0);
}

#[test]
fn get_max_y_many_is_maximum_over_columns() {
    let mut board = GameBoard::new();
    board.occupy((1, 4));
    board.occupy((2, 9));
    board.occupy((3, 2));
    assert_eq!(board.get_max_y_many(&vec![1, 2, 3]), 9);
    assert_eq!(board.get_max_y_many(&vec![1, 3]), 4);
    assert_eq!(board.get_max_y_many(&vec![3, 3, 3, 3]), 2);
    assert_eq!(board.get_max_y_many(&vec![5, 6]), 0);
    assert_eq!(board.get_max_y_many(&vec![-4, 2, 40]), 9);
    assert_eq!(board.get_max_y_many(&vec![]), 0);
}

#[test]
fn clear_lines_on_empty_board_clears_nothing() {
    let mut board = GameBoard::new();
    assert_eq!(board.clear_lines(), 0);
    for y in 0..20 {
        assert_eq!(row_bits(&board, y), vec![false; 10]);
    }
}

#[test]
fn clear_lines_keeps_rows_that_are_not_full() {
    let mut board = GameBoard::new();
    fill_row(&mut board, 0, Some(5));
    fill_row(&mut board, 1, Some(0));
    let before0 = row_bits(&board, 0);
    let before1 = row_bits(&board, 1);
    assert_eq!(board.clear_lines(), 0);
    assert_eq!(row_bits(&board, 0), before0);
    assert_eq!(row_bits(&board, 1), before1);
}

#[test]
fn clear_lines_removes_one_row_and_shifts_down() {
    let mut board = GameBoard::new();
    fill_row(&mut board, 0, None);
    board.occupy((2, 1));
    board.occupy((7, 2));
    assert_eq!(board.clear_lines(), 1);
    let mut row0 = vec![false; 10];
    row0[2] = true;
    let mut row1 = vec![false; 10];
    row1[7] = true;
    assert_eq!(row_bits(&board, 0), row0);
    assert_eq!(row_bits(&board, 1), row1);
    for y in 2..20 {
        assert_eq!(row_bits(&board, y), vec![false; 10]);
    }
}

#[test]
fn clear_lines_removes_rows_that_are_not_adjacent() {
    let mut board = GameBoard::new();
    fill_row(&mut board, 0, None);
    fill_row(&mut board, 1, Some(3));
    fill_row(&mut board, 2, None);
    fill_row(&mut board, 3, Some(8));
    fill_row(&mut board, 4, None);
    board.occupy((1, 5));
    assert_eq!(board.clear_lines(), 3);
    let mut row0 = vec![true; 10];
    row0[3] = false;
    let mut row1 = vec![true; 10];
    row1[8] = false;
    let mut row2 = vec![false; 10];
    row2[1] = true;
    assert_eq!(row_bits(&board, 0), row0);
    assert_eq!(row_bits(&board, 1), row1);
    assert_eq!(row_bits(&board, 2), row2);
    for y in 3..20 {
        assert_eq!(row_bits(&board, y), vec![false; 10]);
    }
}

#[test]
fn clear_lines_removes_four_adjacent_rows() {
    let mut board = GameBoard::new();
    for y in 0..4 {
        fill_row(&mut board, y, None);
    }
    board.occupy((9, 4));
    assert_eq!(board.clear_lines(), 4);
    let mut row0 = vec![false; 10];
    row0[9] = true;
    assert_eq!(row_bits(&board, 0), row0);
    for y in 1..20 {
        assert_eq!(row_bits(&board, y), vec![false; 10]);
    }
}

#[test]
fn clear_lines_on_full_board_empties_it() {
    let mut board = GameBoard::new();
    for y in 0..20 {
        fill_row(&mut board, y, None);
    }
    assert_eq!(board.clear_lines(), 20);
    for y in 0..20 {
        assert_eq!(row_bits(&board, y), vec![false; 10]);
    }
    assert_eq!(board.clear_lines(), 0);
}

#[test]
fn clear_lines_clears_top_row() {
    let mut board = GameBoard::new();
    fill_row(&mut board, 19, None);
    board.occupy((0, 18));
    assert_eq!(board.clear_lines(), 1);
    assert!(board.is_filled(0, 18));
    assert_eq!(row_bits(&board, 19), vec![false; 10]);
}

#[test]
fn reset_empties_the_board() {
    let mut board = GameBoard::new();
    fill_row(&mut board, 0, None);
    board.occupy((4, 12));
    board.reset();
    for y in 0..20 {
        for x in 0..10 {
            assert!(board.check((x, y)));
        }
    }
    assert_eq!(board.get_max_y(4), 0);
}
