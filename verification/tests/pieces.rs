use cgc_core::tetris::active::{ActivePiece, COORD_LIMIT};
use cgc_core::tetris::board::GameBoard;
use cgc_core::tetris::components::{FigureType, GridPosition, Rotation};
use cgc_core::tetris::rotations::{rotate_left, rotate_right};

fn xy(piece: &ActivePiece) -> Vec<(i32, i32)> {
    piece.cells().iter().map(|c| (c.x, c.y)).collect()
}

fn full_board_except(free: &[(i32, i32)]) -> GameBoard {
    let mut board = GameBoard::new();
    for y in 0..20 {
        for x in 0..10 {
            if !free.contains(&(x, y)) {
                board.occupy((x, y));
            }
        }
    }
    board
}

#[test]
fn rotate_left_is_counter_clockwise() {
    assert_eq!(rotate_left(1, 0), (0, 1));
    assert_eq!(rotate_left(0, 1), (-1, 0));
    assert_eq!(rotate_left(2, 3), (-3, 2));
    assert_eq!(rotate_left(0, 0), (0, 0));
}

#[test]
fn rotate_right_is_clockwise() {
    assert_eq!(rotate_right(1, 0), (0, -1));
    assert_eq!(rotate_right(0, 1), (1, 0));
    assert_eq!(rotate_right(2, 3), (3, -2));
    assert_eq!(rotate_right(0, 0), (0, 0));
}

#[test]
fn rotations_undo_each_other() {
    for x in -5..6 {
        for y in -5..6 {
            let (a, b) = rotate_left(x, y);
            assert_eq!(rotate_right(a, b), (x, y));
            let (c, d) = rotate_right(x, y);
            assert_eq!(rotate_left(c, d), (x, y));
        }
    }
}

#[test]
fn rotation_state_cycles_right() {
    assert_eq!(Rotation::R0.right(), Rotation::RR);
    assert_eq!(Rotation::RR.right(), Rotation::R2);
    assert_eq!(Rotation::R2.right(), Rotation::RL);
    assert_eq!(Rotation::RL.right(), Rotation::R0);
}

#[test]
fn rotation_state_cycles_left() {
    assert_eq!(Rotation::R0.left(), Rotation::RL);
    assert_eq!(Rotation::RL.left(), Rotation::R2);
    assert_eq!(Rotation::R2.left(), Rotation::RR);
    assert_eq!(Rotation::RR.left(), Rotation::R0);
}

#[test]
fn left_is_inverse_of_right() {
    for rot in [Rotation::R0, Rotation::RR, Rotation::R2, Rotation::RL] {
        assert_eq!(rot.right().left(), rot);
        assert_eq!(rot.left().right(), rot);
    }
}

#[test]
fn catalog_lists_seven_types() {
    assert_eq!(
        FigureType::all(),
        [
            FigureType::O,
            FigureType::I,
            FigureType::S,
            FigureType::Z,
            FigureType::L,
            FigureType::J,
            FigureType::T
        ]
    );
}

#[test]
fn spawn_cells_of_each_type() {
    assert_eq!(FigureType::O.to_dots(), [(0, 0), (1, 0), (0, 1), (1, 1)]);
    assert_eq!(FigureType::I.to_dots(), [(0, 0), (1, 0), (2, 0), (3, 0)]);
    assert_eq!(FigureType::S.to_dots(), [(0, 0), (1, 0), (1, 1), (2, 1)]);
    assert_eq!(FigureType::Z.to_dots(), [(1, 0), (2, 0), (0, 1), (1, 1)]);
    assert_eq!(FigureType::L.to_dots(), [(2, 1), (0, 0), (1, 0), (2, 0)]);
    assert_eq!(FigureType::J.to_dots(), [(0, 1), (0, 0), (1, 0), (2, 0)]);
    assert_eq!(FigureType::T.to_dots(), [(0, 0), (1, 0), (2, 0), (1, 1)]);
}

#[test]
fn center_points_of_o_shift_per_state() {
    assert_eq!(FigureType::O.center_point(&Rotation::R0), (0, 0));
    assert_eq!(FigureType::O.center_point(&Rotation::RR), (0, 1));
    assert_eq!(FigureType::O.center_point(&Rotation::R2), (1, 1));
    assert_eq!(FigureType::O.center_point(&Rotation::RL), (1, 0));
}

#[test]
fn center_points_of_i_are_asymmetric() {
    assert_eq!(FigureType::I.center_point(&Rotation::R0), (1, 0));
    assert_eq!(FigureType::I.center_point(&Rotation::RR), (0, 2));
    assert_eq!(FigureType::I.center_point(&Rotation::R2), (2, 0));
    assert_eq!(FigureType::I.center_point(&Rotation::RL), (0, 1));
}

#[test]
fn center_points_of_the_other_types() {
    for kind in [FigureType::L, FigureType::J, FigureType::Z, FigureType::S, FigureType::T] {
        assert_eq!(kind.center_point(&Rotation::R0), (1, 0));
        assert_eq!(kind.center_point(&Rotation::RR), (0, 1));
        assert_eq!(kind.center_point(&Rotation::R2), (1, 1));
        assert_eq!(kind.center_point(&Rotation::RL), (1, 1));
    }
}

#[test]
fn test_tables_have_five_entries_or_one() {
    for rot in [Rotation::R0, Rotation::RR, Rotation::R2, Rotation::RL] {
        assert_eq!(FigureType::O.tests_for_single_rot(&rot).len(), 1);
        for kind in [
            FigureType::I,
            FigureType::S,
            FigureType::Z,
            FigureType::L,
            FigureType::J,
            FigureType::T,
        ] {
            assert_eq!(kind.tests_for_single_rot(&rot).len(), 5);
        }
    }
}

#[test]
fn test_tables_hold_the_catalog_values() {
    assert_eq!(
        FigureType::T.tests_for_single_rot(&Rotation::RR),
        vec![(0, 0), (1, 0), (1, -1), (0, 2), (1, 2)]
    );
    assert_eq!(
        FigureType::J.tests_for_single_rot(&Rotation::RL),
        vec![(0, 0), (-1, 0), (-1, -1), (0, 2), (-1, 2)]
    );
    assert_eq!(
        FigureType::I.tests_for_single_rot(&Rotation::R2),
        vec![(-1, 1), (1, 1), (-2, 1), (1, 0), (-2, 0)]
    );
    assert_eq!(FigureType::O.tests_for_single_rot(&Rotation::R2), vec![(-1, -1)]);
}

#[test]
fn kick_candidates_are_differences_of_test_offsets() {
    assert_eq!(
        FigureType::T.tests_for_rot(&Rotation::R0, &Rotation::RR),
        vec![(0, 0), (-1, 0), (-1, 1), (0, -2), (-1, -2)]
    );
    assert_eq!(
        FigureType::T.tests_for_rot(&Rotation::RR, &Rotation::R0),
        vec![(0, 0), (1, 0), (1, -1), (0, 2), (1, 2)]
    );
    assert_eq!(
        FigureType::I.tests_for_rot(&Rotation::R0, &Rotation::RR),
        vec![(1, 0), (-1, 0), (2, 0), (-1, -1), (2, 2)]
    );
    assert_eq!(FigureType::O.tests_for_rot(&Rotation::R0, &Rotation::RR), vec![(0, 1)]);
    assert_eq!(FigureType::O.tests_for_rot(&Rotation::RR, &Rotation::R2), vec![(1, 0)]);
}

#[test]
fn spawned_piece_sits_at_the_anchor() {
    let piece = ActivePiece::spawn(FigureType::O);
    assert_eq!(xy(&piece), vec![(4, 18), (5, 18), (4, 19), (5, 19)]);
    assert_eq!(piece.kind(), FigureType::O);
    assert_eq!(piece.rotation(), Rotation::R0);
    let piece = ActivePiece::spawn(FigureType::I);
    assert_eq!(xy(&piece), vec![(4, 18), (5, 18), (6, 18), (7, 18)]);
    let piece = ActivePiece::spawn(FigureType::L);
    assert_eq!(xy(&piece), vec![(6, 19), (4, 18), (5, 18), (6, 18)]);
}

#[test]
fn every_spawned_piece_has_four_distinct_free_cells() {
    let board = GameBoard::new();
    for kind in FigureType::all() {
        let piece = ActivePiece::spawn(kind);
        let cells = xy(&piece);
        for i in 0..4 {
            for j in (i + 1)..4 {
                assert_ne!(cells[i], cells[j]);
            }
        }
        assert!(piece.is_free(&board));
    }
}

#[test]
fn place_puts_turned_cells_around_the_anchor() {
    let piece = ActivePiece::place(FigureType::I, Rotation::RR, 5, 3).unwrap();
    assert_eq!(xy(&piece), vec![(5, 3), (5, 2), (5, 1), (5, 0)]);
    assert_eq!(piece.rotation(), Rotation::RR);
    let piece = ActivePiece::place(FigureType::I, Rotation::RL, 5, 0).unwrap();
    assert_eq!(xy(&piece), vec![(5, 0), (5, 1), (5, 2), (5, 3)]);
    let piece = ActivePiece::place(FigureType::T, Rotation::R2, 6, 6).unwrap();
    assert_eq!(xy(&piece), vec![(6, 6), (5, 6), (4, 6), (5, 5)]);
    let piece = ActivePiece::place(FigureType::T, Rotation::R0, 4, 18).unwrap();
    assert_eq!(xy(&piece), xy(&ActivePiece::spawn(FigureType::T)));
}

#[test]
fn place_refuses_cells_beyond_the_limit() {
    assert!(ActivePiece::place(FigureType::I, Rotation::R0, COORD_LIMIT - 3, 0).is_some());
    assert!(ActivePiece::place(FigureType::I, Rotation::R0, COORD_LIMIT - 2, 0).is_none());
    assert!(ActivePiece::place(FigureType::I, Rotation::R0, 0, COORD_LIMIT).is_some());
    assert!(ActivePiece::place(FigureType::I, Rotation::R0, 0, COORD_LIMIT + 1).is_none());
    assert!(ActivePiece::place(FigureType::O, Rotation::R0, i32::MAX, i32::MAX).is_none());
    assert!(ActivePiece::place(FigureType::O, Rotation::R2, i32::MIN, i32::MIN).is_none());
    assert!(ActivePiece::place(FigureType::I, Rotation::R2, -COORD_LIMIT + 3, 0).is_some());
    assert!(ActivePiece::place(FigureType::I, Rotation::R2, -COORD_LIMIT + 2, 0).is_none());
}

#[test]
fn occupies_tells_the_four_cells() {
    let piece = ActivePiece::spawn(FigureType::T);
    assert!(piece.occupies(GridPosition { x: 4, y: 18 }));
    assert!(piece.occupies(GridPosition { x: 5, y: 19 }));
    assert!(!piece.occupies(GridPosition { x: 4, y: 19 }));
    assert!(!piece.occupies(GridPosition { x: 0, y: 0 }));
}

#[test]
fn bounding_box_corner() {
    let piece = ActivePiece::spawn(FigureType::L);
    assert_eq!(piece.left_edge(), 4);
    assert_eq!(piece.bottom(), 18);
    let piece = ActivePiece::place(FigureType::I, Rotation::RR, 5, 3).unwrap();
    assert_eq!(piece.left_edge(), 5);
    assert_eq!(piece.bottom(), 0);
}

#[test]
fn horizontal_move_shifts_all_cells() {
    let board = GameBoard::new();
    let mut piece = ActivePiece::spawn(FigureType::O);
    assert!(piece.move_horizontally(&board, true));
    assert_eq!(xy(&piece), vec![(5, 18), (6, 18), (5, 19), (6, 19)]);
    assert!(piece.move_horizontally(&board, false));
    assert!(piece.move_horizontally(&board, false));
    assert_eq!(xy(&piece), vec![(3, 18), (4, 18), (3, 19), (4, 19)]);
}

#[test]
fn horizontal_move_stops_at_the_walls() {
    let board = GameBoard::new();
    let mut piece = ActivePiece::spawn(FigureType::O);
    let mut moves = 0;
    while piece.move_horizontally(&board, false) {
        moves += 1;
    }
    assert_eq!(moves, 4);
    assert_eq!(xy(&piece), vec![(0, 18), (1, 18), (0, 19), (1, 19)]);
    let mut moves = 0;
    while piece.move_horizontally(&board, true) {
        moves += 1;
    }
    assert_eq!(moves, 8);
    assert_eq!(xy(&piece), vec![(8, 18), (9, 18), (8, 19), (9, 19)]);
}

#[test]
fn horizontal_move_is_blocked_by_a_filled_cell() {
    let mut board = GameBoard::new();
    board.occupy((6, 19));
    let mut piece = ActivePiece::spawn(FigureType::O);
    assert!(!piece.move_horizontally(&board, true));
    assert_eq!(xy(&piece), vec![(4, 18), (5, 18), (4, 19), (5, 19)]);
    assert!(piece.move_horizontally(&board, false));
}

#[test]
fn descend_moves_one_row_down_until_blocked() {
    let mut board = GameBoard::new();
    board.occupy((4, 10));
    let mut piece = ActivePiece::spawn(FigureType::O);
    let mut rows = 0;
    while piece.descend(&board) {
        rows += 1;
    }
    assert_eq!(rows, 7);
    assert_eq!(xy(&piece), vec![(4, 11), (5, 11), (4, 12), (5, 12)]);
    assert!(!piece.can_descend(&board));
}

#[test]
fn descend_stops_at_the_floor() {
    let board = GameBoard::new();
    let mut piece = ActivePiece::spawn(FigureType::I);
    let mut rows = 0;
    while piece.descend(&board) {
        rows += 1;
    }
    assert_eq!(rows, 18);
    assert_eq!(piece.bottom(), 0);
}

#[test]
fn rotation_in_place_takes_the_first_candidate() {
    let board = GameBoard::new();
    let mut piece = ActivePiece::spawn(FigureType::T);
    assert!(piece.rotate(&board, true));
    assert_eq!(piece.rotation(), Rotation::RR);
    assert_eq!(xy(&piece), vec![(5, 19), (5, 18), (5, 17), (6, 18)]);
}

#[test]
fn counter_clockwise_rotation_in_place() {
    let board = GameBoard::new();
    let mut piece = ActivePiece::spawn(FigureType::T);
    assert!(piece.rotate(&board, false));
    assert_eq!(piece.rotation(), Rotation::RL);
    assert_eq!(xy(&piece), vec![(5, 17), (5, 18), (5, 19), (4, 18)]);
}

#[test]
fn rotation_of_i_uses_its_first_kick() {
    let board = GameBoard::new();
    let mut piece = ActivePiece::spawn(FigureType::I);
    assert!(piece.rotate(&board, true));
    assert_eq!(piece.rotation(), Rotation::RR);
    assert_eq!(xy(&piece), vec![(6, 19), (6, 18), (6, 17), (6, 16)]);
}

#[test]
fn rotation_falls_back_to_a_later_candidate() {
    let mut board = GameBoard::new();
    board.occupy((6, 17));
    let mut piece = ActivePiece::spawn(FigureType::I);
    assert!(piece.rotate(&board, true));
    assert_eq!(piece.rotation(), Rotation::RR);
    assert_eq!(xy(&piece), vec![(4, 19), (4, 18), (4, 17), (4, 16)]);
}

#[test]
fn rotation_without_a_fitting_candidate_changes_nothing() {
    let own = [(4, 18), (5, 18), (6, 18), (7, 18)];
    let board = full_board_except(&own);
    let mut piece = ActivePiece::spawn(FigureType::I);
    assert!(!piece.rotate(&board, true));
    assert_eq!(piece.rotation(), Rotation::R0);
    assert_eq!(xy(&piece), own.to_vec());
    assert!(!piece.rotate(&board, false));
    assert_eq!(piece.rotation(), Rotation::R0);
    assert_eq!(xy(&piece), own.to_vec());
}

#[test]
fn rotation_of_o_keeps_its_cells_and_changes_state() {
    let board = GameBoard::new();
    let mut piece = ActivePiece::spawn(FigureType::O);
    let mut before = xy(&piece);
    before.sort();
    assert!(piece.rotate(&board, true));
    assert_eq!(piece.rotation(), Rotation::RR);
    let mut after = xy(&piece);
    after.sort();
    assert_eq!(after, before);
}

#[test]
fn four_rotations_give_the_shape_back() {
    let board = GameBoard::new();
    for kind in FigureType::all() {
        for clockwise in [true, false] {
            let mut piece = ActivePiece::place(kind, Rotation::R0, 4, 10).unwrap();
            let norm = |p: &ActivePiece| {
                let mut v: Vec<(i32, i32)> =
                    xy(p).iter().map(|c| (c.0 - p.left_edge(), c.1 - p.bottom())).collect();
                v.sort();
                v
            };
            let shape = norm(&piece);
            for _ in 0..4 {
                assert!(piece.rotate(&board, clockwise));
            }
            assert_eq!(piece.rotation(), Rotation::R0);
            assert_eq!(norm(&piece), shape);
        }
    }
}

#[test]
fn rotated_cells_stay_distinct_and_free() {
    let board = GameBoard::new();
    for kind in FigureType::all() {
        let mut piece = ActivePiece::place(kind, Rotation::R0, 4, 10).unwrap();
        for _ in 0..8 {
            piece.rotate(&board, true);
            let cells = xy(&piece);
            for i in 0..4 {
                assert!(board.check(cells[i]));
                for j in (i + 1)..4 {
                    assert_ne!(cells[i], cells[j]);
                }
            }
        }
    }
}

#[test]
fn hard_drop_on_empty_board_lands_on_the_floor() {
    let board = GameBoard::new();
    let mut piece = ActivePiece::spawn(FigureType::O);
    let travel = piece.hard_drop(&board);
    assert_eq!(xy(&piece), vec![(4, 0), (5, 0), (4, 1), (5, 1)]);
    assert_eq!(travel, 72);
}

#[test]
fn hard_drop_lands_above_the_highest_filled_cell() {
    let mut board = GameBoard::new();
    board.occupy((4, 3));
    board.occupy((5, 6));
    board.occupy((6, 9));
    let mut piece = ActivePiece::spawn(FigureType::O);
    let travel = piece.hard_drop(&board);
    assert_eq!(piece.bottom(), 7);
    assert_eq!(xy(&piece), vec![(4, 7), (5, 7), (4, 8), (5, 8)]);
    assert_eq!(travel, 4 * 11);
}

#[test]
fn hard_drop_lands_above_a_floor_cell() {
    let mut board = GameBoard::new();
    board.occupy((5, 0));
    let mut piece = ActivePiece::spawn(FigureType::O);
    let travel = piece.hard_drop(&board);
    assert_eq!(piece.bottom(), 1);
    assert_eq!(travel, 4 * 17);
    assert!(piece.is_free(&board));
}

#[test]
fn hard_drop_of_a_resting_piece_travels_nothing() {
    let board = GameBoard::new();
    let mut piece = ActivePiece::spawn(FigureType::S);
    piece.hard_drop(&board);
    let cells = xy(&piece);
    assert_eq!(piece.hard_drop(&board), 0);
    assert_eq!(xy(&piece), cells);
}

#[test]
fn hard_drop_under_an_overhang_counts_rows_upward() {
    let mut board = GameBoard::new();
    board.occupy((4, 10));
    let mut piece = ActivePiece::place(FigureType::O, Rotation::R0, 4, 2).unwrap();
    let travel = piece.hard_drop(&board);
    assert_eq!(piece.bottom(), 11);
    assert_eq!(travel, 4 * 9);
}

#[test]
fn lock_into_fills_the_four_cells() {
    let mut board = GameBoard::new();
    let piece = ActivePiece::place(FigureType::T, Rotation::R0, 3, 0).unwrap();
    piece.lock_into(&mut board);
    for y in 0..20 {
        for x in 0..10 {
            let own = piece.occupies(GridPosition { x, y });
            assert_eq!(board.is_filled(x, y), own);
        }
    }
}

#[test]
fn lock_into_skips_cells_off_the_board() {
    let mut board = GameBoard::new();
    let piece = ActivePiece::place(FigureType::I, Rotation::R0, 8, 5).unwrap();
    piece.lock_into(&mut board);
    assert!(board.is_filled(8, 5));
    assert!(board.is_filled(9, 5));
    let mut filled = 0;
    for y in 0..20 {
        for x in 0..10 {
            if board.is_filled(x, y) {
                filled += 1;
            }
        }
    }
    assert_eq!(filled, 2);
}
