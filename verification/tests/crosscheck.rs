use std::collections::HashMap;

use cgc_core::tetris::active::ActivePiece;
use cgc_core::tetris::board::GameBoard;
use cgc_core::tetris::components::{FigureType, Rotation};
use cgc_core::tetris::rotations::{rotate_left, rotate_right};

struct Lcg(u64);

impl Lcg {
    fn next(&mut self, bound: u64) -> u64 {
        self.0 = self.0.wrapping_mul(6364136223846793005).wrapping_add(1442695040888963407);
        (self.0 >> 33) % bound
    }
}

fn random_grid(rng: &mut Lcg, density: u64) -> Vec<Vec<bool>> {
    (0..20).map(|_| (0..10).map(|_| rng.next(100) < density).collect()).collect()
}

fn board_of(grid: &Vec<Vec<bool>>) -> GameBoard {
    let mut board = GameBoard::new();
    for y in 0..20 {
        for x in 0..10 {
            if grid[y][x] {
                board.occupy((x as i32, y as i32));
            }
        }
    }
    board
}

fn grid_of(board: &GameBoard) -> Vec<Vec<bool>> {
    (0..20).map(|y| (0..10).map(|x| board.is_filled(x, y)).collect()).collect()
}

fn free(grid: &Vec<Vec<bool>>, pos: (i32, i32)) -> bool {
    if pos.1 < 0 || pos.1 >= grid.len() as i32 {
        return false;
    }
    if pos.0 < 0 || pos.0 >= grid[0].len() as i32 {
        return false;
    }
    !grid[pos.1 as usize][pos.0 as usize]
}

fn xy(piece: &ActivePiece) -> Vec<(i32, i32)> {
    piece.cells().iter().map(|c| (c.x, c.y)).collect()
}

/// Rotation written with a map from old positions to new ones.
fn rotate_with_map(
    grid: &Vec<Vec<bool>>,
    kind: FigureType,
    rot: Rotation,
    tiles: &Vec<(i32, i32)>,
    clockwise: bool,
) -> Option<(Rotation, Vec<(i32, i32)>)> {
    let x_offset = tiles.iter().map(|p| p.0).min().unwrap_or(0);
    let y_offset = tiles.iter().map(|p| p.1).min().unwrap_or(0);
    let mut valid_pos = HashMap::<(i32, i32), (i32, i32)>::with_capacity(4);
    let mut can_move = false;
    let next_rot = if clockwise { rot.right() } else { rot.left() };
    let (center_x, center_y) = kind.center_point(&rot);
    for (test_x, test_y) in kind.tests_for_rot(&rot, &next_rot) {
        let mut has_error = false;
        for tile in tiles.iter() {
            let (new_x, new_y) = if clockwise {
                rotate_right(tile.0 - x_offset - center_x, tile.1 - y_offset - center_y)
            } else {
                rotate_left(tile.0 - x_offset - center_x, tile.1 - y_offset - center_y)
            };
            let new_mapped_x = new_x + x_offset + center_x + test_x;
            let new_mapped_y = new_y + y_offset + center_y + test_y;
            if free(grid, (new_mapped_x, new_mapped_y)) {
                valid_pos.insert((tile.0, tile.1), (new_mapped_x, new_mapped_y));
                continue;
            }
            has_error = true;
        }
        if !has_error {
            can_move = true;
            break;
        }
    }
    if !can_move {
        return None;
    }
    Some((next_rot, tiles.iter().map(|t| *valid_pos.get(t).unwrap_or(t)).collect()))
}

/// Line clearing written as removal in place, from the top row down.
fn clear_in_place(grid: &mut Vec<Vec<bool>>) -> usize {
    let mut cleared = 0;
    let mut y = grid.len() as i32 - 1;
    while y >= 0 {
        if grid[y as usize].iter().all(|x| *x) {
            grid.remove(y as usize);
            grid.push(vec![false; 10]);
            cleared += 1;
        } else {
            y -= 1;
        }
    }
    cleared
}

fn max_y_by_scan(grid: &Vec<Vec<bool>>, x: i32) -> usize {
    if x < 0 || x >= grid[0].len() as i32 {
        return 0;
    }
    grid.iter().enumerate().map(|(y, xs)| if xs[x as usize] { y } else { 0 }).max().unwrap_or(0)
}

#[test]
fn rotation_agrees_with_the_position_map_formulation() {
    let mut rng = Lcg(7);
    let mut turned = 0;
    let mut refused = 0;
    for round in 0..400 {
        let grid = random_grid(&mut rng, (round % 8) * 5);
        let board = board_of(&grid);
        let kind = FigureType::all()[rng.next(7) as usize];
        let start = [Rotation::R0, Rotation::RR, Rotation::R2, Rotation::RL][rng.next(4) as usize];
        let x = rng.next(12) as i32 - 1;
        let y = rng.next(22) as i32 - 1;
        let mut piece = ActivePiece::place(kind, start, x, y).unwrap();
        for _ in 0..12 {
            let clockwise = rng.next(2) == 0;
            let expected = rotate_with_map(&grid, kind, piece.rotation(), &xy(&piece), clockwise);
            let before = (piece.rotation(), xy(&piece));
            let done = piece.rotate(&board, clockwise);
            match expected {
                Some((rot, cells)) => {
                    assert!(done);
                    assert_eq!(piece.rotation(), rot);
                    assert_eq!(xy(&piece), cells);
                    turned += 1;
                }
                None => {
                    assert!(!done);
                    assert_eq!((piece.rotation(), xy(&piece)), before);
                    refused += 1;
                }
            }
            let right = rng.next(2) == 0;
            let all_fit = xy(&piece)
                .iter()
                .all(|p| free(&grid, (p.0 + if right { 1 } else { -1 }, p.1)));
            let shifted = xy(&piece);
            assert_eq!(piece.move_horizontally(&board, right), all_fit);
            if !all_fit {
                assert_eq!(xy(&piece), shifted);
            }
        }
    }
    assert!(turned > 100);
    assert!(refused > 100);
}

#[test]
fn line_clearing_agrees_with_removal_in_place() {
    let mut rng = Lcg(11);
    let mut total = 0;
    for _ in 0..300 {
        let mut grid = random_grid(&mut rng, 60);
        for y in 0..20 {
            if rng.next(4) == 0 {
                grid[y] = vec![true; 10];
            }
        }
        let mut board = board_of(&grid);
        let expected = clear_in_place(&mut grid);
        assert_eq!(board.clear_lines(), expected);
        assert_eq!(grid_of(&board), grid);
        total += expected;
    }
    assert!(total > 300);
}

#[test]
fn column_tops_agree_with_a_scan() {
    let mut rng = Lcg(13);
    for round in 0..200 {
        let grid = random_grid(&mut rng, (round % 10) * 3);
        let board = board_of(&grid);
        for x in -2..12 {
            assert_eq!(board.get_max_y(x), max_y_by_scan(&grid, x));
        }
        let xs: Vec<i32> = (0..rng.next(6)).map(|_| rng.next(14) as i32 - 2).collect();
        let expected = xs.iter().map(|x| max_y_by_scan(&grid, *x)).max().unwrap_or(0);
        assert_eq!(board.get_max_y_many(&xs), expected);
    }
}

#[test]
fn hard_drop_lands_free_and_resting_on_random_boards() {
    let mut rng = Lcg(17);
    let mut floors = 0;
    for round in 0..400 {
        let mut grid = random_grid(&mut rng, (round % 6) * 4);
        for y in 14..20 {
            grid[y] = vec![false; 10];
        }
        let board = board_of(&grid);
        let kind = FigureType::all()[rng.next(7) as usize];
        let x = rng.next(7) as i32;
        let mut piece = ActivePiece::place(kind, Rotation::R0, x, 18).unwrap();
        let before = xy(&piece);
        let columns: Vec<i32> = before.iter().map(|p| p.0).collect();
        let surface = board.get_max_y_many(&columns) as i32;
        let empty = columns.iter().all(|c| (0..20).all(|y| !board.is_filled(*c, y)));
        let travel = piece.hard_drop(&board);
        let after = xy(&piece);
        let expected_bottom = if empty { 0 } else { surface + 1 };
        assert_eq!(piece.bottom(), expected_bottom);
        if empty {
            floors += 1;
        }
        let sum: i32 = before.iter().zip(after.iter()).map(|(a, b)| (a.1 - b.1).abs()).sum();
        assert_eq!(travel, sum as usize);
        for (a, b) in before.iter().zip(after.iter()) {
            assert_eq!(a.0, b.0);
            assert_eq!(a.1 - b.1, before[0].1 - after[0].1);
        }
        assert!(piece.is_free(&board));
    }
    assert!(floors > 10);
}
