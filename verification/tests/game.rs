use cgc_core::tetris::active::ActivePiece;
use cgc_core::tetris::bag::PieceOrder;
use cgc_core::tetris::board::GameBoard;
use cgc_core::tetris::components::{FigureType, GridPosition, Rotation};
use cgc_core::tetris::consts::{
    GRAVITY_PERIOD_NANOS, LOCKDOWN_NANOS, SOFT_DROP_MULTIPLER, START_X_POSITION, START_Y_POSITION,
};
use cgc_core::tetris::game::{Game, Input, LockOutcome, TickResult};
use cgc_core::tetris::state::Score;
use cgc_core::tetris::timers::{scale, GravityTimer, LockdownTimer};

const MS: u64 = 1_000_000;

fn xy(piece: &ActivePiece) -> Vec<(i32, i32)> {
    piece.cells().iter().map(|c| (c.x, c.y)).collect()
}

fn snapshot(game: &Game) -> Vec<Vec<bool>> {
    (0..20).map(|y| (0..10).map(|x| game.board().is_filled(x, y)).collect()).collect()
}

fn row_zero_without(column: i32) -> GameBoard {
    let mut board = GameBoard::new();
    for x in 0..10 {
        if x != column {
            board.occupy((x, 0));
        }
    }
    board
}

fn quiet(result: TickResult) -> bool {
    result == TickResult { figure_placed: false, game_over: false, lines_cleared: 0 }
}

#[test]
fn defaults_of_the_configuration() {
    assert_eq!(GRAVITY_PERIOD_NANOS, 400 * MS);
    assert_eq!(LOCKDOWN_NANOS, 500 * MS);
    assert_eq!(SOFT_DROP_MULTIPLER, 3);
    assert_eq!((START_X_POSITION, START_Y_POSITION), (4, 18));
}

#[test]
fn gravity_timer_fires_when_the_period_is_reached() {
    let mut timer = GravityTimer::new(400);
    assert!(!timer.tick(399));
    assert_eq!(timer.elapsed, 399);
    assert!(timer.tick(1));
    assert_eq!(timer.elapsed, 0);
    assert!(!timer.tick(0));
}

#[test]
fn gravity_timer_keeps_the_remainder() {
    let mut timer = GravityTimer::new(400);
    assert!(timer.tick(1000));
    assert_eq!(timer.elapsed, 200);
    assert!(timer.tick(250));
    assert_eq!(timer.elapsed, 50);
    assert_eq!(timer.period, 400);
}

#[test]
fn gravity_timer_saturates() {
    let mut timer = GravityTimer::new(u64::MAX);
    assert!(!timer.tick(u64::MAX - 1));
    assert!(timer.tick(5));
    assert_eq!(timer.elapsed, 0);
    let mut always = GravityTimer::new(0);
    assert!(always.tick(0));
    assert_eq!(always.elapsed, 0);
}

#[test]
fn scale_multiplies_and_saturates() {
    assert_eq!(scale(100, 3), 300);
    assert_eq!(scale(0, 3), 0);
    assert_eq!(scale(u64::MAX, 1), u64::MAX);
    assert_eq!(scale(u64::MAX / 2, 3), u64::MAX);
}

#[test]
fn lockdown_timer_starts_stopped() {
    let mut timer = LockdownTimer::new(500);
    assert!(timer.finished());
    assert!(!timer.tick(1000));
    assert!(timer.finished());
}

#[test]
fn lockdown_timer_counts_once_after_reset() {
    let mut timer = LockdownTimer::new(500);
    timer.reset();
    assert!(!timer.finished());
    assert_eq!(timer.elapsed, 0);
    assert!(!timer.tick(499));
    assert!(!timer.finished());
    assert!(timer.tick(1));
    assert!(timer.finished());
    assert_eq!(timer.elapsed, 500);
    assert!(!timer.tick(1));
    assert!(!timer.tick(1000));
}

#[test]
fn lockdown_timer_cancel_stops_a_running_count() {
    let mut timer = LockdownTimer::new(500);
    timer.reset();
    timer.tick(100);
    timer.cancel();
    assert!(timer.finished());
    assert!(!timer.tick(1000));
}

#[test]
fn score_table_for_line_clears() {
    let expected = [(1, 100), (2, 300), (3, 500), (4, 700)];
    for (lines, points) in expected {
        let mut score = Score::new();
        score.add_lines(lines);
        assert_eq!(score.score, points);
        assert_eq!(score.lines_cleared, lines);
    }
    let mut score = Score { score: 40, lines_cleared: 9 };
    score.add_lines(0);
    assert_eq!(score, Score { score: 40, lines_cleared: 9 });
    score.add_lines(2);
    assert_eq!(score, Score { score: 340, lines_cleared: 11 });
}

#[test]
fn score_stops_at_the_maximum() {
    let mut score = Score { score: usize::MAX - 5, lines_cleared: usize::MAX };
    score.add_points(10);
    assert_eq!(score.score, usize::MAX);
    score.add_lines(3);
    assert_eq!(score, Score { score: usize::MAX, lines_cleared: usize::MAX });
    let mut score = Score::new();
    score.add_lines(usize::MAX);
    assert_eq!(score, Score { score: usize::MAX, lines_cleared: usize::MAX });
}

#[test]
fn new_game_starts_with_the_first_piece_of_the_order() {
    let game = Game::with_order(&PieceOrder::catalog());
    assert_eq!(game.piece().kind(), FigureType::O);
    assert_eq!(game.piece().rotation(), Rotation::R0);
    assert_eq!(xy(game.piece()), vec![(4, 18), (5, 18), (4, 19), (5, 19)]);
    assert_eq!(game.score(), Score { score: 0, lines_cleared: 0 });
    assert_eq!(game.upcoming(), 6);
    assert!(!game.is_over());
    assert!(!game.soft_drop().active);
    assert!(game.lockdown_timer().finished());
    assert_eq!(game.gravity_timer(), GravityTimer { elapsed: 0, period: 400 * MS });
    assert_eq!(snapshot(&game), vec![vec![false; 10]; 20]);
}

#[test]
fn random_game_starts_with_a_free_piece() {
    for _ in 0..20 {
        let game = Game::new();
        assert!(game.piece().is_free(game.board()));
        assert_eq!(game.upcoming(), 6);
        assert!(!game.is_over());
    }
}

#[test]
fn hard_drop_of_o_on_empty_board() {
    let mut game = Game::with_order(&PieceOrder::catalog());
    assert_eq!(xy(game.piece()), vec![(4, 18), (5, 18), (4, 19), (5, 19)]);
    game.hard_drop();
    assert_eq!(game.piece().bottom(), 0);
    assert_eq!(xy(game.piece()), vec![(4, 0), (5, 0), (4, 1), (5, 1)]);
    assert_eq!(game.score().score, 3 * (18 + 18 + 18 + 18));
    assert_eq!(game.score().lines_cleared, 0);
    assert!(game.lockdown_timer().finished());
    assert_eq!(snapshot(&game), vec![vec![false; 10]; 20]);
}

#[test]
fn hard_drop_does_not_lock_by_itself() {
    let mut game = Game::with_order(&PieceOrder::catalog());
    let result = game.tick_with(&vec![Input::HardDrop], 1, &PieceOrder::catalog());
    assert!(quiet(result));
    assert_eq!(game.piece().bottom(), 0);
    assert!(game.lockdown_timer().finished());
    assert!(game.gravity(400 * MS));
    assert!(!game.lockdown_timer().finished());
    assert_eq!(game.lockdown_timer().elapsed, 0);
}

#[test]
fn hard_drop_scores_three_per_row_and_cell() {
    let mut board = GameBoard::new();
    board.occupy((4, 9));
    let piece = ActivePiece::spawn(FigureType::I);
    let mut game = Game::set_up(board, piece);
    game.hard_drop();
    assert_eq!(game.piece().bottom(), 10);
    assert_eq!(game.score().score, 3 * 4 * 8);
}

#[test]
fn row_zero_is_cleared_after_the_lock() {
    let board = row_zero_without(5);
    let piece = ActivePiece::place(FigureType::I, Rotation::RR, 5, 3).unwrap();
    assert!(piece.occupies(GridPosition { x: 5, y: 0 }));
    let mut game = Game::set_up(board, piece);
    assert!(game.gravity(400 * MS));
    assert_eq!(game.clear_lines(), 0);
    let outcome = game.lockdown_tiles_with(500 * MS, &PieceOrder::catalog());
    assert_eq!(outcome, LockOutcome::FigurePlaced);
    for y in 0..4 {
        assert!(game.board().is_filled(5, y));
    }
    assert_eq!(game.score().score, 0);
    let cleared = game.clear_lines();
    assert_eq!(cleared, 1);
    assert_eq!(game.score(), Score { score: 100, lines_cleared: 1 });
    let mut expected = vec![vec![false; 10]; 20];
    expected[0][5] = true;
    expected[1][5] = true;
    expected[2][5] = true;
    assert_eq!(snapshot(&game), expected);
    assert_eq!(game.clear_lines(), 0);
    assert_eq!(game.score(), Score { score: 100, lines_cleared: 1 });
}

#[test]
fn lock_and_clear_within_ticks() {
    let board = row_zero_without(5);
    let piece = ActivePiece::place(FigureType::I, Rotation::RR, 5, 3).unwrap();
    let mut game = Game::set_up(board, piece);
    let order = PieceOrder::catalog();
    let first = game.tick_with(&vec![], 400 * MS, &order);
    assert!(quiet(first));
    assert!(!game.lockdown_timer().finished());
    let second = game.tick_with(&vec![], 400 * MS, &order);
    assert_eq!(second, TickResult { figure_placed: true, game_over: false, lines_cleared: 1 });
    assert_eq!(game.score(), Score { score: 100, lines_cleared: 1 });
    assert_eq!(game.piece().kind(), FigureType::O);
    assert_eq!(xy(game.piece()), vec![(4, 18), (5, 18), (4, 19), (5, 19)]);
    assert_eq!(game.upcoming(), 6);
    let third = game.tick_with(&vec![], 1, &order);
    assert!(quiet(third));
}

#[test]
fn gravity_waits_for_its_period() {
    let mut game = Game::with_order(&PieceOrder::catalog());
    assert!(!game.gravity(400 * MS - 1));
    assert_eq!(game.piece().bottom(), 18);
    assert!(game.gravity(1));
    assert_eq!(game.piece().bottom(), 17);
    assert_eq!(xy(game.piece()), vec![(4, 17), (5, 17), (4, 18), (5, 18)]);
    assert_eq!(game.score().score, 0);
}

#[test]
fn gravity_moves_one_row_per_firing() {
    let mut game = Game::with_order(&PieceOrder::catalog());
    assert!(game.gravity(2000 * MS));
    assert_eq!(game.piece().bottom(), 17);
    assert_eq!(game.gravity_timer().elapsed, 0);
}

#[test]
fn soft_drop_speeds_gravity_and_scores() {
    let mut game = Game::with_order(&PieceOrder::catalog());
    game.set_soft_drop(true);
    assert!(game.soft_drop().active);
    assert!(!game.gravity(133 * MS));
    assert_eq!(game.gravity_timer().elapsed, 399 * MS);
    assert!(game.gravity(MS));
    assert_eq!(game.gravity_timer().elapsed, 2 * MS);
    assert_eq!(game.piece().bottom(), 17);
    assert_eq!(game.score().score, 1);
    game.set_soft_drop(false);
    assert!(!game.gravity(132 * MS));
    assert!(game.gravity(266 * MS));
    assert_eq!(game.score().score, 1);
    assert_eq!(game.piece().bottom(), 16);
}

#[test]
fn soft_drop_earns_nothing_when_blocked() {
    let piece = ActivePiece::place(FigureType::O, Rotation::R0, 0, 0).unwrap();
    let mut game = Game::set_up(GameBoard::new(), piece);
    game.set_soft_drop(true);
    assert!(game.gravity(400 * MS));
    assert_eq!(game.score().score, 0);
    assert_eq!(game.piece().bottom(), 0);
}

#[test]
fn gravity_never_enters_a_filled_cell() {
    let mut board = GameBoard::new();
    board.occupy((5, 12));
    let mut game = Game::set_up(board, ActivePiece::spawn(FigureType::O));
    for _ in 0..40 {
        game.gravity(400 * MS);
        assert!(game.piece().is_free(game.board()));
    }
    assert_eq!(game.piece().bottom(), 13);
    assert!(!game.lockdown_timer().finished());
}

#[test]
fn blocked_gravity_arms_lockdown_once() {
    let piece = ActivePiece::place(FigureType::O, Rotation::R0, 0, 0).unwrap();
    let mut game = Game::set_up(GameBoard::new(), piece);
    assert!(game.lockdown_timer().finished());
    assert!(game.gravity(400 * MS));
    assert!(!game.lockdown_timer().finished());
    assert_eq!(game.lockdown_timer().elapsed, 0);
    assert_eq!(
        game.lockdown_tiles_with(200 * MS, &PieceOrder::catalog()),
        LockOutcome::Waiting
    );
    assert_eq!(game.lockdown_timer().elapsed, 200 * MS);
    assert!(game.gravity(400 * MS));
    assert_eq!(game.lockdown_timer().elapsed, 200 * MS);
}

#[test]
fn lockdown_is_cancelled_when_the_piece_can_fall_again() {
    let mut board = GameBoard::new();
    board.occupy((4, 5));
    let piece = ActivePiece::place(FigureType::O, Rotation::R0, 4, 6).unwrap();
    let mut game = Game::set_up(board, piece);
    let order = PieceOrder::catalog();
    assert!(game.gravity(400 * MS));
    assert!(!game.lockdown_timer().finished());
    assert!(game.move_tetronomio_horizontally(true));
    assert!(game.gravity(400 * MS));
    assert!(game.lockdown_timer().finished());
    assert_eq!(game.piece().bottom(), 5);
    assert_eq!(game.lockdown_tiles_with(10_000 * MS, &order), LockOutcome::Waiting);
    assert_eq!(game.piece().kind(), FigureType::O);
    assert!(!game.board().is_filled(5, 5));
}

#[test]
fn lockdown_tests_the_piece_anew_when_it_fires() {
    let mut board = GameBoard::new();
    board.occupy((4, 5));
    let piece = ActivePiece::place(FigureType::O, Rotation::R0, 4, 6).unwrap();
    let mut game = Game::set_up(board, piece);
    assert!(game.gravity(400 * MS));
    assert!(game.move_tetronomio_horizontally(true));
    let outcome = game.lockdown_tiles_with(500 * MS, &PieceOrder::catalog());
    assert_eq!(outcome, LockOutcome::Waiting);
    assert!(game.lockdown_timer().finished());
    assert_eq!(xy(game.piece()), vec![(5, 6), (6, 6), (5, 7), (6, 7)]);
    let mut expected = vec![vec![false; 10]; 20];
    expected[5][4] = true;
    assert_eq!(snapshot(&game), expected);
}

#[test]
fn lockdown_does_not_fire_unarmed() {
    let piece = ActivePiece::place(FigureType::O, Rotation::R0, 0, 0).unwrap();
    let mut game = Game::set_up(GameBoard::new(), piece);
    let outcome = game.lockdown_tiles_with(10_000 * MS, &PieceOrder::catalog());
    assert_eq!(outcome, LockOutcome::Waiting);
    assert_eq!(snapshot(&game), vec![vec![false; 10]; 20]);
}

#[test]
fn lock_fills_the_cells_once_and_spawns_the_next_piece() {
    let piece = ActivePiece::place(FigureType::T, Rotation::R0, 0, 0).unwrap();
    let mut game = Game::set_up(GameBoard::new(), piece);
    let order = PieceOrder::new([
        FigureType::S,
        FigureType::O,
        FigureType::I,
        FigureType::Z,
        FigureType::L,
        FigureType::J,
        FigureType::T,
    ])
    .unwrap();
    assert!(game.gravity(400 * MS));
    assert_eq!(game.lockdown_tiles_with(499 * MS, &order), LockOutcome::Waiting);
    assert_eq!(game.lockdown_tiles_with(MS, &order), LockOutcome::FigurePlaced);
    let mut expected = vec![vec![false; 10]; 20];
    expected[0][0] = true;
    expected[0][1] = true;
    expected[0][2] = true;
    expected[1][1] = true;
    assert_eq!(snapshot(&game), expected);
    assert_eq!(game.piece().kind(), FigureType::S);
    assert_eq!(game.piece().rotation(), Rotation::R0);
    assert_eq!(xy(game.piece()), vec![(4, 18), (5, 18), (5, 19), (6, 19)]);
    assert_eq!(game.upcoming(), 6);
    assert!(game.lockdown_timer().finished());
    assert_eq!(game.lockdown_tiles_with(10_000 * MS, &order), LockOutcome::Waiting);
    assert_eq!(snapshot(&game), expected);
    assert_eq!(game.piece().kind(), FigureType::S);
    assert_eq!(game.upcoming(), 6);
}

#[test]
fn rotation_resets_a_running_lockdown() {
    let piece = ActivePiece::place(FigureType::T, Rotation::R0, 3, 0).unwrap();
    let mut game = Game::set_up(GameBoard::new(), piece);
    assert!(game.gravity(400 * MS));
    game.lockdown_tiles_with(300 * MS, &PieceOrder::catalog());
    assert_eq!(game.lockdown_timer().elapsed, 300 * MS);
    assert!(game.rotate_tetronomio(true));
    assert!(!game.lockdown_timer().finished());
    assert_eq!(game.lockdown_timer().elapsed, 0);
    assert_eq!(game.piece().rotation(), Rotation::RR);
}

#[test]
fn rotation_leaves_a_stopped_lockdown_stopped() {
    let mut game = Game::with_order(&PieceOrder::catalog());
    assert!(game.rotate_tetronomio(false));
    assert!(game.lockdown_timer().finished());
}

#[test]
fn failed_rotation_changes_nothing() {
    let mut board = GameBoard::new();
    for y in 0..20 {
        for x in 0..10 {
            if y != 18 || !(4..8).contains(&x) {
                board.occupy((x, y));
            }
        }
    }
    let mut game = Game::set_up(board, ActivePiece::spawn(FigureType::I));
    assert!(game.gravity(400 * MS));
    game.lockdown_tiles_with(100 * MS, &PieceOrder::catalog());
    let cells = xy(game.piece());
    let timer = game.lockdown_timer();
    let grid = snapshot(&game);
    assert!(!game.rotate_tetronomio(true));
    assert!(!game.rotate_tetronomio(false));
    assert_eq!(xy(game.piece()), cells);
    assert_eq!(game.piece().rotation(), Rotation::R0);
    assert_eq!(game.lockdown_timer(), timer);
    assert_eq!(snapshot(&game), grid);
    assert_eq!(game.score().score, 0);
}

#[test]
fn horizontal_move_request_without_room_is_a_no_op() {
    let piece = ActivePiece::place(FigureType::O, Rotation::R0, 0, 0).unwrap();
    let mut game = Game::set_up(GameBoard::new(), piece);
    assert!(!game.move_tetronomio_horizontally(false));
    assert_eq!(xy(game.piece()), vec![(0, 0), (1, 0), (0, 1), (1, 1)]);
    assert!(game.move_tetronomio_horizontally(true));
    assert_eq!(xy(game.piece()), vec![(1, 0), (2, 0), (1, 1), (2, 1)]);
}

#[test]
fn inputs_are_applied_in_order_and_each_is_counted() {
    let mut game = Game::with_order(&PieceOrder::catalog());
    let inputs = vec![
        Input::MoveLeft,
        Input::MoveLeft,
        Input::RotateClockwise,
        Input::RotateClockwise,
        Input::SoftDropOn,
        Input::MoveRight,
        Input::SoftDropOff,
        Input::SoftDropOn,
    ];
    game.handle_inputs(&inputs);
    assert_eq!(game.piece().rotation(), Rotation::R2);
    assert_eq!(game.piece().left_edge(), 3);
    assert!(game.soft_drop().active);
    game.handle_input(Input::RotateCounterClockwise);
    assert_eq!(game.piece().rotation(), Rotation::RR);
    game.handle_input(Input::HardDrop);
    assert_eq!(game.piece().bottom(), 0);
}

#[test]
fn tick_runs_inputs_then_gravity_then_lockdown_then_clear() {
    let mut game = Game::with_order(&PieceOrder::catalog());
    let order = PieceOrder::catalog();
    let result = game.tick_with(&vec![Input::MoveRight, Input::HardDrop], 400 * MS, &order);
    assert!(quiet(result));
    assert_eq!(xy(game.piece()), vec![(5, 0), (6, 0), (5, 1), (6, 1)]);
    assert_eq!(game.score().score, 216);
    assert!(!game.lockdown_timer().finished());
    assert_eq!(game.lockdown_timer().elapsed, 400 * MS);
    let result = game.tick_with(&vec![Input::MoveLeft], 100 * MS, &order);
    assert_eq!(result, TickResult { figure_placed: true, game_over: false, lines_cleared: 0 });
    assert!(game.board().is_filled(4, 0));
    assert!(game.board().is_filled(5, 1));
    assert!(!game.board().is_filled(6, 0));
    assert_eq!(game.piece().kind(), FigureType::I);
    assert_eq!(game.upcoming(), 5);
}

#[test]
fn top_out_ends_the_game_without_placing_the_piece() {
    let mut board = GameBoard::new();
    board.occupy((4, 18));
    for x in 0..10 {
        board.occupy((x, 1));
    }
    let piece = ActivePiece::place(FigureType::I, Rotation::R0, 0, 2).unwrap();
    let mut game = Game::set_up(board, piece);
    let order = PieceOrder::catalog();
    assert!(quiet(game.tick_with(&vec![], 400 * MS, &order)));
    let result = game.tick_with(&vec![], 400 * MS, &order);
    assert_eq!(result, TickResult { figure_placed: true, game_over: true, lines_cleared: 0 });
    assert!(game.is_over());
    assert_eq!(game.piece().kind(), FigureType::I);
    assert_eq!(xy(game.piece()), vec![(0, 2), (1, 2), (2, 2), (3, 2)]);
    let mut expected = vec![vec![false; 10]; 20];
    expected[18][4] = true;
    expected[1] = vec![true; 10];
    for x in 0..4 {
        expected[2][x] = true;
    }
    assert_eq!(snapshot(&game), expected);
    assert_eq!(game.score(), Score { score: 0, lines_cleared: 0 });
    assert_eq!(game.upcoming(), 6);
}

#[test]
fn nothing_happens_after_game_over() {
    let mut board = GameBoard::new();
    board.occupy((5, 19));
    let piece = ActivePiece::place(FigureType::O, Rotation::R0, 0, 0).unwrap();
    let mut game = Game::set_up(board, piece);
    let order = PieceOrder::catalog();
    game.tick_with(&vec![], 400 * MS, &order);
    let result = game.tick_with(&vec![], 400 * MS, &order);
    assert!(result.game_over);
    let grid = snapshot(&game);
    let cells = xy(game.piece());
    let score = game.score();
    let gravity = game.gravity_timer();
    let lockdown = game.lockdown_timer();
    let all_inputs = vec![
        Input::MoveLeft,
        Input::MoveRight,
        Input::RotateClockwise,
        Input::RotateCounterClockwise,
        Input::HardDrop,
        Input::SoftDropOn,
    ];
    for _ in 0..5 {
        let result = game.tick_with(&all_inputs, 400 * MS, &order);
        assert!(quiet(result));
        assert!(quiet(game.tick(&all_inputs, 400 * MS)));
    }
    assert!(!game.move_tetronomio_horizontally(true));
    assert!(!game.rotate_tetronomio(true));
    assert!(!game.gravity(400 * MS));
    assert_eq!(game.clear_lines(), 0);
    assert_eq!(game.lockdown_tiles(400 * MS), LockOutcome::Waiting);
    assert!(game.is_over());
    assert_eq!(snapshot(&game), grid);
    assert_eq!(xy(game.piece()), cells);
    assert_eq!(game.score(), score);
    assert_eq!(game.gravity_timer(), gravity);
    assert_eq!(game.lockdown_timer(), lockdown);
    assert!(!game.soft_drop().active);
}

#[test]
fn line_clear_waits_while_lockdown_runs() {
    let mut board = row_zero_without(-1);
    board.occupy((0, 1));
    let piece = ActivePiece::place(FigureType::O, Rotation::R0, 4, 1).unwrap();
    let mut game = Game::set_up(board, piece);
    assert!(game.gravity(400 * MS));
    assert!(!game.lockdown_timer().finished());
    assert_eq!(game.clear_lines(), 0);
    assert!(game.board().is_filled(9, 0));
    assert_eq!(game.score().score, 0);
}

#[test]
fn two_lines_at_once_score_three_hundred() {
    let mut board = GameBoard::new();
    for y in 0..2 {
        for x in 0..10 {
            if x != 4 && x != 5 {
                board.occupy((x, y));
            }
        }
    }
    let piece = ActivePiece::place(FigureType::O, Rotation::R0, 4, 0).unwrap();
    let mut game = Game::set_up(board, piece);
    let order = PieceOrder::catalog();
    game.tick_with(&vec![], 400 * MS, &order);
    let result = game.tick_with(&vec![], 400 * MS, &order);
    assert_eq!(result, TickResult { figure_placed: true, game_over: false, lines_cleared: 2 });
    assert_eq!(game.score(), Score { score: 300, lines_cleared: 2 });
    assert_eq!(snapshot(&game), vec![vec![false; 10]; 20]);
}

#[test]
fn four_lines_at_once_score_seven_hundred() {
    let mut board = GameBoard::new();
    for y in 0..4 {
        for x in 0..10 {
            if x != 9 {
                board.occupy((x, y));
            }
        }
    }
    board.occupy((0, 4));
    let piece = ActivePiece::place(FigureType::I, Rotation::RL, 9, 0).unwrap();
    let mut game = Game::set_up(board, piece);
    let order = PieceOrder::catalog();
    game.tick_with(&vec![], 400 * MS, &order);
    let result = game.tick_with(&vec![], 400 * MS, &order);
    assert_eq!(result, TickResult { figure_placed: true, game_over: false, lines_cleared: 4 });
    assert_eq!(game.score(), Score { score: 700, lines_cleared: 4 });
    let mut expected = vec![vec![false; 10]; 20];
    expected[0][0] = true;
    assert_eq!(snapshot(&game), expected);
}

#[test]
fn three_lines_at_once_score_five_hundred() {
    let mut board = GameBoard::new();
    for y in 0..3 {
        for x in 0..10 {
            if x != 9 {
                board.occupy((x, y));
            }
        }
    }
    let piece = ActivePiece::place(FigureType::I, Rotation::RL, 9, 0).unwrap();
    let mut game = Game::set_up(board, piece);
    let order = PieceOrder::catalog();
    game.tick_with(&vec![], 400 * MS, &order);
    let result = game.tick_with(&vec![], 400 * MS, &order);
    assert_eq!(result.lines_cleared, 3);
    assert_eq!(game.score(), Score { score: 500, lines_cleared: 3 });
    let mut expected = vec![vec![false; 10]; 20];
    expected[0][9] = true;
    assert_eq!(snapshot(&game), expected);
}

#[test]
fn reset_game_clears_board_score_bag_and_end() {
    let mut board = GameBoard::new();
    board.occupy((5, 19));
    let piece = ActivePiece::place(FigureType::O, Rotation::R0, 0, 0).unwrap();
    let mut game = Game::set_up(board, piece);
    let order = PieceOrder::catalog();
    game.handle_input(Input::HardDrop);
    game.tick_with(&vec![], 400 * MS, &order);
    game.tick_with(&vec![], 400 * MS, &order);
    assert!(game.is_over());
    game.reset_game();
    assert!(!game.is_over());
    assert_eq!(game.score(), Score { score: 0, lines_cleared: 0 });
    assert_eq!(game.upcoming(), 0);
    assert_eq!(snapshot(&game), vec![vec![false; 10]; 20]);
    game.spawn_figure_with(&order);
    assert_eq!(game.piece().kind(), FigureType::O);
    assert_eq!(xy(game.piece()), vec![(4, 18), (5, 18), (4, 19), (5, 19)]);
    assert_eq!(game.upcoming(), 6);
    game.spawn_figure();
    assert_eq!(game.piece().kind(), FigureType::I);
    assert_eq!(game.upcoming(), 5);
}

#[test]
fn lit_cells_are_filled_cells_and_active_cells() {
    let mut board = GameBoard::new();
    board.occupy((0, 0));
    let game = Game::set_up(board, ActivePiece::spawn(FigureType::O));
    assert!(game.is_lit(GridPosition { x: 0, y: 0 }));
    assert!(game.is_lit(GridPosition { x: 4, y: 18 }));
    assert!(game.is_lit(GridPosition { x: 5, y: 19 }));
    assert!(!game.is_lit(GridPosition { x: 1, y: 0 }));
    assert!(!game.is_lit(GridPosition { x: 6, y: 18 }));
    assert!(game.is_lit(GridPosition { x: -1, y: 0 }));
}

#[test]
fn score_never_falls_in_a_random_game() {
    let mut game = Game::new();
    let mut last = game.score();
    let mut placed = 0;
    let mut ended = 0;
    let inputs = [
        vec![Input::MoveLeft, Input::RotateClockwise],
        vec![Input::HardDrop],
        vec![Input::MoveRight, Input::MoveRight, Input::SoftDropOn],
        vec![Input::RotateCounterClockwise, Input::SoftDropOff],
        vec![],
    ];
    for step in 0..20_000 {
        let result = game.tick(&inputs[step % inputs.len()], 300 * MS);
        let now = game.score();
        assert!(now.score >= last.score);
        assert!(now.lines_cleared >= last.lines_cleared);
        assert_eq!(now.lines_cleared - last.lines_cleared, result.lines_cleared);
        last = now;
        if result.figure_placed {
            placed += 1;
        }
        if result.game_over {
            ended += 1;
            assert!(game.is_over());
            assert!(result.figure_placed);
        }
        assert!(ended == 1 || !game.is_over());
        if !game.is_over() {
            let cells = xy(game.piece());
            for i in 0..4 {
                for j in (i + 1)..4 {
                    assert_ne!(cells[i], cells[j]);
                }
            }
        }
    }
    assert!(ended <= 1);
    assert!(placed >= 1);
}

#[test]
fn timers_can_be_configured() {
    let order = PieceOrder::catalog();
    let mut game = Game::with_timers(&order, 1000 * MS, 50 * MS);
    assert_eq!(game.gravity_timer(), GravityTimer { elapsed: 0, period: 1000 * MS });
    assert_eq!(game.lockdown_timer().duration, 50 * MS);
    assert!(game.lockdown_timer().finished());
    assert!(!game.gravity(999 * MS));
    assert!(game.gravity(MS));
    assert_eq!(game.piece().bottom(), 17);
    game.hard_drop();
    assert!(game.gravity(1000 * MS));
    assert_eq!(game.lockdown_tiles_with(49 * MS, &order), LockOutcome::Waiting);
    assert_eq!(game.lockdown_tiles_with(MS, &order), LockOutcome::FigurePlaced);
}

#[test]
fn gravity_period_of_zero_fires_every_tick() {
    let order = PieceOrder::catalog();
    let mut game = Game::with_timers(&order, 0, 0);
    for row in (0..18).rev() {
        assert!(quiet(game.tick_with(&vec![], 0, &order)));
        assert_eq!(game.piece().bottom(), row);
    }
    let armed = game.tick_with(&vec![], 0, &order);
    assert_eq!(armed, TickResult { figure_placed: true, game_over: false, lines_cleared: 0 });
    assert_eq!(game.piece().kind(), FigureType::I);
}
