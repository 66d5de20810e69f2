use cgc_core::snake::components::{
    Direction, SnakeHead, SnakePart, VirtualPosition, BLOCK_SIZE, TICK_NANOS,
};
use cgc_core::snake::game::{reach, MainTimer, Snake};

fn at(x: i32, y: i32) -> VirtualPosition {
    VirtualPosition { x, y }
}

fn step(snake: &mut Snake) {
    assert!(snake.move_snake(TICK_NANOS));
}

fn places(snake: &Snake) -> Vec<(i32, i32)> {
    snake.parts().iter().map(|p| (p.position.x, p.position.y)).collect()
}

#[test]
fn snake_starts_in_the_middle_heading_right() {
    let snake = Snake::new();
    assert_eq!(snake.head(), SnakeHead { locked: false, direction: Direction::Right });
    assert_eq!(snake.head_position(), at(0, 0));
    assert_eq!(snake.tail(), at(-1, 0));
    assert_eq!(snake.food(), at(5, 5));
    assert_eq!(snake.score(), 0);
    assert!(snake.parts().is_empty());
    assert_eq!(snake.timer(), MainTimer { elapsed: 0, period: 100_000_000 });
    assert_eq!(BLOCK_SIZE, 20);
}

#[test]
fn snake_direction_opposites() {
    assert_eq!(Direction::Up.opposite(), Direction::Down);
    assert_eq!(Direction::Down.opposite(), Direction::Up);
    assert_eq!(Direction::Left.opposite(), Direction::Right);
    assert_eq!(Direction::Right.opposite(), Direction::Left);
}

#[test]
fn snake_steps_when_the_timer_fires() {
    let mut snake = Snake::new();
    assert!(!snake.move_snake(TICK_NANOS - 1));
    assert_eq!(snake.head_position(), at(0, 0));
    assert!(snake.move_snake(1));
    assert_eq!(snake.head_position(), at(1, 0));
    assert_eq!(snake.tail(), at(0, 0));
    assert_eq!(snake.timer().elapsed, 0);
    assert!(snake.move_snake(250_000_000));
    assert_eq!(snake.head_position(), at(2, 0));
    assert_eq!(snake.timer().elapsed, 50_000_000);
}

#[test]
fn snake_moves_one_block_in_each_direction() {
    let mut snake = Snake::new();
    snake.handle_input(true, false, false, false);
    step(&mut snake);
    assert_eq!(snake.head_position(), at(0, 1));
    snake.handle_input(false, false, false, true);
    step(&mut snake);
    assert_eq!(snake.head_position(), at(-1, 1));
    snake.handle_input(false, true, false, false);
    step(&mut snake);
    assert_eq!(snake.head_position(), at(-1, 0));
    snake.handle_input(false, false, true, false);
    step(&mut snake);
    assert_eq!(snake.head_position(), at(0, 0));
}

#[test]
fn snake_does_not_turn_straight_back() {
    let mut snake = Snake::new();
    snake.handle_input(false, false, false, true);
    assert_eq!(snake.head(), SnakeHead { locked: false, direction: Direction::Right });
    snake.handle_input(true, false, false, false);
    step(&mut snake);
    snake.handle_input(false, true, false, false);
    assert_eq!(snake.head(), SnakeHead { locked: false, direction: Direction::Up });
}

#[test]
fn snake_turns_once_between_two_steps() {
    let mut snake = Snake::new();
    snake.handle_input(true, false, false, false);
    assert_eq!(snake.head(), SnakeHead { locked: true, direction: Direction::Up });
    snake.handle_input(false, false, false, true);
    assert_eq!(snake.head(), SnakeHead { locked: true, direction: Direction::Up });
    step(&mut snake);
    assert_eq!(snake.head(), SnakeHead { locked: false, direction: Direction::Up });
    snake.handle_input(false, false, false, true);
    assert_eq!(snake.head(), SnakeHead { locked: true, direction: Direction::Left });
}

#[test]
fn later_keys_win_over_earlier_ones() {
    let mut snake = Snake::new();
    snake.handle_input(true, true, false, false);
    assert_eq!(snake.head().direction, Direction::Down);
    let mut snake = Snake::new();
    snake.handle_input(true, false, false, true);
    assert_eq!(snake.head().direction, Direction::Up);
    let mut snake = Snake::new();
    snake.handle_input(true, true, true, true);
    assert_eq!(snake.head(), SnakeHead { locked: false, direction: Direction::Right });
    let mut snake = Snake::new();
    snake.handle_input(false, false, false, false);
    assert_eq!(snake.head(), SnakeHead { locked: false, direction: Direction::Right });
}

#[test]
fn grown_parts_follow_the_head() {
    let mut snake = Snake::new();
    snake.grow_snake(at(800, 800));
    assert_eq!(snake.parts().to_vec(), vec![SnakePart { position: at(800, 800), visible: false }]);
    step(&mut snake);
    assert_eq!(snake.parts().to_vec(), vec![SnakePart { position: at(0, 0), visible: true }]);
    assert_eq!(snake.tail(), at(800, 800));
    snake.grow_snake(at(800, 800));
    step(&mut snake);
    assert_eq!(places(&snake), vec![(1, 0), (0, 0)]);
    assert_eq!(snake.head_position(), at(2, 0));
    snake.handle_input(true, false, false, false);
    step(&mut snake);
    assert_eq!(places(&snake), vec![(2, 0), (1, 0)]);
    assert_eq!(snake.head_position(), at(2, 1));
    assert_eq!(snake.tail(), at(0, 0));
    assert!(snake.parts().iter().all(|p| p.visible));
}

#[test]
fn head_on_food_is_noticed() {
    let mut snake = Snake::new();
    assert!(!snake.check_on_food());
    for _ in 0..5 {
        step(&mut snake);
    }
    snake.handle_input(true, false, false, false);
    for _ in 0..4 {
        step(&mut snake);
        assert!(!snake.check_on_food());
    }
    step(&mut snake);
    assert_eq!(snake.head_position(), at(5, 5));
    assert!(snake.check_on_food());
}

#[test]
fn eating_puts_food_where_the_snake_is_not() {
    let mut snake = Snake::new();
    snake.grow_snake(at(9, 9));
    step(&mut snake);
    assert!(!snake.eat_food(at(1, 0)));
    assert!(!snake.eat_food(at(0, 0)));
    assert_eq!(snake.food(), at(5, 5));
    assert_eq!(snake.score(), 0);
    assert!(snake.eat_food(at(-3, 7)));
    assert_eq!(snake.food(), at(-3, 7));
    assert_eq!(snake.score(), 1);
    assert!(snake.eat_food(at(5, 5)));
    assert_eq!(snake.score(), 2);
    snake.reset_score();
    assert_eq!(snake.score(), 0);
    assert_eq!(snake.food(), at(5, 5));
}

#[test]
fn snake_that_bites_itself_is_noticed() {
    let mut snake = Snake::new();
    for _ in 0..4 {
        snake.grow_snake(at(800, 800));
    }
    for _ in 0..4 {
        step(&mut snake);
        assert!(!snake.check_on_cannibalism());
    }
    snake.handle_input(true, false, false, false);
    step(&mut snake);
    assert!(!snake.check_on_cannibalism());
    snake.handle_input(false, false, false, true);
    step(&mut snake);
    assert!(!snake.check_on_cannibalism());
    snake.handle_input(false, true, false, false);
    step(&mut snake);
    assert_eq!(snake.head_position(), at(3, 0));
    assert_eq!(places(&snake), vec![(3, 1), (4, 1), (4, 0), (3, 0)]);
    assert!(snake.check_on_cannibalism());
}

#[test]
fn hidden_part_far_away_is_not_bitten() {
    let mut snake = Snake::new();
    snake.grow_snake(at(0, 0));
    assert!(snake.check_on_cannibalism());
    let mut snake = Snake::new();
    snake.grow_snake(at(800, 800));
    assert!(!snake.check_on_cannibalism());
}

#[test]
fn edge_of_the_view_is_half_its_size_from_the_middle() {
    let mut snake = Snake::new();
    for _ in 0..19 {
        step(&mut snake);
        assert!(!snake.check_on_edge_running(800, 800));
    }
    step(&mut snake);
    assert_eq!(snake.head_position(), at(20, 0));
    assert!(snake.check_on_edge_running(800, 800));
    assert!(snake.check_on_edge_running(800, 8000));
    assert!(!snake.check_on_edge_running(801, 8000));
    assert!(snake.check_on_edge_running(8000, 0));
    let start = Snake::new();
    assert!(!start.check_on_edge_running(1, 1));
    assert!(start.check_on_edge_running(0, 1));
}

#[test]
fn edge_is_reached_on_the_negative_side_too() {
    let mut snake = Snake::new();
    snake.handle_input(false, true, false, false);
    for _ in 0..10 {
        step(&mut snake);
    }
    assert_eq!(snake.head_position(), at(0, -10));
    assert!(snake.check_on_edge_running(800, 400));
    assert!(!snake.check_on_edge_running(800, 401));
}

#[test]
fn food_reach_is_half_the_blocks_less_block_size() {
    assert_eq!(reach(800), 10);
    assert_eq!(reach(839), 10);
    assert_eq!(reach(840), 11);
    assert_eq!(reach(400), 0);
    assert_eq!(reach(439), 0);
    assert_eq!(reach(361), 0);
    assert_eq!(reach(360), -1);
    assert_eq!(reach(0), -10);
    assert_eq!(reach(u32::MAX), ((u32::MAX as i64 - 400) / 40) as i32);
}

#[test]
fn timer_reset_starts_the_count_anew() {
    let mut snake = Snake::new();
    assert!(!snake.move_snake(99_000_000));
    snake.reset_timer();
    assert_eq!(snake.timer(), MainTimer { elapsed: 0, period: TICK_NANOS });
    assert!(!snake.move_snake(99_000_000));
    assert!(snake.move_snake(1_000_000));
}
