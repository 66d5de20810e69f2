use cgc_core::pipes::maze::MazeBuilder;
use cgc_core::pipes::wrapper::wrap_val;
use cgc_core::tetris::dotarray::DotArray;

fn sample() -> DotArray<char> {
    DotArray::from(vec![
        vec![Some('a'), None, Some('b')],
        vec![None, Some('c'), None],
        vec![None, None, None],
    ])
}

#[test]
fn wrap_val_without_wrapping_returns_the_value() {
    assert_eq!(wrap_val(false, -1, 0, 9), -1);
    assert_eq!(wrap_val(false, 10, 0, 9), 10);
    assert_eq!(wrap_val(false, 4, 0, 9), 4);
}

#[test]
fn wrap_val_wraps_to_the_other_end() {
    assert_eq!(wrap_val(true, -1, 0, 9), 9);
    assert_eq!(wrap_val(true, 10, 0, 9), 0);
    assert_eq!(wrap_val(true, -50, 0, 9), 9);
    assert_eq!(wrap_val(true, 50, 0, 9), 0);
}

#[test]
fn wrap_val_keeps_values_in_range() {
    for v in 0..10 {
        assert_eq!(wrap_val(true, v, 0, 9), v);
    }
    assert_eq!(wrap_val(true, i32::MIN, i32::MIN, i32::MAX), i32::MIN);
    assert_eq!(wrap_val(true, i32::MAX, i32::MIN, i32::MAX), i32::MAX);
}

#[test]
fn maze_builder_starts_with_defaults() {
    let builder = MazeBuilder::new(7);
    assert_eq!(builder.size(), 7);
    assert_eq!(builder.avoid_straight(), 0);
    assert_eq!(builder.prim_percent(), 0);
    assert!(!builder.wrap());
}

#[test]
fn maze_builder_sets_one_option_at_a_time() {
    let builder = MazeBuilder::new(5).with_prim_prob(30);
    assert_eq!(
        (builder.size(), builder.avoid_straight(), builder.prim_percent(), builder.wrap()),
        (5, 0, 30, false)
    );
    let builder = builder.with_avoid_straight(80);
    assert_eq!(
        (builder.size(), builder.avoid_straight(), builder.prim_percent(), builder.wrap()),
        (5, 80, 30, false)
    );
    let builder = builder.with_wrap(true);
    assert_eq!(
        (builder.size(), builder.avoid_straight(), builder.prim_percent(), builder.wrap()),
        (5, 80, 30, true)
    );
    let builder = builder.with_wrap(false).with_prim_prob(255);
    assert_eq!(
        (builder.size(), builder.avoid_straight(), builder.prim_percent(), builder.wrap()),
        (5, 80, 255, false)
    );
}

#[test]
fn dot_array_lists_set_entries_row_by_row() {
    let array = sample();
    assert_eq!(array.dots, vec![(0, 0, 'a'), (0, 2, 'b'), (1, 1, 'c')]);
    assert_eq!(array.size(), (2, 2));
}

#[test]
fn dot_array_takes_its_width_from_the_first_row() {
    let array: DotArray<u8> = DotArray::from(vec![vec![None, Some(1), None, Some(2)], vec![Some(3)]]);
    assert_eq!(array.size(), (1, 3));
    assert_eq!(array.dots, vec![(0, 1, 1), (0, 3, 2), (1, 0, 3)]);
}

#[test]
fn dot_array_rotate_left() {
    let mut array = sample();
    array.rotate_left();
    assert_eq!(array.dots, vec![(2, 0, 'a'), (0, 0, 'b'), (1, 1, 'c')]);
    assert_eq!(array.size(), (2, 2));
}

#[test]
fn dot_array_rotate_right() {
    let mut array = sample();
    array.rotate_right();
    assert_eq!(array.dots, vec![(0, 2, 'a'), (2, 2, 'b'), (1, 1, 'c')]);
}

#[test]
fn dot_array_rotations_undo_each_other() {
    let mut array = sample();
    array.rotate_left();
    array.rotate_right();
    assert_eq!(array, sample());
    array.rotate_right();
    array.rotate_left();
    assert_eq!(array, sample());
}

#[test]
fn dot_array_four_turns_give_it_back() {
    let mut array = sample();
    for _ in 0..4 {
        array.rotate_left();
    }
    assert_eq!(array, sample());
    for _ in 0..4 {
        array.rotate_right();
    }
    assert_eq!(array, sample());
}

#[test]
fn dot_array_swaps_dimensions_when_turned() {
    let mut array: DotArray<u8> =
        DotArray::from(vec![vec![Some(1), None, None, Some(2)], vec![None, None, None, None]]);
    assert_eq!(array.size(), (1, 3));
    array.rotate_left();
    assert_eq!(array.size(), (3, 1));
    assert_eq!(array.dots, vec![(3, 0, 1), (0, 0, 2)]);
    array.rotate_right();
    assert_eq!(array.size(), (1, 3));
    assert_eq!(array.dots, vec![(0, 0, 1), (0, 3, 2)]);
}
