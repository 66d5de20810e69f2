//! The parts that the snake game is made of.

use vstd::prelude::*;

verus! {

/// The side of a block, in pixels.
pub const BLOCK_SIZE: i32 = 20;

/// The time between two steps of the snake, in nanoseconds.
pub const TICK_NANOS: u64 = 100_000_000;

/// A direction of travel. `Up` leads to the row above, which has the larger
/// `y`.
#[derive(Clone, Copy, PartialEq, Eq, Debug, Hash, Structural)]
pub enum Direction {
    Up,
    Down,
    Left,
    Right,
}

/// A position on the grid of blocks.
#[derive(Clone, Copy, PartialEq, Eq, Debug, Hash, Structural)]
pub struct VirtualPosition {
    pub x: i32,
    pub y: i32,
}

/// The head of the snake: where it is heading, and whether the direction
/// was changed already since the last step.
#[derive(Clone, Copy, PartialEq, Eq, Debug, Hash, Structural)]
pub struct SnakeHead {
    pub locked: bool,
    pub direction: Direction,
}

/// A part of the snake's body. A part that has just grown stays hidden
/// until the snake moves.
#[derive(Clone, Copy, PartialEq, Eq, Debug, Hash, Structural)]
pub struct SnakePart {
    pub position: VirtualPosition,
    pub visible: bool,
}

impl Direction {
    /// The direction that leads back.
    pub open spec fn spec_opposite(self) -> Direction {
        match self {
            Direction::Up => Direction::Down,
            Direction::Down => Direction::Up,
            Direction::Left => Direction::Right,
            Direction::Right => Direction::Left,
        }
    }

    /// The step that the direction takes, as `(dx, dy)`.
    pub open spec fn spec_offset(self) -> (int, int) {
        match self {
            Direction::Up => (0, 1),
            Direction::Down => (0, -1),
            Direction::Left => (-1, 0),
            Direction::Right => (1, 0),
        }
    }

    /// The direction that leads back.
    pub fn opposite(&self) -> (r: Direction)
        ensures
            r == self.spec_opposite(),
    {
        match self {
            Direction::Up => Direction::Down,
            Direction::Down => Direction::Up,
            Direction::Left => Direction::Right,
            Direction::Right => Direction::Left,
        }
    }
}

/// The direction that the keys ask for, for a snake heading in `heading`.
/// Each key that is pressed asks for its direction, but never for a turn
/// straight back; where several are pressed, the last of up, down, right,
/// left wins.
pub open spec fn steered(heading: Direction, up: bool, down: bool, right: bool, left: bool)
    -> Direction {
    if left && heading != Direction::Right {
        Direction::Left
    } else if right && heading != Direction::Left {
        Direction::Right
    } else if down && heading != Direction::Up {
        Direction::Down
    } else if up && heading != Direction::Down {
        Direction::Up
    } else {
        heading
    }
}

impl View for VirtualPosition {
    type V = (int, int);

    open spec fn view(&self) -> (int, int) {
        (self.x as int, self.y as int)
    }
}

} // verus!
