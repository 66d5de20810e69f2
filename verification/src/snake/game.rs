//! The snake and its food as one object, and the rules of the game.

use super::components::{
    steered,
    Direction,
    SnakeHead,
    SnakePart,
    VirtualPosition,
    BLOCK_SIZE,
    TICK_NANOS,
};
use vstd::prelude::*;

verus! {

/// The repeating countdown between two steps of the snake. Time is counted
/// in whole nanoseconds.
#[derive(Clone, Copy, PartialEq, Eq, Debug, Structural)]
pub struct MainTimer {
    /// The time counted toward the next step.
    pub elapsed: u64,
    /// The time between two steps.
    pub period: u64,
}

impl MainTimer {
    /// The time counted after `delta` more, held at `u64::MAX`.
    pub open spec fn total(self, delta: u64) -> u64 {
        if self.elapsed + delta > u64::MAX {
            u64::MAX
        } else {
            (self.elapsed + delta) as u64
        }
    }

    /// Whether a tick of `delta` fires the timer.
    pub open spec fn fires(self, delta: u64) -> bool {
        self.total(delta) >= self.period
    }

    /// The timer after a tick of `delta`: where it fires, it keeps what is
    /// left over of the time counted.
    pub open spec fn spec_tick(self, delta: u64) -> MainTimer {
        MainTimer {
            elapsed: if !self.fires(delta) {
                self.total(delta)
            } else if self.period == 0 {
                0
            } else {
                (self.total(delta) % self.period) as u64
            },
            period: self.period,
        }
    }

    /// Advances the timer by `delta`. Returns whether it fired.
    pub fn tick(&mut self, delta: u64) -> (fired: bool)
        ensures
            fired == old(self).fires(delta),
            *final(self) == old(self).spec_tick(delta),
    {
        let total: u64 = self.elapsed.saturating_add(delta);
        if total >= self.period {
            self.elapsed = if self.period == 0 {
                0
            } else {
                total % self.period
            };
            true
        } else {
            self.elapsed = total;
            false
        }
    }

    /// Sets the time counted back to nothing.
    pub fn reset(&mut self)
        ensures
            *final(self) == (MainTimer { elapsed: 0, period: old(self).period }),
    {
        self.elapsed = 0;
    }
}

/// The snake game.
#[derive(Debug, Clone)]
pub struct Snake {
    head: SnakeHead,
    head_position: VirtualPosition,
    parts: Vec<SnakePart>,
    tail: VirtualPosition,
    food: VirtualPosition,
    score: usize,
    timer: MainTimer,
}

/// The snake game as the contracts see it.
pub struct SnakeView {
    pub head: SnakeHead,
    pub head_position: VirtualPosition,
    /// The parts of the body, from the one behind the head on.
    pub parts: Seq<SnakePart>,
    /// The place that the snake has just left.
    pub tail: VirtualPosition,
    pub food: VirtualPosition,
    pub score: usize,
    pub timer: MainTimer,
}

/// The distance of `v` from 0.
pub open spec fn magnitude(v: int) -> int {
    if v >= 0 {
        v
    } else {
        -v
    }
}

/// Whether a head at the coordinate `position` has reached the edge of a
/// view that is `view_max` pixels wide: half the view is no more than the
/// head's distance from the middle, in pixels.
pub open spec fn at_edge(view_max: u32, position: int) -> bool {
    view_max <= 2 * (BLOCK_SIZE * magnitude(position))
}

/// How far from the middle food is put, in blocks, in a view that is
/// `view_max` pixels wide: half of the blocks that fit the view less
/// `BLOCK_SIZE`, rounded toward zero.
pub open spec fn food_reach(view_max: u32) -> int {
    if view_max >= BLOCK_SIZE * BLOCK_SIZE {
        (view_max - BLOCK_SIZE * BLOCK_SIZE) / (2 * BLOCK_SIZE)
    } else {
        -((BLOCK_SIZE * BLOCK_SIZE - view_max) / (2 * BLOCK_SIZE))
    }
}

impl SnakeView {
    /// The game at its start: the head in the middle, heading right, no
    /// body yet, food at `(5, 5)`, no points.
    pub open spec fn fresh() -> SnakeView {
        SnakeView {
            head: SnakeHead { locked: false, direction: Direction::Right },
            head_position: VirtualPosition { x: 0, y: 0 },
            parts: Seq::empty(),
            tail: VirtualPosition { x: -1i32, y: 0 },
            food: VirtualPosition { x: 5, y: 5 },
            score: 0,
            timer: MainTimer { elapsed: 0, period: TICK_NANOS },
        }
    }

    /// Whether the head can take a step without leaving the numbers that a
    /// position can hold.
    pub open spec fn can_step(self) -> bool {
        &&& i32::MIN <= self.head_position.x + self.head.direction.spec_offset().0 <= i32::MAX
        &&& i32::MIN <= self.head_position.y + self.head.direction.spec_offset().1 <= i32::MAX
    }

    /// The place that the head steps to.
    pub open spec fn ahead(self) -> VirtualPosition {
        VirtualPosition {
            x: (self.head_position.x + self.head.direction.spec_offset().0) as i32,
            y: (self.head_position.y + self.head.direction.spec_offset().1) as i32,
        }
    }

    /// The place of part `i` of the body, the head counting as the part
    /// before the first.
    pub open spec fn place(self, i: int) -> VirtualPosition {
        if i < 0 {
            self.head_position
        } else {
            self.parts[i].position
        }
    }

    /// The game after the keys were looked at: the snake heads where the
    /// keys ask, unless the direction was changed already since the last
    /// step; a change locks the direction until the next step.
    pub open spec fn after_input(self, up: bool, down: bool, right: bool, left: bool) -> SnakeView {
        if !self.head.locked && self.head.direction != steered(
            self.head.direction,
            up,
            down,
            right,
            left,
        ) {
            SnakeView {
                head: SnakeHead {
                    locked: true,
                    direction: steered(self.head.direction, up, down, right, left),
                },
                ..self
            }
        } else {
            self
        }
    }

    /// The game after one step: the head one block further, each part of
    /// the body where the part before it was and visible, the tail where
    /// the last part was, and the direction free to change again.
    pub open spec fn stepped(self) -> SnakeView {
        SnakeView {
            head: SnakeHead { locked: false, direction: self.head.direction },
            head_position: self.ahead(),
            parts: Seq::new(
                self.parts.len(),
                |i: int| SnakePart { position: self.place(i - 1), visible: true },
            ),
            tail: self.place(self.parts.len() - 1),
            ..self
        }
    }

    /// The game after a frame of `delta` nanoseconds: the timer advanced,
    /// and a step taken where it fired.
    pub open spec fn after_move(self, delta: u64) -> SnakeView {
        if self.timer.fires(delta) {
            SnakeView { timer: self.timer.spec_tick(delta), ..self.stepped() }
        } else {
            SnakeView { timer: self.timer.spec_tick(delta), ..self }
        }
    }

    /// Whether the head is on the food.
    pub open spec fn on_food(self) -> bool {
        self.head_position == self.food
    }

    /// Whether the head is on a part of the body.
    pub open spec fn bites_itself(self) -> bool {
        exists|i: int| 0 <= i < self.parts.len() && (#[trigger] self.parts[i]).position
            == self.head_position
    }

    /// Whether the head has reached the edge of a view of `view_max_x` by
    /// `view_max_y` pixels.
    pub open spec fn runs_off(self, view_max_x: u32, view_max_y: u32) -> bool {
        at_edge(view_max_x, self.head_position.x as int) || at_edge(
            view_max_y,
            self.head_position.y as int,
        )
    }

    /// Whether the snake, head or body, is at `position`.
    pub open spec fn covers(self, position: VirtualPosition) -> bool {
        self.head_position == position || exists|i: int|
            0 <= i < self.parts.len() && (#[trigger] self.parts[i]).position == position
    }

    /// The game after the food was eaten and new food offered at
    /// `position`: where the snake is not there, the food is, and a point
    /// is won; otherwise nothing changes.
    pub open spec fn after_eating(self, position: VirtualPosition) -> SnakeView {
        if self.covers(position) {
            self
        } else {
            SnakeView {
                food: position,
                score: if self.score == usize::MAX {
                    usize::MAX
                } else {
                    (self.score + 1) as usize
                },
                ..self
            }
        }
    }

    /// The game after the snake grew: one more part at the end of the body,
    /// hidden, at `position`.
    pub open spec fn after_growing(self, position: VirtualPosition) -> SnakeView {
        SnakeView { parts: self.parts.push(SnakePart { position, visible: false }), ..self }
    }
}

impl View for Snake {
    type V = SnakeView;

    closed spec fn view(&self) -> SnakeView {
        SnakeView {
            head: self.head,
            head_position: self.head_position,
            parts: self.parts@,
            tail: self.tail,
            food: self.food,
            score: self.score,
            timer: self.timer,
        }
    }
}

/// How far from the middle food is put, in blocks, in a view that is
/// `view_max` pixels wide.
pub fn reach(view_max: u32) -> (r: i32)
    ensures
        r == food_reach(view_max),
{
    let area: i64 = BLOCK_SIZE as i64 * BLOCK_SIZE as i64;
    let span: i64 = 2 * BLOCK_SIZE as i64;
    if view_max as i64 >= area {
        ((view_max as i64 - area) / span) as i32
    } else {
        (-((area - view_max as i64) / span)) as i32
    }
}

impl Snake {
    /// A new game: the snake and the food at their first places, no points,
    /// the timer at rest.
    pub fn new() -> (snake: Snake)
        ensures
            snake@ == SnakeView::fresh(),
    {
        Snake {
            head: SnakeHead { locked: false, direction: Direction::Right },
            head_position: VirtualPosition { x: 0, y: 0 },
            parts: Vec::new(),
            tail: VirtualPosition { x: -1, y: 0 },
            food: VirtualPosition { x: 5, y: 5 },
            score: 0,
            timer: MainTimer { elapsed: 0, period: TICK_NANOS },
        }
    }

    /// The head.
    pub fn head(&self) -> (r: SnakeHead)
        ensures
            r == self@.head,
    {
        self.head
    }

    /// The place of the head.
    pub fn head_position(&self) -> (r: VirtualPosition)
        ensures
            r == self@.head_position,
    {
        self.head_position
    }

    /// The parts of the body, from the one behind the head on.
    pub fn parts(&self) -> (r: &Vec<SnakePart>)
        ensures
            r@ == self@.parts,
    {
        &self.parts
    }

    /// The place that the snake has just left.
    pub fn tail(&self) -> (r: VirtualPosition)
        ensures
            r == self@.tail,
    {
        self.tail
    }

    /// The place of the food.
    pub fn food(&self) -> (r: VirtualPosition)
        ensures
            r == self@.food,
    {
        self.food
    }

    /// The points won.
    pub fn score(&self) -> (r: usize)
        ensures
            r == self@.score,
    {
        self.score
    }

    /// The timer.
    pub fn timer(&self) -> (r: MainTimer)
        ensures
            r == self@.timer,
    {
        self.timer
    }

    /// Sets the points back to none.
    pub fn reset_score(&mut self)
        ensures
            final(self)@ == (SnakeView { score: 0, ..old(self)@ }),
    {
        self.score = 0;
    }

    /// Sets the timer back to rest.
    pub fn reset_timer(&mut self)
        ensures
            final(self)@ == (SnakeView {
                timer: MainTimer { elapsed: 0, period: old(self)@.timer.period },
                ..old(self)@
            }),
    {
        self.timer.reset();
    }

    /// Looks at the keys that were just pressed. The snake heads where they
    /// ask, but never straight back, and changes direction only once
    /// between two steps.
    pub fn handle_input(&mut self, up: bool, down: bool, right: bool, left: bool)
        ensures
            final(self)@ == old(self)@.after_input(up, down, right, left),
    {
        let mut new_direction = self.head.direction;
        if up && self.head.direction != Direction::Down {
            new_direction = Direction::Up;
        }
        if down && self.head.direction != Direction::Up {
            new_direction = Direction::Down;
        }
        if right && self.head.direction != Direction::Left {
            new_direction = Direction::Right;
        }
        if left && self.head.direction != Direction::Right {
            new_direction = Direction::Left;
        }
        if !self.head.locked && self.head.direction != new_direction {
            self.head.direction = new_direction;
            self.head.locked = true;
        }
    }

    /// A frame of `delta` nanoseconds. The timer advances; where it fires,
    /// the snake takes a step: the head moves one block in its direction,
    /// each part of the body goes where the part before it was and becomes
    /// visible, and the direction is free to change again. Returns whether
    /// the snake took a step. The head is not at the end of the numbers
    /// that a position can hold.
    pub fn move_snake(&mut self, delta: u64) -> (stepped: bool)
        requires
            old(self)@.can_step(),
        ensures
            final(self)@ == old(self)@.after_move(delta),
            stepped == old(self)@.timer.fires(delta),
    {
        if !self.timer.tick(delta) {
            return false;
        }
        let ghost before = self@;
        let mut last_pos = self.head_position;
        let new_position = match self.head.direction {
            Direction::Up => VirtualPosition { x: self.head_position.x, y: self.head_position.y + 1 },
            Direction::Down => VirtualPosition {
                x: self.head_position.x,
                y: self.head_position.y - 1,
            },
            Direction::Left => VirtualPosition {
                x: self.head_position.x - 1,
                y: self.head_position.y,
            },
            Direction::Right => VirtualPosition {
                x: self.head_position.x + 1,
                y: self.head_position.y,
            },
        };
        let mut i: usize = 0;
        while i < self.parts.len()
            invariant
                i <= self.parts@.len(),
                self.parts@.len() == before.parts.len(),
                self@ == (SnakeView { parts: self.parts@, ..before }),
                last_pos == before.place(i - 1),
                forall|k: int|
                    0 <= k < i ==> #[trigger] self.parts@[k] == (SnakePart {
                        position: before.place(k - 1),
                        visible: true,
                    }),
                forall|k: int| i <= k < self.parts@.len() ==> self.parts@[k] == before.parts[k],
            decreases self.parts@.len() - i,
        {
            let tmp = self.parts[i].position;
            self.parts[i] = SnakePart { position: last_pos, visible: true };
            last_pos = tmp;
            i += 1;
        }
        self.tail = last_pos;
        self.head_position = new_position;
        if self.head.locked {
            self.head.locked = false;
        }
        proof {
            let wanted = old(self)@.after_move(delta);
            assert(before.parts == old(self)@.parts);
            assert(before.head_position == old(self)@.head_position);
            assert(self@.parts =~= wanted.parts);
            assert(self@.tail == wanted.tail);
            assert(self@.head_position == wanted.head_position);
            assert(self@.head == wanted.head);
        }
        true
    }

    /// Whether the head is on the food.
    pub fn check_on_food(&self) -> (r: bool)
        ensures
            r == self@.on_food(),
    {
        self.head_position == self.food
    }

    fn has_part_at(&self, position: VirtualPosition) -> (r: bool)
        ensures
            r == exists|i: int|
                0 <= i < self@.parts.len() && (#[trigger] self@.parts[i]).position == position,
    {
        let mut i: usize = 0;
        while i < self.parts.len()
            invariant
                i <= self.parts@.len(),
                forall|k: int| 0 <= k < i ==> (#[trigger] self.parts@[k]).position != position,
            decreases self.parts@.len() - i,
        {
            if self.parts[i].position == position {
                assert(self@.parts[i as int].position == position);
                return true;
            }
            i += 1;
        }
        false
    }

    /// Whether the head is on a part of the body, which ends the game.
    pub fn check_on_cannibalism(&self) -> (r: bool)
        ensures
            r == self@.bites_itself(),
    {
        self.has_part_at(self.head_position)
    }

    /// Whether the head has reached the edge of a view of `view_max_x` by
    /// `view_max_y` pixels, which ends the game.
    pub fn check_on_edge_running(&self, view_max_x: u32, view_max_y: u32) -> (r: bool)
        ensures
            r == self@.runs_off(view_max_x, view_max_y),
    {
        let x: i64 = self.head_position.x as i64;
        let y: i64 = self.head_position.y as i64;
        let far_x: i64 = if x >= 0 {
            x
        } else {
            -x
        };
        let far_y: i64 = if y >= 0 {
            y
        } else {
            -y
        };
        view_max_x as i64 <= 2 * (BLOCK_SIZE as i64 * far_x) || view_max_y as i64 <= 2 * (
        BLOCK_SIZE as i64 * far_y)
    }

    /// The snake has eaten, and new food is offered at `position`. Where the
    /// snake is not there, the food is put there and a point is won; where
    /// it is, nothing changes, and another place is to be offered. Returns
    /// whether the food was put.
    pub fn eat_food(&mut self, position: VirtualPosition) -> (put: bool)
        ensures
            final(self)@ == old(self)@.after_eating(position),
            put == !old(self)@.covers(position),
    {
        if self.head_position == position || self.has_part_at(position) {
            return false;
        }
        self.food = position;
        self.score = self.score.saturating_add(1);
        true
    }

    /// The snake grows by one part, which waits hidden at `position` until
    /// the snake moves.
    pub fn grow_snake(&mut self, position: VirtualPosition)
        ensures
            final(self)@ == old(self)@.after_growing(position),
    {
        self.parts.push(SnakePart { position, visible: false });
    }
}

/// A snake that grew is one part longer after its next step, and that part
/// is where the last part was, or where the head was if there was none.
pub proof fn lemma_grown_part_follows(snake: SnakeView, position: VirtualPosition)
    ensures
        snake.after_growing(position).stepped().parts.len() == snake.parts.len() + 1,
        snake.after_growing(position).stepped().parts.last().position == snake.place(
            snake.parts.len() - 1,
        ),
        snake.after_growing(position).stepped().parts.last().visible,
        forall|i: int|
            0 <= i < snake.parts.len() ==> snake.after_growing(position).stepped().parts[i]
                == snake.stepped().parts[i],
{
}

/// The direction changes at most once between two steps, and never
/// straight back.
pub proof fn lemma_one_turn_per_step(
    snake: SnakeView,
    up: bool,
    down: bool,
    right: bool,
    left: bool,
    up2: bool,
    down2: bool,
    right2: bool,
    left2: bool,
)
    ensures
        snake.after_input(up, down, right, left).head.direction
            != snake.head.direction.spec_opposite(),
        snake.after_input(up, down, right, left).head.direction != snake.head.direction
            ==> snake.after_input(up, down, right, left).after_input(up2, down2, right2, left2)
            == snake.after_input(up, down, right, left),
        !snake.stepped().head.locked,
{
}

} // verus!
