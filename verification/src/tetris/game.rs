//! The simulation: one object that owns the board, the active piece, the
//! bag, the score and both timers, and advances them tick by tick.

use super::active::{
    all_free,
    lemma_travel_bound,
    row_travel,
    shifted,
    with_cells,
    ActivePiece,
    PieceView,
    COORD_LIMIT,
};
use super::bag::{after_draw, drawn, is_shuffle, PieceOrder, TetroBag};
use super::board::{
    cell_free,
    cleared_grid,
    empty_grid,
    full_rows,
    grid_wf,
    lemma_cleared_grid_wf,
    GameBoard,
    Grid,
};
use super::components::{FigureType, GridPosition};
use super::consts::{
    GRAVITY_PERIOD_NANOS,
    HARD_DROP_POINTS,
    LOCKDOWN_NANOS,
    SOFT_DROP_MULTIPLER,
};
use super::state::Score;
use super::timers::{scale, scaled, GravityTimer, LockdownTimer};
use vstd::prelude::*;

verus! {

/// A control event.
#[derive(Debug, Clone, Copy, PartialEq, Eq, Hash, Structural)]
pub enum Input {
    MoveLeft,
    MoveRight,
    RotateClockwise,
    RotateCounterClockwise,
    HardDrop,
    SoftDropOn,
    SoftDropOff,
}

/// Whether soft drop is held.
#[derive(Debug, Clone, Copy, PartialEq, Eq, Hash, Structural)]
pub struct SoftDrop {
    pub active: bool,
}

/// What the lockdown step of a tick did.
#[derive(Debug, Clone, Copy, PartialEq, Eq, Hash, Structural)]
pub enum LockOutcome {
    /// Nothing was locked.
    Waiting,
    /// The piece was locked into the board and the next piece spawned.
    FigurePlaced,
    /// The piece was locked into the board and the next piece had no room.
    GameOver,
}

/// What one tick did.
#[derive(Debug, Clone, Copy, PartialEq, Eq, Hash, Structural)]
pub struct TickResult {
    /// Whether a piece was locked into the board.
    pub figure_placed: bool,
    /// Whether the game ended with this tick.
    pub game_over: bool,
    /// The number of lines that this tick cleared.
    pub lines_cleared: usize,
}

/// The simulation.
#[derive(Debug, Clone)]
pub struct Game {
    board: GameBoard,
    piece: ActivePiece,
    bag: TetroBag,
    score: Score,
    gravity_timer: GravityTimer,
    lockdown_timer: LockdownTimer,
    soft_drop: SoftDrop,
    over: bool,
}

/// The simulation as the contracts see it.
pub struct GameView {
    pub board: Grid,
    pub piece: PieceView,
    /// The upcoming pieces, the next one first.
    pub queue: Seq<FigureType>,
    pub score: Score,
    pub gravity_timer: GravityTimer,
    pub lockdown_timer: LockdownTimer,
    pub soft_drop: bool,
    /// Whether the game has ended.
    pub over: bool,
}

impl GameView {
    /// Whether board and piece are well formed.
    pub open spec fn wf(self) -> bool {
        grid_wf(self.board) && self.piece.wf()
    }

    /// The state at the start of a game whose bag is first filled in the
    /// order `order`, with a gravity period of `gravity_period` nanoseconds
    /// and a lockdown countdown of `lockdown_duration` nanoseconds: an empty
    /// board, the first piece of `order` at the spawn position, no points,
    /// both timers at rest.
    pub open spec fn fresh_with(
        order: Seq<FigureType>,
        gravity_period: u64,
        lockdown_duration: u64,
    ) -> GameView {
        GameView {
            board: empty_grid(),
            piece: PieceView::spawned(drawn(Seq::empty(), order)),
            queue: after_draw(Seq::empty(), order),
            score: Score { score: 0, lines_cleared: 0 },
            gravity_timer: GravityTimer { elapsed: 0, period: gravity_period },
            lockdown_timer: LockdownTimer {
                elapsed: lockdown_duration,
                duration: lockdown_duration,
                finished: true,
            },
            soft_drop: false,
            over: false,
        }
    }

    /// The state at the start of a game with the timers at their defaults.
    pub open spec fn fresh(order: Seq<FigureType>) -> GameView {
        Self::fresh_with(order, GRAVITY_PERIOD_NANOS, LOCKDOWN_NANOS)
    }

    /// The state with `board` and `piece` set up by hand: an empty bag, no
    /// points, both timers at rest.
    pub open spec fn set_up(board: Grid, piece: PieceView) -> GameView {
        GameView { board, piece, queue: Seq::empty(), ..Self::fresh(Seq::empty()) }
    }

    /// The state after a reset: the board emptied, the score at zero, the
    /// bag emptied, the game running. Piece, timers and soft drop stay.
    pub open spec fn after_reset(self) -> GameView {
        GameView {
            board: empty_grid(),
            score: Score { score: 0, lines_cleared: 0 },
            queue: Seq::empty(),
            over: false,
            ..self
        }
    }

    /// The state after the next piece was drawn and spawned.
    pub open spec fn after_spawn(self, order: Seq<FigureType>) -> GameView {
        GameView {
            piece: self.next_piece(order),
            queue: after_draw(self.queue, order),
            ..self
        }
    }

    /// Whether the cell at `(x, y)` shows as lit: it is filled, or lies off
    /// the board, or is one of the active cells.
    pub open spec fn lit(self, x: int, y: int) -> bool {
        !cell_free(self.board, x, y) || self.piece.cells.contains((x, y))
    }

    /// The state after a request to move one column: the piece moved where
    /// all four cells are free there. Nothing moves once the game has
    /// ended.
    pub open spec fn after_move(self, right: bool) -> GameView {
        if self.over {
            self
        } else {
            GameView {
                piece: self.piece.moved(
                    self.board,
                    if right {
                        1
                    } else {
                        -1
                    },
                    0,
                ),
                ..self
            }
        }
    }

    /// Whether a requested turn succeeds: the game goes on and one of the
    /// wall-kick candidates leads to four free cells.
    pub open spec fn can_rotate(self, clockwise: bool) -> bool {
        !self.over && self.piece.first_fit(self.board, clockwise, 0) is Some
    }

    /// The state after a request to turn: where the turn succeeds, the piece
    /// turned and a running lockdown countdown started anew.
    pub open spec fn after_rotate(self, clockwise: bool) -> GameView {
        if !self.can_rotate(clockwise) {
            self
        } else {
            GameView {
                piece: self.piece.rotated(self.board, clockwise),
                lockdown_timer: if self.lockdown_timer.finished {
                    self.lockdown_timer
                } else {
                    self.lockdown_timer.spec_reset()
                },
                ..self
            }
        }
    }

    /// The points that a hard drop awards: `HARD_DROP_POINTS` for each row
    /// that each cell travels.
    pub open spec fn hard_drop_points(self) -> nat {
        HARD_DROP_POINTS as nat * row_travel(
            self.piece.cells,
            self.piece.dropped(self.board).cells,
        )
    }

    /// The state after a hard drop: the piece on its landing row and the
    /// points awarded. The piece is not locked by the drop.
    pub open spec fn after_hard_drop(self) -> GameView {
        if self.over {
            self
        } else {
            GameView {
                piece: self.piece.dropped(self.board),
                score: self.score.with_points(self.hard_drop_points()),
                ..self
            }
        }
    }

    /// The state after soft drop was switched on or off.
    pub open spec fn after_soft_drop(self, active: bool) -> GameView {
        if self.over {
            self
        } else {
            GameView { soft_drop: active, ..self }
        }
    }

    /// The state after one control event.
    pub open spec fn after_input(self, input: Input) -> GameView {
        match input {
            Input::MoveLeft => self.after_move(false),
            Input::MoveRight => self.after_move(true),
            Input::RotateClockwise => self.after_rotate(true),
            Input::RotateCounterClockwise => self.after_rotate(false),
            Input::HardDrop => self.after_hard_drop(),
            Input::SoftDropOn => self.after_soft_drop(true),
            Input::SoftDropOff => self.after_soft_drop(false),
        }
    }

    /// The state after the control events `inputs`, each applied in turn.
    pub open spec fn after_inputs(self, inputs: Seq<Input>) -> GameView
        decreases inputs.len(),
    {
        if inputs.len() == 0 {
            self
        } else {
            self.after_inputs(inputs.drop_last()).after_input(inputs.last())
        }
    }

    /// The time by which a frame of `delta` advances the gravity timer:
    /// `delta` itself, or `SOFT_DROP_MULTIPLER` times as much while soft
    /// drop is held.
    pub open spec fn gravity_delta(self, delta: u64) -> u64 {
        if self.soft_drop {
            scaled(delta, SOFT_DROP_MULTIPLER)
        } else {
            delta
        }
    }

    /// Whether the gravity timer fires in a frame of `delta`.
    pub open spec fn gravity_fires(self, delta: u64) -> bool {
        !self.over && self.gravity_timer.fires(self.gravity_delta(delta))
    }

    /// The state after the gravity step of a frame of `delta`. The gravity
    /// timer advances. Where it fires and the piece can descend, the piece
    /// descends one row, a soft drop earns one point, and a running lockdown
    /// countdown is stopped. Where it fires and the piece cannot descend,
    /// the lockdown countdown starts unless it is already running.
    pub open spec fn after_gravity(self, delta: u64) -> GameView {
        if self.over {
            self
        } else if !self.gravity_fires(delta) {
            GameView { gravity_timer: self.gravity_timer.spec_tick(self.gravity_delta(delta)), ..self }
        } else if self.piece.can_descend(self.board) {
            GameView {
                gravity_timer: self.gravity_timer.spec_tick(self.gravity_delta(delta)),
                piece: self.piece.at(shifted(self.piece.cells, 0, -1)),
                score: if self.soft_drop {
                    self.score.with_points(1)
                } else {
                    self.score
                },
                lockdown_timer: if self.lockdown_timer.finished {
                    self.lockdown_timer
                } else {
                    self.lockdown_timer.spec_cancel()
                },
                ..self
            }
        } else {
            GameView {
                gravity_timer: self.gravity_timer.spec_tick(self.gravity_delta(delta)),
                lockdown_timer: if self.lockdown_timer.finished {
                    self.lockdown_timer.spec_reset()
                } else {
                    self.lockdown_timer
                },
                ..self
            }
        }
    }

    /// Whether the lockdown step of a frame of `delta` locks the piece: the
    /// countdown ends in this frame and the piece, tested anew, cannot
    /// descend.
    pub open spec fn locks(self, delta: u64) -> bool {
        !self.over && self.lockdown_timer.expires(delta) && !self.piece.can_descend(self.board)
    }

    /// The board with the piece locked into it.
    pub open spec fn locked_board(self) -> Grid {
        with_cells(self.board, self.piece.cells)
    }

    /// The piece that follows the active one, `order` being the permutation
    /// on offer to the bag.
    pub open spec fn next_piece(self, order: Seq<FigureType>) -> PieceView {
        PieceView::spawned(drawn(self.queue, order))
    }

    /// Whether the lockdown step of a frame of `delta` ends the game: the
    /// piece is locked and a cell of the next piece is not free.
    pub open spec fn tops_out(self, delta: u64, order: Seq<FigureType>) -> bool {
        self.locks(delta) && !all_free(self.locked_board(), self.next_piece(order).cells)
    }

    /// What the lockdown step of a frame of `delta` reports.
    pub open spec fn lock_outcome(self, delta: u64, order: Seq<FigureType>) -> LockOutcome {
        if !self.locks(delta) {
            LockOutcome::Waiting
        } else if self.tops_out(delta, order) {
            LockOutcome::GameOver
        } else {
            LockOutcome::FigurePlaced
        }
    }

    /// The state after the lockdown step of a frame of `delta`. The
    /// countdown advances. Where the piece is locked, its cells are filled
    /// on the board, the next piece is drawn from the bag, and either it
    /// becomes the active piece, at the spawn position, or, where it has no
    /// room, the game ends and the piece is not placed.
    pub open spec fn after_lockdown(self, delta: u64, order: Seq<FigureType>) -> GameView {
        if self.over {
            self
        } else if !self.locks(delta) {
            GameView { lockdown_timer: self.lockdown_timer.spec_tick(delta), ..self }
        } else {
            GameView {
                lockdown_timer: self.lockdown_timer.spec_tick(delta),
                board: self.locked_board(),
                queue: after_draw(self.queue, order),
                piece: if self.tops_out(delta, order) {
                    self.piece
                } else {
                    self.next_piece(order)
                },
                over: self.tops_out(delta, order),
                ..self
            }
        }
    }

    /// Whether lines are looked for: the game goes on and no lockdown
    /// countdown is running.
    pub open spec fn clears(self) -> bool {
        !self.over && self.lockdown_timer.finished
    }

    /// The number of lines that the line-clear step removes.
    pub open spec fn lines_to_clear(self) -> nat {
        if self.clears() {
            full_rows(self.board)
        } else {
            0
        }
    }

    /// The state after the line-clear step: the full rows removed and
    /// scored.
    pub open spec fn after_clear(self) -> GameView {
        if !self.clears() {
            self
        } else {
            GameView {
                board: cleared_grid(self.board),
                score: self.score.with_lines(full_rows(self.board)),
                ..self
            }
        }
    }

    /// The state before the lockdown step of a tick: after the control
    /// events and the gravity step.
    pub open spec fn before_lockdown(self, inputs: Seq<Input>, delta: u64) -> GameView {
        self.after_inputs(inputs).after_gravity(delta)
    }

    /// The state after one tick: the control events in turn, then gravity,
    /// then lockdown, then line clearing.
    pub open spec fn after_tick(self, inputs: Seq<Input>, delta: u64, order: Seq<FigureType>)
        -> GameView {
        self.before_lockdown(inputs, delta).after_lockdown(delta, order).after_clear()
    }

    /// What one tick reports.
    pub open spec fn tick_result(self, inputs: Seq<Input>, delta: u64, order: Seq<FigureType>)
        -> TickResult {
        TickResult {
            figure_placed: self.before_lockdown(inputs, delta).locks(delta),
            game_over: self.before_lockdown(inputs, delta).tops_out(delta, order),
            lines_cleared: self.before_lockdown(inputs, delta).after_lockdown(
                delta,
                order,
            ).lines_to_clear() as usize,
        }
    }
}

impl View for Game {
    type V = GameView;

    closed spec fn view(&self) -> GameView {
        GameView {
            board: self.board@,
            piece: self.piece@,
            queue: self.bag@,
            score: self.score,
            gravity_timer: self.gravity_timer,
            lockdown_timer: self.lockdown_timer,
            soft_drop: self.soft_drop.active,
            over: self.over,
        }
    }
}

impl Game {
    /// Whether board and piece are well formed. Every constructor gives such
    /// a game and every method keeps it so.
    pub open spec fn wf(&self) -> bool {
        self@.wf()
    }

    /// A new game whose bag is first filled in the order `order`, with a
    /// gravity period of `gravity_period` nanoseconds and a lockdown
    /// countdown of `lockdown_duration` nanoseconds.
    pub fn with_timers(order: &PieceOrder, gravity_period: u64, lockdown_duration: u64) -> (game:
        Game)
        requires
            order.wf(),
        ensures
            game.wf(),
            game@ == GameView::fresh_with(order@, gravity_period, lockdown_duration),
    {
        let mut bag = TetroBag::new();
        let first = bag.draw_with(order);
        Game {
            board: GameBoard::new(),
            piece: ActivePiece::spawn(first),
            bag,
            score: Score::new(),
            gravity_timer: GravityTimer::new(gravity_period),
            lockdown_timer: LockdownTimer::new(lockdown_duration),
            soft_drop: SoftDrop { active: false },
            over: false,
        }
    }

    /// A new game whose bag is first filled in the order `order`, with the
    /// timers at their defaults.
    pub fn with_order(order: &PieceOrder) -> (game: Game)
        requires
            order.wf(),
        ensures
            game.wf(),
            game@ == GameView::fresh(order@),
    {
        Self::with_timers(order, GRAVITY_PERIOD_NANOS, LOCKDOWN_NANOS)
    }

    /// A new game whose bag is filled at random.
    pub fn new() -> (game: Game)
        ensures
            game.wf(),
            exists|order: Seq<FigureType>| is_shuffle(order) && game@ == GameView::fresh(order),
    {
        let order = PieceOrder::shuffled();
        Self::with_order(&order)
    }

    /// A game set up by hand, with `board` as its board and `piece` as its
    /// active piece.
    pub fn set_up(board: GameBoard, piece: ActivePiece) -> (game: Game)
        requires
            board.wf(),
            piece.wf(),
        ensures
            game.wf(),
            game@ == GameView::set_up(board@, piece@),
    {
        Game {
            board,
            piece,
            bag: TetroBag::new(),
            score: Score::new(),
            gravity_timer: GravityTimer::new(GRAVITY_PERIOD_NANOS),
            lockdown_timer: LockdownTimer::new(LOCKDOWN_NANOS),
            soft_drop: SoftDrop { active: false },
            over: false,
        }
    }

    /// The board.
    pub fn board(&self) -> (r: &GameBoard)
        ensures
            r@ == self@.board,
            self.wf() ==> r.wf(),
    {
        &self.board
    }

    /// The active piece.
    pub fn piece(&self) -> (r: &ActivePiece)
        ensures
            r@ == self@.piece,
            self.wf() ==> r.wf(),
    {
        &self.piece
    }

    /// The score.
    pub fn score(&self) -> (r: Score)
        ensures
            r == self@.score,
    {
        self.score
    }

    /// Whether soft drop is held.
    pub fn soft_drop(&self) -> (r: SoftDrop)
        ensures
            r.active == self@.soft_drop,
    {
        self.soft_drop
    }

    /// The gravity timer.
    pub fn gravity_timer(&self) -> (r: GravityTimer)
        ensures
            r == self@.gravity_timer,
    {
        self.gravity_timer
    }

    /// The lockdown timer.
    pub fn lockdown_timer(&self) -> (r: LockdownTimer)
        ensures
            r == self@.lockdown_timer,
    {
        self.lockdown_timer
    }

    /// The number of pieces that wait in the bag.
    pub fn upcoming(&self) -> (r: usize)
        ensures
            r == self@.queue.len(),
    {
        self.bag.len()
    }

    /// Whether the game has ended.
    pub fn is_over(&self) -> (r: bool)
        ensures
            r == self@.over,
    {
        self.over
    }

    /// Whether the cell at `pos` shows as lit: it is filled, or lies off the
    /// board, or is one of the active cells.
    pub fn is_lit(&self, pos: GridPosition) -> (r: bool)
        requires
            self.wf(),
        ensures
            r == self@.lit(pos.x as int, pos.y as int),
    {
        !self.board.check((pos.x, pos.y)) || self.piece.occupies(pos)
    }

    /// Begins a game anew: empties the board and the bag and sets the score
    /// to zero. The next piece is then to be spawned.
    pub fn reset_game(&mut self)
        ensures
            final(self)@ == old(self)@.after_reset(),
            old(self).wf() ==> final(self).wf(),
    {
        self.score.reset();
        self.board.reset();
        self.bag.reset();
        self.over = false;
    }

    /// Draws the next piece from the bag, `order` being the permutation on
    /// offer, and makes it the active piece, at the spawn position.
    pub fn spawn_figure_with(&mut self, order: &PieceOrder)
        requires
            order.wf(),
        ensures
            final(self)@ == old(self)@.after_spawn(order@),
            old(self).wf() ==> final(self).wf(),
    {
        let fig = self.bag.draw_with(order);
        self.piece = ActivePiece::spawn(fig);
    }

    /// Draws the next piece from the bag, which refills at random, and makes
    /// it the active piece, at the spawn position.
    pub fn spawn_figure(&mut self)
        ensures
            exists|order: Seq<FigureType>|
                is_shuffle(order) && final(self)@ == old(self)@.after_spawn(order),
            old(self).wf() ==> final(self).wf(),
    {
        let order = self.next_order();
        self.spawn_figure_with(&order);
    }

    fn next_order(&self) -> (order: PieceOrder)
        ensures
            order.wf(),
    {
        if self.bag.needs_refill() {
            PieceOrder::shuffled()
        } else {
            PieceOrder::catalog()
        }
    }

    /// Moves the piece one column to the right, or to the left, where all
    /// four cells are free there. Returns whether the piece moved.
    pub fn move_tetronomio_horizontally(&mut self, right: bool) -> (moved: bool)
        requires
            old(self).wf(),
        ensures
            final(self).wf(),
            final(self)@ == old(self)@.after_move(right),
            moved == (final(self)@ != old(self)@),
    {
        if self.over {
            return false;
        }
        proof {
            lemma_shift_changes(self@.piece, if right { 1 } else { -1 }, 0);
        }
        self.piece.move_horizontally(&self.board, right)
    }

    /// Turns the piece a quarter, clockwise or counter-clockwise, with the
    /// first wall-kick candidate that leads to four free cells. A turn that
    /// succeeds starts a running lockdown countdown anew. Where no candidate
    /// fits, nothing changes. Returns whether the piece turned.
    pub fn rotate_tetronomio(&mut self, clockwise: bool) -> (turned: bool)
        requires
            old(self).wf(),
        ensures
            final(self).wf(),
            final(self)@ == old(self)@.after_rotate(clockwise),
            turned == old(self)@.can_rotate(clockwise),
            turned == (final(self)@ != old(self)@),
    {
        if self.over {
            return false;
        }
        let turned = self.piece.rotate(&self.board, clockwise);
        if turned && !self.lockdown_timer.finished() {
            self.lockdown_timer.reset();
        }
        turned
    }

    /// Drops the piece onto its landing row and awards `HARD_DROP_POINTS`
    /// points for each row that each cell travels. The piece is not locked:
    /// the next gravity step finds that it rests.
    pub fn hard_drop(&mut self)
        requires
            old(self).wf(),
        ensures
            final(self).wf(),
            final(self)@ == old(self)@.after_hard_drop(),
    {
        if self.over {
            return ;
        }
        let travel = self.piece.hard_drop(&self.board);
        assert(travel <= 8 * COORD_LIMIT) by {
            lemma_travel_bound(old(self)@.piece, self@.piece);
        }
        self.score.add_points(HARD_DROP_POINTS * travel);
    }

    /// Switches soft drop on or off.
    pub fn set_soft_drop(&mut self, active: bool)
        ensures
            final(self)@ == old(self)@.after_soft_drop(active),
            old(self).wf() ==> final(self).wf(),
    {
        if self.over {
            return ;
        }
        self.soft_drop.active = active;
    }

    /// Applies one control event.
    pub fn handle_input(&mut self, input: Input)
        requires
            old(self).wf(),
        ensures
            final(self).wf(),
            final(self)@ == old(self)@.after_input(input),
    {
        match input {
            Input::MoveLeft => {
                self.move_tetronomio_horizontally(false);
            },
            Input::MoveRight => {
                self.move_tetronomio_horizontally(true);
            },
            Input::RotateClockwise => {
                self.rotate_tetronomio(true);
            },
            Input::RotateCounterClockwise => {
                self.rotate_tetronomio(false);
            },
            Input::HardDrop => {
                self.hard_drop();
            },
            Input::SoftDropOn => {
                self.set_soft_drop(true);
            },
            Input::SoftDropOff => {
                self.set_soft_drop(false);
            },
        }
    }

    /// Applies the control events of one tick, each in turn.
    pub fn handle_inputs(&mut self, inputs: &Vec<Input>)
        requires
            old(self).wf(),
        ensures
            final(self).wf(),
            final(self)@ == old(self)@.after_inputs(inputs@),
    {
        let ghost before = self@;
        let mut i: usize = 0;
        assert(inputs@.take(0) =~= Seq::<Input>::empty());
        while i < inputs.len()
            invariant
                i <= inputs@.len(),
                self.wf(),
                self@ == before.after_inputs(inputs@.take(i as int)),
            decreases inputs@.len() - i,
        {
            self.handle_input(inputs[i]);
            assert(inputs@.take(i + 1).drop_last() =~= inputs@.take(i as int));
            assert(inputs@.take(i + 1).last() == inputs@[i as int]);
            i += 1;
        }
        assert(inputs@.take(inputs@.len() as int) =~= inputs@);
    }

    /// The gravity step of a frame of `delta` nanoseconds. The gravity timer
    /// advances, `SOFT_DROP_MULTIPLER` times as fast while soft drop is
    /// held. Where it fires and the piece can descend, the piece descends
    /// one row, a soft drop earns one point, and a running lockdown
    /// countdown is stopped. Where it fires and the piece cannot descend,
    /// the lockdown countdown starts unless it is already running. Returns
    /// whether the timer fired.
    pub fn gravity(&mut self, delta: u64) -> (fired: bool)
        requires
            old(self).wf(),
        ensures
            final(self).wf(),
            final(self)@ == old(self)@.after_gravity(delta),
            fired == old(self)@.gravity_fires(delta),
    {
        if self.over {
            return false;
        }
        let step: u64 = if self.soft_drop.active {
            scale(delta, SOFT_DROP_MULTIPLER)
        } else {
            delta
        };
        if !self.gravity_timer.tick(step) {
            return false;
        }
        if !self.piece.descend(&self.board) {
            if self.lockdown_timer.finished() {
                self.lockdown_timer.reset();
            }
            return true;
        }
        if self.soft_drop.active {
            self.score.add_points(1);
        }
        if !self.lockdown_timer.finished() {
            self.lockdown_timer.cancel();
        }
        true
    }

    /// The lockdown step of a frame of `delta` nanoseconds, `order` being
    /// the permutation on offer to the bag. The countdown advances. Where it
    /// ends in this frame and the piece, tested anew, cannot descend, the
    /// piece is locked: its cells are filled on the board and the next piece
    /// is drawn. That piece becomes the active piece, at the spawn
    /// position; where one of its cells is not free, the game ends instead
    /// and the piece is not placed.
    pub fn lockdown_tiles_with(&mut self, delta: u64, order: &PieceOrder) -> (outcome:
        LockOutcome)
        requires
            old(self).wf(),
            order.wf(),
        ensures
            final(self).wf(),
            final(self)@ == old(self)@.after_lockdown(delta, order@),
            outcome == old(self)@.lock_outcome(delta, order@),
    {
        if self.over {
            return LockOutcome::Waiting;
        }
        if !self.lockdown_timer.tick(delta) {
            return LockOutcome::Waiting;
        }
        if self.piece.can_descend(&self.board) {
            return LockOutcome::Waiting;
        }
        self.piece.lock_into(&mut self.board);
        let next_figure = self.bag.draw_with(order);
        let next = ActivePiece::spawn(next_figure);
        if next.is_free(&self.board) {
            self.piece = next;
            LockOutcome::FigurePlaced
        } else {
            self.over = true;
            LockOutcome::GameOver
        }
    }

    /// The lockdown step of a frame of `delta` nanoseconds, with a bag that
    /// refills at random.
    pub fn lockdown_tiles(&mut self, delta: u64) -> (outcome: LockOutcome)
        requires
            old(self).wf(),
        ensures
            final(self).wf(),
            exists|order: Seq<FigureType>|
                is_shuffle(order) && final(self)@ == old(self)@.after_lockdown(delta, order)
                    && outcome == old(self)@.lock_outcome(delta, order),
    {
        let order = self.next_order();
        self.lockdown_tiles_with(delta, &order)
    }

    /// The line-clear step. While the game goes on and no lockdown countdown
    /// is running, every full row is removed and scored: 100 points for the
    /// first line and 200 for each further one. Returns the number of lines
    /// removed.
    pub fn clear_lines(&mut self) -> (cleared: usize)
        requires
            old(self).wf(),
        ensures
            final(self).wf(),
            final(self)@ == old(self)@.after_clear(),
            cleared == old(self)@.lines_to_clear(),
    {
        if self.over || !self.lockdown_timer.finished() {
            return 0;
        }
        let cleared = self.board.clear_lines();
        self.score.add_lines(cleared);
        cleared
    }

    /// One tick of `delta` nanoseconds, `order` being the permutation on
    /// offer to the bag: the control events `inputs` in turn, then gravity,
    /// then lockdown, then line clearing.
    pub fn tick_with(&mut self, inputs: &Vec<Input>, delta: u64, order: &PieceOrder) -> (result:
        TickResult)
        requires
            old(self).wf(),
            order.wf(),
        ensures
            final(self).wf(),
            final(self)@ == old(self)@.after_tick(inputs@, delta, order@),
            result == old(self)@.tick_result(inputs@, delta, order@),
    {
        self.handle_inputs(inputs);
        self.gravity(delta);
        let outcome = self.lockdown_tiles_with(delta, order);
        proof {
            lemma_cleared_grid_wf(self@.board);
        }
        let cleared = self.clear_lines();
        TickResult {
            figure_placed: outcome != LockOutcome::Waiting,
            game_over: outcome == LockOutcome::GameOver,
            lines_cleared: cleared,
        }
    }

    /// One tick of `delta` nanoseconds, with a bag that refills at random.
    pub fn tick(&mut self, inputs: &Vec<Input>, delta: u64) -> (result: TickResult)
        requires
            old(self).wf(),
        ensures
            final(self).wf(),
            exists|order: Seq<FigureType>|
                is_shuffle(order) && final(self)@ == old(self)@.after_tick(inputs@, delta, order)
                    && result == old(self)@.tick_result(inputs@, delta, order),
    {
        let order = self.next_order();
        self.tick_with(inputs, delta, &order)
    }
}

/// A piece that moves is no longer the piece that it was.
proof fn lemma_shift_changes(piece: PieceView, dx: int, dy: int)
    requires
        piece.wf(),
        dx != 0 || dy != 0,
    ensures
        piece.at(shifted(piece.cells, dx, dy)) != piece,
{
    assert(shifted(piece.cells, dx, dy)[0] != piece.cells[0]);
}

} // verus!
