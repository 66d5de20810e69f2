//! What holds of the simulation as a whole, proved over the model that the
//! contracts of `Game` are stated in.

use super::active::{
    all_free,
    bottom,
    landing_row,
    lemma_dropped,
    lemma_dropped_wf,
    lemma_first_fit,
    lemma_piece_shape,
    lemma_shifted_wf,
    lemma_turned_wf,
    lemma_with_cells,
    piece_columns,
    row_travel,
    shifted,
    within_limit,
    PieceView,
};
use super::bag::{after_draw, drawn};
use super::board::{
    cell_filled,
    cell_free,
    cleared_grid,
    full_rows,
    grid_wf,
    in_bounds,
    lemma_cleared_grid_wf,
    lemma_max_y_is_highest,
    lemma_max_y_many_is_max,
    max_y,
    max_y_many,
    Grid,
};
use super::components::FigureType;
use super::consts::HARD_DROP_POINTS;
use super::game::{GameView, Input, TickResult};
use super::state::capped;
use vstd::prelude::*;

verus! {

/// Every step of the simulation keeps board and piece well formed.
pub proof fn lemma_steps_keep_wf(game: GameView, input: Input, delta: u64, order: Seq<FigureType>)
    requires
        game.wf(),
    ensures
        game.after_input(input).wf(),
        game.after_gravity(delta).wf(),
        game.after_lockdown(delta, order).wf(),
        game.after_clear().wf(),
{
    lemma_piece_shape(game.piece);
    lemma_moved_wf(game.piece, game.board, 1, 0);
    lemma_moved_wf(game.piece, game.board, -1, 0);
    lemma_moved_wf(game.piece, game.board, 0, -1);
    lemma_rotated_wf(game.piece, game.board, true);
    lemma_rotated_wf(game.piece, game.board, false);
    lemma_dropped_wf(game.piece, game.board);
    lemma_with_cells(game.board, game.piece.cells);
    lemma_cleared_grid_wf(game.board);
    lemma_spawned_wf(drawn(game.queue, order));
}

/// A new piece is well formed.
pub proof fn lemma_spawned_wf(kind: FigureType)
    ensures
        PieceView::spawned(kind).wf(),
{
    kind.lemma_dots_shape();
    let p = PieceView::spawned(kind);
    assert(p.cells[0] == (4 + kind.spec_to_dots()[0].0, 18 + kind.spec_to_dots()[0].1));
    assert forall|i: int| 0 <= i < 4 implies within_limit(#[trigger] p.cells[i]) by {
        assert(0 <= kind.spec_to_dots()[i].0 <= 3);
    }
}

proof fn lemma_moved_wf(piece: PieceView, g: Grid, dx: int, dy: int)
    requires
        piece.wf(),
    ensures
        piece.moved(g, dx, dy).wf(),
{
    let t = shifted(piece.cells, dx, dy);
    if all_free(g, t) {
        assert forall|i: int| 0 <= i < 4 implies within_limit(#[trigger] t[i]) by {
            assert(cell_free(g, t[i].0, t[i].1));
        }
        lemma_shifted_wf(piece, dx, dy);
    }
}

proof fn lemma_rotated_wf(piece: PieceView, g: Grid, clockwise: bool)
    requires
        piece.wf(),
    ensures
        piece.rotated(g, clockwise).wf(),
{
    lemma_first_fit(piece, g, clockwise, 0);
    match piece.first_fit(g, clockwise, 0) {
        Some(j) => {
            let t = piece.turned_cells(clockwise, piece.kicks(clockwise)[j]);
            assert forall|i: int| 0 <= i < 4 implies within_limit(#[trigger] t[i]) by {
                assert(cell_free(g, t[i].0, t[i].1));
            }
            lemma_turned_wf(piece, clockwise, piece.kicks(clockwise)[j]);
        },
        None => {},
    }
}

/// A turn leaves the state as it was if and only if no wall-kick candidate
/// leads to four free cells.
pub proof fn lemma_rotation_fails_only_without_fit(game: GameView, clockwise: bool)
    requires
        game.wf(),
        !game.over,
    ensures
        game.after_rotate(clockwise) == game <==> forall|j: int|
            0 <= j < game.piece.kicks(clockwise).len() ==> !game.piece.kick_fits(
                game.board,
                clockwise,
                j,
            ),
{
    lemma_first_fit(game.piece, game.board, clockwise, 0);
    game.piece.rotation.lemma_cyclic();
    if game.piece.first_fit(game.board, clockwise, 0) is Some {
        assert(game.after_rotate(clockwise).piece.rotation != game.piece.rotation);
    }
}

/// A turn that succeeds takes the first candidate that fits, ends on four
/// free cells, and leaves a running lockdown countdown at zero.
pub proof fn lemma_rotation_takes_first_fit(game: GameView, clockwise: bool)
    requires
        game.wf(),
        game.can_rotate(clockwise),
    ensures
        all_free(game.board, game.after_rotate(clockwise).piece.cells),
        !game.lockdown_timer.finished ==> game.after_rotate(clockwise).lockdown_timer.elapsed == 0
            && !game.after_rotate(clockwise).lockdown_timer.finished,
        exists|j: int|
            {
                &&& 0 <= j < game.piece.kicks(clockwise).len()
                &&& game.piece.kick_fits(game.board, clockwise, j)
                &&& forall|i: int| 0 <= i < j ==> !game.piece.kick_fits(game.board, clockwise, i)
                &&& game.after_rotate(clockwise).piece.cells == game.piece.turned_cells(
                    clockwise,
                    game.piece.kicks(clockwise)[j],
                )
            },
{
    lemma_first_fit(game.piece, game.board, clockwise, 0);
    let j = game.piece.first_fit(game.board, clockwise, 0)->0;
    assert(game.piece.kick_fits(game.board, clockwise, j));
}

/// After a hard drop the lowest row of the piece is the row above the
/// highest filled cell of its columns, or the floor where those columns hold
/// nothing; no cell of the piece is on a filled cell; and the score has
/// grown by `HARD_DROP_POINTS` for each row that each of the four cells
/// travelled, as far as the counter has room.
pub proof fn lemma_hard_drop_lands_on_surface(game: GameView)
    requires
        game.wf(),
        !game.over,
    ensures
        max_y_many(game.board, piece_columns(game.piece.cells)) > 0 ==> bottom(
            game.after_hard_drop().piece.cells,
        ) == max_y_many(game.board, piece_columns(game.piece.cells)) + 1,
        max_y_many(game.board, piece_columns(game.piece.cells)) == 0 ==> bottom(
            game.after_hard_drop().piece.cells,
        ) == 0 || bottom(game.after_hard_drop().piece.cells) == 1,
        bottom(game.after_hard_drop().piece.cells) == 0 <==> forall|i: int, y: int|
            0 <= i < 4 ==> !#[trigger] cell_filled(game.board, game.piece.cells[i].0, y),
        forall|i: int|
            0 <= i < 4 ==> !cell_filled(
                game.board,
                (#[trigger] game.after_hard_drop().piece.cells[i]).0,
                game.after_hard_drop().piece.cells[i].1,
            ),
        game.after_hard_drop().score.score == capped(
            game.score.score + HARD_DROP_POINTS * row_travel(
                game.piece.cells,
                game.after_hard_drop().piece.cells,
            ),
        ),
        game.after_hard_drop().score.lines_cleared == game.score.lines_cleared,
        game.after_hard_drop().board == game.board,
        game.after_hard_drop().lockdown_timer == game.lockdown_timer,
{
    lemma_dropped(game.piece, game.board);
    lemma_piece_shape(game.piece);
    let v = game.piece.cells;
    let g = game.board;
    lemma_max_y_many_is_max(g, piece_columns(v));
    assert forall|i: int, y: int| 0 <= i < 4 && #[trigger] cell_filled(g, v[i].0, y) implies y
        <= max_y_many(g, piece_columns(v)) by {
        lemma_max_y_is_highest(g, v[i].0);
        assert(piece_columns(v)[i] == v[i].0);
    }
    if landing_row(g, v) == 0 {
        assert forall|i: int, y: int| 0 <= i < 4 implies !#[trigger] cell_filled(
            g,
            v[i].0,
            y,
        ) by {
            assert(!cell_filled(g, v[i].0, 0));
        }
    } else {
        if max_y_many(g, piece_columns(v)) == 0 {
            let i = choose|i: int| 0 <= i < v.len() && cell_filled(g, (#[trigger] v[i]).0, 0);
            assert(cell_filled(g, v[i].0, 0));
        } else {
            let e = choose|i: int|
                0 <= i < piece_columns(v).len() && max_y(
                    g,
                    #[trigger] piece_columns(v)[i],
                ) == max_y_many(g, piece_columns(v));
            lemma_max_y_is_highest(g, piece_columns(v)[e]);
            assert(cell_filled(g, v[e].0, max_y_many(g, piece_columns(v)) as int));
        }
    }
}

/// Gravity never moves the piece onto a cell that is not free. Where the
/// timer fires on a piece that cannot descend, the piece stays and the
/// lockdown countdown runs afterwards; where it fires on a piece that can
/// descend, no lockdown countdown runs afterwards.
pub proof fn lemma_gravity_respects_board(game: GameView, delta: u64)
    requires
        game.wf(),
        !game.over,
    ensures
        game.after_gravity(delta).board == game.board,
        game.after_gravity(delta).piece != game.piece ==> all_free(
            game.board,
            game.after_gravity(delta).piece.cells,
        ),
        game.after_gravity(delta).piece != game.piece ==> game.after_gravity(delta).piece.cells
            == shifted(game.piece.cells, 0, -1),
        game.gravity_fires(delta) && !game.piece.can_descend(game.board) ==> game.after_gravity(
            delta,
        ).piece == game.piece && !game.after_gravity(delta).lockdown_timer.finished,
        game.gravity_fires(delta) && game.piece.can_descend(game.board) ==> game.after_gravity(
            delta,
        ).lockdown_timer.finished,
        !game.gravity_fires(delta) ==> game.after_gravity(delta).piece == game.piece
            && game.after_gravity(delta).lockdown_timer == game.lockdown_timer,
{
}

/// A piece that rested and was then moved to where it can fall again is not
/// locked: the gravity step that arms the countdown, a move to the side,
/// and a gravity step that finds the piece free to descend leave no
/// countdown running, and the lockdown step that follows locks nothing.
pub proof fn lemma_unblocked_piece_is_not_locked(
    game: GameView,
    first: u64,
    right: bool,
    second: u64,
    order: Seq<FigureType>,
)
    requires
        game.wf(),
        !game.over,
        game.gravity_fires(first),
        !game.piece.can_descend(game.board),
        game.after_gravity(first).after_move(right).gravity_fires(second),
        game.after_gravity(first).after_move(right).piece.can_descend(game.board),
    ensures
        !game.after_gravity(first).lockdown_timer.finished,
        game.after_gravity(first).after_move(right).after_gravity(second).lockdown_timer.finished,
        !game.after_gravity(first).after_move(right).after_gravity(second).locks(second),
        game.after_gravity(first).after_move(right).after_gravity(second).after_lockdown(
            second,
            order,
        ).board == game.board,
{
}

/// Locking commits the piece once. The lockdown step that locks the piece
/// fills exactly its four cells, as far as they lie on the board, and
/// nothing else; unless the game ends, the next piece of the bag is the new
/// active piece, at the spawn position. A lockdown step that follows
/// directly locks nothing and leaves the board as it is.
pub proof fn lemma_lock_commits_once(
    game: GameView,
    delta: u64,
    order: Seq<FigureType>,
    later: u64,
    later_order: Seq<FigureType>,
)
    requires
        game.wf(),
        game.locks(delta),
    ensures
        forall|x: int, y: int|
            cell_filled(game.after_lockdown(delta, order).board, x, y) <==> cell_filled(
                game.board,
                x,
                y,
            ) || (in_bounds(x, y) && game.piece.cells.contains((x, y))),
        game.after_lockdown(delta, order).queue == after_draw(game.queue, order),
        !game.tops_out(delta, order) ==> game.after_lockdown(delta, order).piece
            == PieceView::spawned(drawn(game.queue, order)) && all_free(
            game.after_lockdown(delta, order).board,
            game.after_lockdown(delta, order).piece.cells,
        ),
        !game.after_lockdown(delta, order).locks(later),
        game.after_lockdown(delta, order).after_lockdown(later, later_order).board
            == game.after_lockdown(delta, order).board,
        game.after_lockdown(delta, order).after_lockdown(later, later_order).piece
            == game.after_lockdown(delta, order).piece,
{
    lemma_with_cells(game.board, game.piece.cells);
}

/// The scoring table: while lines are looked for, clearing one, two, three
/// or four lines at once adds 100, 300, 500 or 700 points, and the line
/// count grows by the number of lines cleared, as long as the counters have
/// room.
pub proof fn lemma_clear_scores_by_table(game: GameView)
    requires
        game.wf(),
        game.clears(),
        game.score.score + 700 <= usize::MAX,
        game.score.lines_cleared + 4 <= usize::MAX,
    ensures
        game.after_clear().board == cleared_grid(game.board),
        full_rows(game.board) == 0 ==> game.after_clear().score == game.score,
        full_rows(game.board) == 1 ==> game.after_clear().score.score == game.score.score + 100,
        full_rows(game.board) == 2 ==> game.after_clear().score.score == game.score.score + 300,
        full_rows(game.board) == 3 ==> game.after_clear().score.score == game.score.score + 500,
        full_rows(game.board) == 4 ==> game.after_clear().score.score == game.score.score + 700,
        full_rows(game.board) <= 4 ==> game.after_clear().score.lines_cleared
            == game.score.lines_cleared + full_rows(game.board),
{
}

/// Once the game has ended nothing changes and nothing is reported.
pub proof fn lemma_over_is_final(
    game: GameView,
    inputs: Seq<Input>,
    delta: u64,
    order: Seq<FigureType>,
)
    requires
        game.over,
    ensures
        game.after_inputs(inputs) == game,
        game.after_tick(inputs, delta, order) == game,
        game.tick_result(inputs, delta, order) == (TickResult {
            figure_placed: false,
            game_over: false,
            lines_cleared: 0,
        }),
    decreases inputs.len(),
{
    if inputs.len() > 0 {
        lemma_over_is_final(game, inputs.drop_last(), delta, order);
    }
}

/// Top-out: where the next piece collides with what the board holds, the
/// tick that locks the active piece ends the game and reports it, places no
/// new piece, and changes the board no further: no line is cleared and no
/// point awarded. Every later tick leaves the state as it is and reports
/// nothing.
pub proof fn lemma_top_out_ends_game(
    game: GameView,
    inputs: Seq<Input>,
    delta: u64,
    order: Seq<FigureType>,
    later_inputs: Seq<Input>,
    later: u64,
    later_order: Seq<FigureType>,
)
    requires
        game.before_lockdown(inputs, delta).tops_out(delta, order),
    ensures
        game.after_tick(inputs, delta, order).over,
        game.tick_result(inputs, delta, order) == (TickResult {
            figure_placed: true,
            game_over: true,
            lines_cleared: 0,
        }),
        game.after_tick(inputs, delta, order).board == game.before_lockdown(
            inputs,
            delta,
        ).locked_board(),
        game.after_tick(inputs, delta, order).piece == game.before_lockdown(inputs, delta).piece,
        game.after_tick(inputs, delta, order).score == game.before_lockdown(inputs, delta).score,
        game.after_tick(inputs, delta, order).after_tick(later_inputs, later, later_order)
            == game.after_tick(inputs, delta, order),
        game.after_tick(inputs, delta, order).tick_result(later_inputs, later, later_order).game_over
            == false,
{
    lemma_over_is_final(game.after_tick(inputs, delta, order), later_inputs, later, later_order);
}

/// The game ends in a tick only by top-out.
pub proof fn lemma_game_ends_only_by_top_out(
    game: GameView,
    inputs: Seq<Input>,
    delta: u64,
    order: Seq<FigureType>,
)
    requires
        !game.over,
    ensures
        game.after_tick(inputs, delta, order).over <==> game.before_lockdown(
            inputs,
            delta,
        ).tops_out(delta, order),
        game.tick_result(inputs, delta, order).game_over == game.after_tick(
            inputs,
            delta,
            order,
        ).over,
{
    lemma_inputs_keep_running(game, inputs);
}

/// Control events do not end the game.
pub proof fn lemma_inputs_keep_running(game: GameView, inputs: Seq<Input>)
    ensures
        game.after_inputs(inputs).over == game.over,
        game.after_inputs(inputs).board == game.board,
        game.after_inputs(inputs).queue == game.queue,
    decreases inputs.len(),
{
    if inputs.len() > 0 {
        lemma_inputs_keep_running(game, inputs.drop_last());
    }
}

/// Within a game neither the points nor the line count ever go down.
pub proof fn lemma_score_never_falls(
    game: GameView,
    inputs: Seq<Input>,
    delta: u64,
    order: Seq<FigureType>,
)
    ensures
        game.after_tick(inputs, delta, order).score.score >= game.score.score,
        game.after_tick(inputs, delta, order).score.lines_cleared >= game.score.lines_cleared,
{
    lemma_inputs_score(game, inputs);
}

proof fn lemma_inputs_score(game: GameView, inputs: Seq<Input>)
    ensures
        game.after_inputs(inputs).score.score >= game.score.score,
        game.after_inputs(inputs).score.lines_cleared == game.score.lines_cleared,
    decreases inputs.len(),
{
    if inputs.len() > 0 {
        lemma_inputs_score(game, inputs.drop_last());
    }
}

} // verus!
