//! The active piece: the four live cells of the falling piece, with its type
//! and orientation, and the moves that the board allows it.

use super::board::{
    cell_filled,
    cell_free,
    columns,
    grid_wf,
    in_bounds,
    lemma_max_y_is_highest,
    lemma_max_y_many_is_max,
    max_y,
    max_y_many,
    with_cell,
    GameBoard,
    Grid,
};
use super::components::{FigureType, GridPosition, Rotation};
use super::consts::{BOARD_HEIGHT, START_X_POSITION, START_Y_POSITION};
use super::rotations::{rotate_left, rotate_right, spec_rotate_left, spec_rotate_right};
use vstd::prelude::*;

verus! {

/// No coordinate of an active cell lies further than this from the origin.
pub const COORD_LIMIT: i32 = 1_000_000;

/// The falling piece.
#[derive(Debug, Clone, Copy)]
pub struct ActivePiece {
    kind: FigureType,
    rotation: Rotation,
    cells: [GridPosition; 4],
}

/// The falling piece as the contracts see it.
pub struct PieceView {
    pub kind: FigureType,
    pub rotation: Rotation,
    /// The four cells, each as `(x, y)`.
    pub cells: Seq<(int, int)>,
}

/// The point `p` after `quarter_turns` clockwise quarter turns about the
/// origin.
pub open spec fn turned(p: (int, int), quarter_turns: int) -> (int, int) {
    if quarter_turns == 0 {
        p
    } else if quarter_turns == 1 {
        spec_rotate_right(p)
    } else if quarter_turns == 2 {
        (-p.0, -p.1)
    } else {
        spec_rotate_left(p)
    }
}

/// Cell `i` of a piece of type `kind` in orientation `rotation`, relative to
/// the piece's anchor: the spawn cell turned with the piece.
pub open spec fn shape_cell(kind: FigureType, rotation: Rotation, i: int) -> (int, int) {
    turned(
        (kind.spec_to_dots()[i].0 as int, kind.spec_to_dots()[i].1 as int),
        rotation.quarter_turns(),
    )
}

/// The cells of a piece of type `kind` in orientation `rotation` with its
/// anchor at `anchor`.
pub open spec fn placed(kind: FigureType, rotation: Rotation, anchor: (int, int)) -> Seq<
    (int, int),
> {
    Seq::new(
        4,
        |i: int|
            (
                anchor.0 + shape_cell(kind, rotation, i).0,
                anchor.1 + shape_cell(kind, rotation, i).1,
            ),
    )
}

/// Whether `p` lies within `COORD_LIMIT` of the origin.
pub open spec fn within_limit(p: (int, int)) -> bool {
    -COORD_LIMIT <= p.0 <= COORD_LIMIT && -COORD_LIMIT <= p.1 <= COORD_LIMIT
}

/// `cells`, each moved by `(dx, dy)`.
pub open spec fn shifted(cells: Seq<(int, int)>, dx: int, dy: int) -> Seq<(int, int)> {
    Seq::new(cells.len(), |i: int| (cells[i].0 + dx, cells[i].1 + dy))
}

/// Whether a piece may be at `cells`: each is on the board and not filled.
pub open spec fn all_free(g: Grid, cells: Seq<(int, int)>) -> bool {
    forall|i: int| 0 <= i < cells.len() ==> cell_free(g, (#[trigger] cells[i]).0, cells[i].1)
}

/// The smaller of two integers.
pub open spec fn least(a: int, b: int) -> int {
    if a <= b {
        a
    } else {
        b
    }
}

/// The column of the left edge of the bounding box of four cells.
pub open spec fn left_edge(cells: Seq<(int, int)>) -> int {
    least(least(cells[0].0, cells[1].0), least(cells[2].0, cells[3].0))
}

/// The lowest row of four cells.
pub open spec fn bottom(cells: Seq<(int, int)>) -> int {
    least(least(cells[0].1, cells[1].1), least(cells[2].1, cells[3].1))
}

/// The columns of the cells, one entry for each cell.
pub open spec fn piece_columns(cells: Seq<(int, int)>) -> Seq<int> {
    Seq::new(cells.len(), |i: int| cells[i].0)
}

/// The row on which the lowest cells of a piece at `cells` come to rest in a
/// hard drop: the floor where the piece's columns hold nothing, otherwise
/// the row above the highest filled cell of those columns.
pub open spec fn landing_row(g: Grid, cells: Seq<(int, int)>) -> int {
    if max_y_many(g, piece_columns(cells)) == 0 && forall|i: int|
        0 <= i < cells.len() ==> !cell_filled(g, (#[trigger] cells[i]).0, 0) {
        0
    } else {
        max_y_many(g, piece_columns(cells)) as int + 1
    }
}

/// The distance between two integers.
pub open spec fn distance(a: int, b: int) -> nat {
    if a >= b {
        (a - b) as nat
    } else {
        (b - a) as nat
    }
}

/// The rows travelled between `from` and `to`, summed over the four cells.
pub open spec fn row_travel(from: Seq<(int, int)>, to: Seq<(int, int)>) -> nat {
    distance(from[0].1, to[0].1) + distance(from[1].1, to[1].1) + distance(from[2].1, to[2].1)
        + distance(from[3].1, to[3].1)
}

/// `g` with every cell of `cells` filled that lies on the board.
pub open spec fn with_cells(g: Grid, cells: Seq<(int, int)>) -> Grid
    decreases cells.len(),
{
    if cells.len() == 0 {
        g
    } else {
        with_cell(with_cells(g, cells.drop_last()), cells.last().0, cells.last().1)
    }
}

/// The orientation that a turn leads to.
pub open spec fn turn_target(rotation: Rotation, clockwise: bool) -> Rotation {
    if clockwise {
        rotation.spec_right()
    } else {
        rotation.spec_left()
    }
}

/// The positions of `cells`.
pub open spec fn positions(cells: Seq<GridPosition>) -> Seq<(int, int)> {
    Seq::new(cells.len(), |i: int| cells[i]@)
}

impl PieceView {
    /// The anchor of the piece: the point that its cells are placed around.
    pub open spec fn anchor(self) -> (int, int) {
        (
            self.cells[0].0 - shape_cell(self.kind, self.rotation, 0).0,
            self.cells[0].1 - shape_cell(self.kind, self.rotation, 0).1,
        )
    }

    /// Whether the cells are those of the piece's type in the piece's
    /// orientation, placed at some anchor, and within `COORD_LIMIT`.
    pub open spec fn wf(self) -> bool {
        &&& self.cells =~= placed(self.kind, self.rotation, self.anchor())
        &&& forall|i: int| 0 <= i < 4 ==> within_limit(#[trigger] self.cells[i])
    }

    /// A new piece of type `kind`: in spawned orientation with its anchor at
    /// the spawn position.
    pub open spec fn spawned(kind: FigureType) -> PieceView {
        PieceView {
            kind,
            rotation: Rotation::R0,
            cells: placed(kind, Rotation::R0, (START_X_POSITION as int, START_Y_POSITION as int)),
        }
    }

    /// The piece with its cells at `cells`.
    pub open spec fn at(self, cells: Seq<(int, int)>) -> PieceView {
        PieceView { kind: self.kind, rotation: self.rotation, cells }
    }

    /// The piece moved by `(dx, dy)` where the board allows it, unmoved where
    /// it does not.
    pub open spec fn moved(self, g: Grid, dx: int, dy: int) -> PieceView {
        if all_free(g, shifted(self.cells, dx, dy)) {
            self.at(shifted(self.cells, dx, dy))
        } else {
            self
        }
    }

    /// Whether the piece can descend one row.
    pub open spec fn can_descend(self, g: Grid) -> bool {
        all_free(g, shifted(self.cells, 0, -1))
    }

    /// The wall-kick candidates of a turn, in the order in which they are
    /// tried.
    pub open spec fn kicks(self, clockwise: bool) -> Seq<(int, int)> {
        self.kind.spec_tests_for_rot(self.rotation, turn_target(self.rotation, clockwise))
    }

    /// The point that a turn rotates the cells about: the center of rotation
    /// of the current orientation, counted from the lower left corner of the
    /// bounding box.
    pub open spec fn pivot(self) -> (int, int) {
        (
            left_edge(self.cells) + self.kind.spec_center_point(self.rotation).0,
            bottom(self.cells) + self.kind.spec_center_point(self.rotation).1,
        )
    }

    /// Where a turn with the offset `kick` takes the cell `cell`: a quarter
    /// turn about the pivot, then the offset.
    pub open spec fn turned_cell(self, clockwise: bool, kick: (int, int), cell: (int, int)) -> (
        int,
        int,
    ) {
        let rel = (cell.0 - self.pivot().0, cell.1 - self.pivot().1);
        let rot = if clockwise {
            spec_rotate_right(rel)
        } else {
            spec_rotate_left(rel)
        };
        (rot.0 + self.pivot().0 + kick.0, rot.1 + self.pivot().1 + kick.1)
    }

    /// Where a turn with the offset `kick` takes the four cells, each new
    /// cell in the place of the cell it came from.
    pub open spec fn turned_cells(self, clockwise: bool, kick: (int, int)) -> Seq<(int, int)> {
        Seq::new(4, |i: int| self.turned_cell(clockwise, kick, self.cells[i]))
    }

    /// Whether candidate `j` of a turn leads to four free cells.
    pub open spec fn kick_fits(self, g: Grid, clockwise: bool, j: int) -> bool {
        all_free(g, self.turned_cells(clockwise, self.kicks(clockwise)[j]))
    }

    /// The first candidate of a turn, from candidate `from` on, that leads
    /// to four free cells; `None` where there is none.
    pub open spec fn first_fit(self, g: Grid, clockwise: bool, from: int) -> Option<int>
        decreases self.kicks(clockwise).len() - from,
    {
        if from < 0 || from >= self.kicks(clockwise).len() {
            None
        } else if self.kick_fits(g, clockwise, from) {
            Some(from)
        } else {
            self.first_fit(g, clockwise, from + 1)
        }
    }

    /// The piece after a turn: turned with the first candidate that fits,
    /// and in the new orientation; as it was where no candidate fits.
    pub open spec fn rotated(self, g: Grid, clockwise: bool) -> PieceView {
        match self.first_fit(g, clockwise, 0) {
            Some(j) => PieceView {
                kind: self.kind,
                rotation: turn_target(self.rotation, clockwise),
                cells: self.turned_cells(clockwise, self.kicks(clockwise)[j]),
            },
            None => self,
        }
    }

    /// The piece after a hard drop: every cell moved by the same number of
    /// rows, so that the lowest of them is on the landing row.
    pub open spec fn dropped(self, g: Grid) -> PieceView {
        self.at(shifted(self.cells, 0, landing_row(g, self.cells) - bottom(self.cells)))
    }
}

/// `first_fit` from the first candidate on is the least candidate that fits.
pub proof fn lemma_first_fit(piece: PieceView, g: Grid, clockwise: bool, from: int)
    requires
        0 <= from,
    ensures
        match piece.first_fit(g, clockwise, from) {
            Some(j) => {
                &&& from <= j < piece.kicks(clockwise).len()
                &&& piece.kick_fits(g, clockwise, j)
                &&& forall|i: int| from <= i < j ==> !piece.kick_fits(g, clockwise, i)
            },
            None => forall|i: int|
                from <= i < piece.kicks(clockwise).len() ==> !piece.kick_fits(g, clockwise, i),
        },
    decreases piece.kicks(clockwise).len() - from,
{
    if from < piece.kicks(clockwise).len() && !piece.kick_fits(g, clockwise, from) {
        lemma_first_fit(piece, g, clockwise, from + 1);
    }
}

/// The cells of a well-formed piece: four distinct cells that span at most
/// four columns and four rows.
pub proof fn lemma_piece_shape(piece: PieceView)
    requires
        piece.wf(),
    ensures
        piece.cells.len() == 4,
        forall|i: int, j: int| 0 <= i < j < 4 ==> piece.cells[i] != piece.cells[j],
        forall|i: int|
            0 <= i < 4 ==> {
                &&& 0 <= (#[trigger] piece.cells[i]).0 - left_edge(piece.cells) <= 3
                &&& 0 <= piece.cells[i].1 - bottom(piece.cells) <= 3
            },
{
    piece.kind.lemma_dots_shape();
    let a = piece.anchor();
    let p = placed(piece.kind, piece.rotation, a);
    assert(piece.cells[0] == p[0]);
    assert(piece.cells[1] == p[1]);
    assert(piece.cells[2] == p[2]);
    assert(piece.cells[3] == p[3]);
    let d = piece.kind.spec_to_dots();
    assert(0 <= d[0].0 <= 3 && 0 <= d[0].1 <= 1);
    assert(0 <= d[1].0 <= 3 && 0 <= d[1].1 <= 1);
    assert(0 <= d[2].0 <= 3 && 0 <= d[2].1 <= 1);
    assert(0 <= d[3].0 <= 3 && 0 <= d[3].1 <= 1);
    assert(d[0] != d[1] && d[0] != d[2] && d[0] != d[3] && d[1] != d[2] && d[1] != d[3] && d[2]
        != d[3]);
}

/// The rows travelled between two well-formed pieces are bounded.
pub proof fn lemma_travel_bound(from: PieceView, to: PieceView)
    requires
        from.wf(),
        to.wf(),
    ensures
        row_travel(from.cells, to.cells) <= 8 * COORD_LIMIT,
{
    assert(within_limit(from.cells[0]) && within_limit(from.cells[1]) && within_limit(
        from.cells[2],
    ) && within_limit(from.cells[3]));
    assert(within_limit(to.cells[0]) && within_limit(to.cells[1]) && within_limit(to.cells[2])
        && within_limit(to.cells[3]));
}

/// Locking fills exactly the cells of the piece that lie on the board, and
/// keeps the board's shape.
pub proof fn lemma_with_cells(g: Grid, cells: Seq<(int, int)>)
    requires
        grid_wf(g),
    ensures
        grid_wf(with_cells(g, cells)),
        forall|x: int, y: int|
            cell_filled(with_cells(g, cells), x, y) <==> cell_filled(g, x, y) || (in_bounds(x, y)
                && cells.contains((x, y))),
    decreases cells.len(),
{
    if cells.len() > 0 {
        let rest = cells.drop_last();
        let last = cells.last();
        lemma_with_cells(g, rest);
        assert forall|x: int, y: int|
            cell_filled(with_cells(g, cells), x, y) <==> cell_filled(g, x, y) || (in_bounds(x, y)
                && cells.contains((x, y))) by {
            if in_bounds(x, y) {
                if cells.contains((x, y)) {
                    let i = choose|i: int| 0 <= i < cells.len() && cells[i] == (x, y);
                    if i < rest.len() {
                        assert(rest[i] == (x, y));
                        assert(rest.contains((x, y)));
                    }
                }
                if rest.contains((x, y)) {
                    let i = choose|i: int| 0 <= i < rest.len() && rest[i] == (x, y);
                    assert(cells[i] == (x, y));
                }
                if last == (x, y) {
                    assert(cells[cells.len() - 1] == (x, y));
                }
            }
        }
    } else {
        assert forall|x: int, y: int| !cells.contains((x, y)) by {}
    }
}

/// After a hard drop the lowest cells of the piece are on the landing row,
/// and no cell of the piece is on a filled cell.
pub proof fn lemma_dropped(piece: PieceView, g: Grid)
    requires
        piece.wf(),
        grid_wf(g),
    ensures
        bottom(piece.dropped(g).cells) == landing_row(g, piece.cells),
        0 <= landing_row(g, piece.cells) <= BOARD_HEIGHT,
        forall|i: int|
            0 <= i < 4 ==> !cell_filled(
                g,
                (#[trigger] piece.dropped(g).cells[i]).0,
                piece.dropped(g).cells[i].1,
            ),
{
    let v = piece.cells;
    let d = piece.dropped(g).cells;
    let fall = landing_row(g, v) - bottom(v);
    lemma_piece_shape(piece);
    lemma_max_y_many_is_max(g, piece_columns(v));
    assert forall|i: int| 0 <= i < 4 implies !cell_filled(g, (#[trigger] d[i]).0, d[i].1) by {
        lemma_max_y_is_highest(g, v[i].0);
        assert(piece_columns(v)[i] == v[i].0);
        assert(d[i] == (v[i].0, v[i].1 + fall));
        assert(0 <= v[i].1 - bottom(v));
    }
    let e = choose|i: int|
        0 <= i < piece_columns(v).len() && max_y(g, #[trigger] piece_columns(v)[i]) == max_y_many(
            g,
            piece_columns(v),
        );
    lemma_max_y_is_highest(g, piece_columns(v)[e]);
    assert(d[0] == (v[0].0, v[0].1 + fall));
    assert(d[1] == (v[1].0, v[1].1 + fall));
    assert(d[2] == (v[2].0, v[2].1 + fall));
    assert(d[3] == (v[3].0, v[3].1 + fall));
}

/// The landing row is a row of the board or the row above its top, and it
/// is the floor if and only if there is no filled cell on the floor of the
/// piece's columns nor above it.
pub proof fn lemma_landing_row(g: Grid, cells: Seq<(int, int)>)
    requires
        grid_wf(g),
        cells.len() == 4,
    ensures
        0 <= landing_row(g, cells) <= BOARD_HEIGHT,
        landing_row(g, cells) == 0 <==> max_y_many(g, piece_columns(cells)) == 0 && !cell_filled(
            g,
            cells[0].0,
            0,
        ) && !cell_filled(g, cells[1].0, 0) && !cell_filled(g, cells[2].0, 0) && !cell_filled(
            g,
            cells[3].0,
            0,
        ),
{
    lemma_max_y_many_is_max(g, piece_columns(cells));
    if piece_columns(cells).len() > 0 {
        let e = choose|i: int|
            0 <= i < piece_columns(cells).len() && max_y(g, #[trigger] piece_columns(cells)[i])
                == max_y_many(g, piece_columns(cells));
        lemma_max_y_is_highest(g, piece_columns(cells)[e]);
    }
    if !cell_filled(g, cells[0].0, 0) && !cell_filled(g, cells[1].0, 0) && !cell_filled(
        g,
        cells[2].0,
        0,
    ) && !cell_filled(g, cells[3].0, 0) {
        assert forall|i: int| 0 <= i < cells.len() implies !cell_filled(
            g,
            (#[trigger] cells[i]).0,
            0,
        ) by {}
    }
}

/// The lowest row of a well-formed piece lies within `COORD_LIMIT`.
pub proof fn lemma_bottom_within(piece: PieceView)
    requires
        piece.wf(),
    ensures
        -COORD_LIMIT <= bottom(piece.cells) <= COORD_LIMIT,
        -COORD_LIMIT <= left_edge(piece.cells) <= COORD_LIMIT,
{
    assert(within_limit(piece.cells[0]) && within_limit(piece.cells[1]) && within_limit(
        piece.cells[2],
    ) && within_limit(piece.cells[3]));
}

/// A piece that is dropped keeps its shape.
pub proof fn lemma_dropped_wf(piece: PieceView, g: Grid)
    requires
        piece.wf(),
        grid_wf(g),
    ensures
        piece.dropped(g).wf(),
{
    lemma_dropped(piece, g);
    lemma_piece_shape(piece);
    let fall = landing_row(g, piece.cells) - bottom(piece.cells);
    let t = shifted(piece.cells, 0, fall);
    assert forall|i: int| 0 <= i < 4 implies within_limit(#[trigger] t[i]) by {
        assert(within_limit(piece.cells[i]));
        assert(0 <= piece.cells[i].1 - bottom(piece.cells) <= 3);
    }
    lemma_shifted_wf(piece, 0, fall);
}

/// Cells that all move by `fall` rows travel four times the size of `fall`.
pub proof fn lemma_travel(cells: Seq<(int, int)>, fall: int)
    requires
        cells.len() == 4,
    ensures
        row_travel(cells, shifted(cells, 0, fall)) == 4 * distance(fall, 0),
        distance(fall, 0) == distance(fall + bottom(cells), bottom(cells)),
{
}

/// A piece that is moved as a whole keeps its shape.
pub proof fn lemma_shifted_wf(piece: PieceView, dx: int, dy: int)
    requires
        piece.wf(),
        forall|i: int| 0 <= i < 4 ==> within_limit(#[trigger] shifted(piece.cells, dx, dy)[i]),
    ensures
        piece.at(shifted(piece.cells, dx, dy)).wf(),
        left_edge(shifted(piece.cells, dx, dy)) == left_edge(piece.cells) + dx,
        bottom(shifted(piece.cells, dx, dy)) == bottom(piece.cells) + dy,
{
    let moved = piece.at(shifted(piece.cells, dx, dy));
    let p = placed(piece.kind, piece.rotation, piece.anchor());
    assert(piece.cells[0] == p[0]);
    assert(piece.cells[1] == p[1]);
    assert(piece.cells[2] == p[2]);
    assert(piece.cells[3] == p[3]);
    assert(moved.cells =~= placed(moved.kind, moved.rotation, moved.anchor()));
}

/// A turn keeps the shape of the piece: the turned cells are those of the
/// piece's type in the new orientation.
pub proof fn lemma_turned_wf(piece: PieceView, clockwise: bool, kick: (int, int))
    requires
        piece.wf(),
        forall|i: int|
            0 <= i < 4 ==> within_limit(#[trigger] piece.turned_cells(clockwise, kick)[i]),
    ensures
        (PieceView {
            kind: piece.kind,
            rotation: turn_target(piece.rotation, clockwise),
            cells: piece.turned_cells(clockwise, kick),
        }).wf(),
{
    let after = PieceView {
        kind: piece.kind,
        rotation: turn_target(piece.rotation, clockwise),
        cells: piece.turned_cells(clockwise, kick),
    };
    let p = placed(piece.kind, piece.rotation, piece.anchor());
    assert(piece.cells[0] == p[0]);
    assert(piece.cells[1] == p[1]);
    assert(piece.cells[2] == p[2]);
    assert(piece.cells[3] == p[3]);
    piece.rotation.lemma_cyclic();
    assert(after.cells =~= placed(after.kind, after.rotation, after.anchor()));
}

impl View for ActivePiece {
    type V = PieceView;

    closed spec fn view(&self) -> PieceView {
        PieceView { kind: self.kind, rotation: self.rotation, cells: positions(self.cells@) }
    }
}

impl ActivePiece {
    /// Whether the piece is well formed. Every constructor gives such a
    /// piece and every method keeps it so.
    pub open spec fn wf(&self) -> bool {
        self@.wf()
    }

    /// A new piece of type `kind` at the spawn position.
    pub fn spawn(kind: FigureType) -> (piece: ActivePiece)
        ensures
            piece.wf(),
            piece@ == PieceView::spawned(kind),
    {
        let dots = kind.to_dots();
        proof {
            kind.lemma_dots_shape();
        }
        let cells = [
            GridPosition { x: dots[0].0 + START_X_POSITION, y: dots[0].1 + START_Y_POSITION },
            GridPosition { x: dots[1].0 + START_X_POSITION, y: dots[1].1 + START_Y_POSITION },
            GridPosition { x: dots[2].0 + START_X_POSITION, y: dots[2].1 + START_Y_POSITION },
            GridPosition { x: dots[3].0 + START_X_POSITION, y: dots[3].1 + START_Y_POSITION },
        ];
        let piece = ActivePiece { kind, rotation: Rotation::R0, cells };
        assert(piece@.cells =~= PieceView::spawned(kind).cells);
        assert(piece@.cells =~= placed(kind, Rotation::R0, piece@.anchor()));
        piece
    }

    /// The type of the piece.
    pub fn kind(&self) -> (r: FigureType)
        ensures
            r == self@.kind,
    {
        self.kind
    }

    /// The orientation of the piece.
    pub fn rotation(&self) -> (r: Rotation)
        ensures
            r == self@.rotation,
    {
        self.rotation
    }

    /// The four cells of the piece.
    pub fn cells(&self) -> (r: [GridPosition; 4])
        ensures
            positions(r@) == self@.cells,
    {
        self.cells
    }

    /// The piece of type `kind` in orientation `rotation` with its anchor at
    /// `(x, y)`: `None` where one of its cells would lie beyond
    /// `COORD_LIMIT`.
    pub fn place(kind: FigureType, rotation: Rotation, x: i32, y: i32) -> (r: Option<ActivePiece>)
        ensures
            r is Some <==> forall|i: int|
                0 <= i < 4 ==> within_limit(
                    #[trigger] placed(kind, rotation, (x as int, y as int))[i],
                ),
            r matches Some(piece) ==> piece.wf() && piece@ == (PieceView {
                kind,
                rotation,
                cells: placed(kind, rotation, (x as int, y as int)),
            }),
    {
        let dots = kind.to_dots();
        proof {
            kind.lemma_dots_shape();
        }
        let ghost target = placed(kind, rotation, (x as int, y as int));
        let mut cells = [GridPosition { x: 0, y: 0 };4];
        let mut i: usize = 0;
        while i < 4
            invariant
                i <= 4,
                dots@ == kind.spec_to_dots(),
                target == placed(kind, rotation, (x as int, y as int)),
                forall|k: int|
                    0 <= k < 4 ==> {
                        &&& 0 <= (#[trigger] kind.spec_to_dots()[k]).0 <= 3
                        &&& 0 <= kind.spec_to_dots()[k].1 <= 1
                    },
                forall|k: int| 0 <= k < i ==> (#[trigger] cells@[k])@ == target[k],
                forall|k: int| 0 <= k < i ==> within_limit(#[trigger] target[k]),
            decreases 4 - i,
        {
            let dot: (i32, i32) = dots[i];
            let rel: (i32, i32) = match rotation {
                Rotation::R0 => dot,
                Rotation::RR => rotate_right(dot.0, dot.1),
                Rotation::R2 => (-dot.0, -dot.1),
                Rotation::RL => rotate_left(dot.0, dot.1),
            };
            assert((rel.0 as int, rel.1 as int) == shape_cell(kind, rotation, i as int));
            let cx: i64 = x as i64 + rel.0 as i64;
            let cy: i64 = y as i64 + rel.1 as i64;
            if cx < -(COORD_LIMIT as i64) || cx > COORD_LIMIT as i64 || cy < -(COORD_LIMIT as i64)
                || cy > COORD_LIMIT as i64 {
                assert(!within_limit(target[i as int]));
                return None;
            }
            cells[i] = GridPosition { x: cx as i32, y: cy as i32 };
            i += 1;
        }
        let piece = ActivePiece { kind, rotation, cells };
        assert(piece@.cells =~= target);
        assert(piece@.cells =~= placed(kind, rotation, piece@.anchor()));
        Some(piece)
    }

    fn fits(board: &GameBoard, cells: &[GridPosition; 4]) -> (r: bool)
        requires
            board.wf(),
        ensures
            r == all_free(board@, positions(cells@)),
    {
        let ghost p = positions(cells@);
        let mut i: usize = 0;
        while i < 4
            invariant
                i <= 4,
                board.wf(),
                p == positions(cells@),
                forall|k: int| 0 <= k < i ==> cell_free(board@, (#[trigger] p[k]).0, p[k].1),
            decreases 4 - i,
        {
            if !board.check((cells[i].x, cells[i].y)) {
                assert(!cell_free(board@, p[i as int].0, p[i as int].1));
                return false;
            }
            i += 1;
        }
        true
    }

    fn shifted_by(&self, dx: i32, dy: i32) -> (r: [GridPosition; 4])
        requires
            self.wf(),
            -2 * COORD_LIMIT <= dx <= 2 * COORD_LIMIT,
            -2 * COORD_LIMIT <= dy <= 2 * COORD_LIMIT,
        ensures
            positions(r@) == shifted(self@.cells, dx as int, dy as int),
    {
        let c = &self.cells;
        proof {
            let v = self@.cells;
            assert(v[0] == c@[0]@ && v[1] == c@[1]@ && v[2] == c@[2]@ && v[3] == c@[3]@);
            assert(within_limit(v[0]) && within_limit(v[1]) && within_limit(v[2]) && within_limit(
                v[3],
            ));
        }
        let r = [
            GridPosition { x: c[0].x + dx, y: c[0].y + dy },
            GridPosition { x: c[1].x + dx, y: c[1].y + dy },
            GridPosition { x: c[2].x + dx, y: c[2].y + dy },
            GridPosition { x: c[3].x + dx, y: c[3].y + dy },
        ];
        assert(positions(r@) =~= shifted(self@.cells, dx as int, dy as int));
        r
    }

    fn try_shift(&mut self, board: &GameBoard, dx: i32, dy: i32) -> (moved: bool)
        requires
            old(self).wf(),
            board.wf(),
            -1 <= dx <= 1,
            -1 <= dy <= 1,
        ensures
            final(self).wf(),
            moved == all_free(board@, shifted(old(self)@.cells, dx as int, dy as int)),
            final(self)@ == old(self)@.moved(board@, dx as int, dy as int),
    {
        let target = self.shifted_by(dx, dy);
        if Self::fits(board, &target) {
            proof {
                let t = positions(target@);
                assert forall|i: int| 0 <= i < 4 implies within_limit(#[trigger] t[i]) by {
                    assert(cell_free(board@, t[i].0, t[i].1));
                }
                lemma_shifted_wf(self@, dx as int, dy as int);
            }
            self.cells = target;
            true
        } else {
            false
        }
    }

    /// Whether all four cells of the piece are free on `board`.
    pub fn is_free(&self, board: &GameBoard) -> (r: bool)
        requires
            board.wf(),
        ensures
            r == all_free(board@, self@.cells),
    {
        Self::fits(board, &self.cells)
    }

    /// Moves the piece one column to the right, or to the left, where all
    /// four cells are free there; leaves it where they are not. Returns
    /// whether the piece moved.
    pub fn move_horizontally(&mut self, board: &GameBoard, right: bool) -> (moved: bool)
        requires
            old(self).wf(),
            board.wf(),
        ensures
            final(self).wf(),
            moved == all_free(
                board@,
                shifted(
                    old(self)@.cells,
                    if right {
                        1
                    } else {
                        -1
                    },
                    0,
                ),
            ),
            final(self)@ == old(self)@.moved(
                board@,
                if right {
                    1
                } else {
                    -1
                },
                0,
            ),
    {
        let delta: i32 = if right {
            1
        } else {
            -1
        };
        self.try_shift(board, delta, 0)
    }

    /// Whether all four cells are free one row further down.
    pub fn can_descend(&self, board: &GameBoard) -> (r: bool)
        requires
            self.wf(),
            board.wf(),
        ensures
            r == self@.can_descend(board@),
    {
        let target = self.shifted_by(0, -1);
        Self::fits(board, &target)
    }

    /// Moves the piece one row down where all four cells are free there;
    /// leaves it where they are not. Returns whether the piece moved.
    pub fn descend(&mut self, board: &GameBoard) -> (moved: bool)
        requires
            old(self).wf(),
            board.wf(),
        ensures
            final(self).wf(),
            moved == old(self)@.can_descend(board@),
            final(self)@ == old(self)@.moved(board@, 0, -1),
    {
        self.try_shift(board, 0, -1)
    }

    /// The column of the left edge of the bounding box.
    pub fn left_edge(&self) -> (r: i32)
        ensures
            r == left_edge(self@.cells),
    {
        let c = &self.cells;
        proof {
            let v = self@.cells;
            assert(v[0] == c@[0]@ && v[1] == c@[1]@ && v[2] == c@[2]@ && v[3] == c@[3]@);
        }
        let mut r: i32 = c[0].x;
        if c[1].x < r {
            r = c[1].x;
        }
        if c[2].x < r {
            r = c[2].x;
        }
        if c[3].x < r {
            r = c[3].x;
        }
        r
    }

    /// The lowest row of the piece.
    pub fn bottom(&self) -> (r: i32)
        ensures
            r == bottom(self@.cells),
    {
        let c = &self.cells;
        proof {
            let v = self@.cells;
            assert(v[0] == c@[0]@ && v[1] == c@[1]@ && v[2] == c@[2]@ && v[3] == c@[3]@);
        }
        let mut r: i32 = c[0].y;
        if c[1].y < r {
            r = c[1].y;
        }
        if c[2].y < r {
            r = c[2].y;
        }
        if c[3].y < r {
            r = c[3].y;
        }
        r
    }

    fn turned_by(&self, clockwise: bool, pivot: (i32, i32), kick: (i32, i32)) -> (r: [GridPosition;
        4])
        requires
            self.wf(),
            (pivot.0 as int, pivot.1 as int) == self@.pivot(),
            -4 <= kick.0 <= 4,
            -4 <= kick.1 <= 4,
        ensures
            positions(r@) == self@.turned_cells(
                clockwise,
                (kick.0 as int, kick.1 as int),
            ),
    {
        let ghost k = (kick.0 as int, kick.1 as int);
        let ghost target = self@.turned_cells(clockwise, k);
        proof {
            lemma_piece_shape(self@);
            self.kind.lemma_dots_shape();
        }
        let mut r = [GridPosition { x: 0, y: 0 };4];
        let mut i: usize = 0;
        while i < 4
            invariant
                i <= 4,
                self.wf(),
                (pivot.0 as int, pivot.1 as int) == self@.pivot(),
                -4 <= kick.0 <= 4,
                -4 <= kick.1 <= 4,
                k == (kick.0 as int, kick.1 as int),
                target == self@.turned_cells(clockwise, k),
                -COORD_LIMIT <= pivot.0 <= COORD_LIMIT + 2,
                -COORD_LIMIT <= pivot.1 <= COORD_LIMIT + 2,
                forall|j: int| 0 <= j < i ==> (#[trigger] r@[j])@ == target[j],
            decreases 4 - i,
        {
            let tile = self.cells[i];
            assert(tile@ == self@.cells[i as int]);
            assert(within_limit(self@.cells[i as int]));
            let (new_x, new_y) = if clockwise {
                rotate_right(tile.x - pivot.0, tile.y - pivot.1)
            } else {
                rotate_left(tile.x - pivot.0, tile.y - pivot.1)
            };
            r[i] = GridPosition { x: new_x + pivot.0 + kick.0, y: new_y + pivot.1 + kick.1 };
            i += 1;
        }
        assert(positions(r@) =~= target);
        r
    }

    /// Turns the piece a quarter, clockwise or counter-clockwise. The
    /// wall-kick candidates of the turn are tried in order, and the first
    /// that leads to four free cells is taken: each cell goes where the turn
    /// takes it, and the orientation changes. Where no candidate fits the
    /// piece stays as it is. Returns whether the piece turned.
    pub fn rotate(&mut self, board: &GameBoard, clockwise: bool) -> (turned: bool)
        requires
            old(self).wf(),
            board.wf(),
        ensures
            final(self).wf(),
            final(self)@ == old(self)@.rotated(board@, clockwise),
            turned == (old(self)@.first_fit(board@, clockwise, 0) is Some),
            turned <==> final(self)@ != old(self)@,
    {
        let next = if clockwise {
            self.rotation.right()
        } else {
            self.rotation.left()
        };
        let center = self.kind.center_point(&self.rotation);
        let x_offset = self.left_edge();
        let y_offset = self.bottom();
        proof {
            lemma_piece_shape(self@);
            assert(within_limit(self@.cells[0]));
            self.rotation.lemma_cyclic();
        }
        let pivot: (i32, i32) = (x_offset + center.0, y_offset + center.1);
        let tests = self.kind.tests_for_rot(&self.rotation, &next);
        let ghost before = self@;
        proof {
            self.kind.lemma_tests_shape(self.rotation);
            self.kind.lemma_tests_shape(next);
            assert forall|i: int| 0 <= i < tests@.len() implies -4 <= (#[trigger] tests@[i]).0 <= 4
                && -4 <= tests@[i].1 <= 4 by {
                let from = self.kind.spec_tests_for_single_rot(self.rotation)[i];
                let to = self.kind.spec_tests_for_single_rot(next)[i];
                assert((tests@[i].0 as int, tests@[i].1 as int) == before.kicks(clockwise)[i]);
                assert(-2 <= from.0 <= 2 && -2 <= from.1 <= 2);
                assert(-2 <= to.0 <= 2 && -2 <= to.1 <= 2);
            }
        }
        let mut j: usize = 0;
        while j < tests.len()
            invariant
                j <= tests@.len(),
                self.wf(),
                board.wf(),
                self@ == before,
                before == old(self)@,
                next == turn_target(before.rotation, clockwise),
                next != before.rotation,
                (pivot.0 as int, pivot.1 as int) == before.pivot(),
                tests@.len() == before.kicks(clockwise).len(),
                forall|i: int|
                    0 <= i < tests@.len() ==> (tests@[i].0 as int, tests@[i].1 as int)
                        == #[trigger] before.kicks(clockwise)[i],
                forall|i: int|
                    0 <= i < tests@.len() ==> -4 <= (#[trigger] tests@[i]).0 <= 4 && -4
                        <= tests@[i].1 <= 4,
                before.first_fit(board@, clockwise, 0) == before.first_fit(
                    board@,
                    clockwise,
                    j as int,
                ),
            decreases tests@.len() - j,
        {
            let kick: (i32, i32) = tests[j];
            assert((kick.0 as int, kick.1 as int) == before.kicks(clockwise)[j as int]);
            let target = self.turned_by(clockwise, pivot, kick);
            if Self::fits(board, &target) {
                proof {
                    let t = positions(target@);
                    assert forall|i: int| 0 <= i < 4 implies within_limit(#[trigger] t[i]) by {
                        assert(cell_free(board@, t[i].0, t[i].1));
                    }
                    lemma_turned_wf(before, clockwise, before.kicks(clockwise)[j as int]);
                }
                self.cells = target;
                self.rotation = next;
                return true;
            }
            j += 1;
        }
        false
    }

    /// The row on which the lowest cells of the piece come to rest in a hard
    /// drop: the floor where the piece's columns hold nothing, otherwise the
    /// row above the highest filled cell of those columns.
    pub fn landing_row(&self, board: &GameBoard) -> (row: i32)
        requires
            board.wf(),
        ensures
            row == landing_row(board@, self@.cells),
            0 <= row <= BOARD_HEIGHT,
    {
        let c = &self.cells;
        let ghost v = self@.cells;
        proof {
            assert(v[0] == c@[0]@ && v[1] == c@[1]@ && v[2] == c@[2]@ && v[3] == c@[3]@);
            lemma_landing_row(board@, v);
        }
        let xs: Vec<i32> = vec![c[0].x, c[1].x, c[2].x, c[3].x];
        assert(columns(xs@) =~= piece_columns(v));
        let surface: usize = board.get_max_y_many(&xs);
        let clear: bool = surface == 0 && !board.is_filled(c[0].x, 0) && !board.is_filled(
            c[1].x,
            0,
        ) && !board.is_filled(c[2].x, 0) && !board.is_filled(c[3].x, 0);
        if clear {
            0
        } else {
            surface as i32 + 1
        }
    }

    /// Drops the piece onto the highest filled cell of its columns, or onto
    /// the floor where those columns hold nothing: every cell moves by the
    /// same number of rows, and the lowest cells come to rest on the landing
    /// row. Returns the rows travelled, summed over the four cells.
    pub fn hard_drop(&mut self, board: &GameBoard) -> (travel: usize)
        requires
            old(self).wf(),
            board.wf(),
        ensures
            final(self).wf(),
            final(self)@ == old(self)@.dropped(board@),
            travel == row_travel(old(self)@.cells, final(self)@.cells),
            travel == 4 * distance(landing_row(board@, old(self)@.cells), bottom(old(self)@.cells)),
    {
        let landing: i32 = self.landing_row(board);
        let low: i32 = self.bottom();
        proof {
            lemma_bottom_within(self@);
            lemma_dropped_wf(self@, board@);
        }
        let fall: i32 = landing - low;
        let target = self.shifted_by(0, fall);
        proof {
            lemma_travel(self@.cells, fall as int);
        }
        self.cells = target;
        let step: usize = if fall >= 0 {
            fall as usize
        } else {
            (-fall) as usize
        };
        4 * step
    }

    /// Fills on `board` the cells of the piece, those that lie on the board.
    pub fn lock_into(&self, board: &mut GameBoard)
        requires
            old(board).wf(),
        ensures
            final(board).wf(),
            final(board)@ == with_cells(old(board)@, self@.cells),
    {
        let ghost v = self@.cells;
        let ghost before = board@;
        let mut i: usize = 0;
        assert(v.take(0) =~= Seq::<(int, int)>::empty());
        while i < 4
            invariant
                i <= 4,
                board.wf(),
                v == self@.cells,
                v.len() == 4,
                board@ == with_cells(before, v.take(i as int)),
            decreases 4 - i,
        {
            let cell = self.cells[i];
            assert(cell@ == v[i as int]);
            board.occupy((cell.x, cell.y));
            assert(v.take(i + 1).drop_last() =~= v.take(i as int));
            assert(v.take(i + 1).last() == v[i as int]);
            i += 1;
        }
        assert(v.take(4) =~= v);
    }

    /// Whether one of the four cells is at `pos`.
    pub fn occupies(&self, pos: GridPosition) -> (r: bool)
        ensures
            r == self@.cells.contains(pos@),
    {
        let r = self.cells[0] == pos || self.cells[1] == pos || self.cells[2] == pos
            || self.cells[3] == pos;
        proof {
            let c = self@.cells;
            assert(c[0] == self.cells@[0]@ && c[1] == self.cells@[1]@ && c[2] == self.cells@[2]@
                && c[3] == self.cells@[3]@);
            if r {
                assert(c[0] == pos@ || c[1] == pos@ || c[2] == pos@ || c[3] == pos@);
            }
        }
        r
    }
}

} // verus!
