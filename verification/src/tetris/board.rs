//! The board: a grid of occupancy bits with bounds-checked queries and
//! line clearing.

use super::consts::{BOARD_HEIGHT, BOARD_WIDTH};
use vstd::prelude::*;

verus! {

/// The occupancy grid. Row 0 is the floor; a bit is true where a cell is
/// filled.
#[derive(Debug, Clone)]
pub struct GameBoard {
    rows: Vec<Vec<bool>>,
}

/// A grid as the board's contracts see it: rows from the floor upward, each a
/// sequence of occupancy bits.
pub type Grid = Seq<Seq<bool>>;

/// Whether `(x, y)` names a cell of the board.
pub open spec fn in_bounds(x: int, y: int) -> bool {
    0 <= x < BOARD_WIDTH && 0 <= y < BOARD_HEIGHT
}

/// Whether `g` has the board's height and width.
pub open spec fn grid_wf(g: Grid) -> bool {
    &&& g.len() == BOARD_HEIGHT
    &&& forall|y: int| 0 <= y < BOARD_HEIGHT ==> (#[trigger] g[y]).len() == BOARD_WIDTH
}

/// A row with no cell filled.
pub open spec fn empty_row() -> Seq<bool> {
    Seq::new(BOARD_WIDTH as nat, |x: int| false)
}

/// The grid with no cell filled.
pub open spec fn empty_grid() -> Grid {
    Seq::new(BOARD_HEIGHT as nat, |y: int| empty_row())
}

/// Whether `(x, y)` is a filled cell of `g`. Nothing outside the board is
/// filled.
pub open spec fn cell_filled(g: Grid, x: int, y: int) -> bool {
    in_bounds(x, y) && g[y][x]
}

/// Whether a piece may be at `(x, y)`: the cell is on the board and not
/// filled. The walls, the floor and the top edge are all blocked.
pub open spec fn cell_free(g: Grid, x: int, y: int) -> bool {
    in_bounds(x, y) && !g[y][x]
}

/// `g` with `(x, y)` filled; `g` itself where `(x, y)` is off the board.
pub open spec fn with_cell(g: Grid, x: int, y: int) -> Grid {
    if in_bounds(x, y) {
        g.update(y, g[y].update(x, true))
    } else {
        g
    }
}

/// The highest filled row of column `x` among the lowest `rows` rows of `g`,
/// or 0 where none of them is filled.
pub open spec fn column_top(g: Grid, x: int, rows: nat) -> nat
    decreases rows,
{
    if rows == 0 {
        0
    } else if g[rows - 1][x] {
        (rows - 1) as nat
    } else {
        column_top(g, x, (rows - 1) as nat)
    }
}

/// The highest filled row of column `x`; 0 where the column is empty or `x`
/// is off the board.
pub open spec fn max_y(g: Grid, x: int) -> nat {
    if 0 <= x < BOARD_WIDTH {
        column_top(g, x, BOARD_HEIGHT as nat)
    } else {
        0
    }
}

/// The largest `max_y` over the columns `xs`; 0 for no column.
pub open spec fn max_y_many(g: Grid, xs: Seq<int>) -> nat
    decreases xs.len(),
{
    if xs.len() == 0 {
        0
    } else {
        let rest = max_y_many(g, xs.drop_last());
        let top = max_y(g, xs.last());
        if top > rest {
            top
        } else {
            rest
        }
    }
}

/// Whether every cell of `row` is filled.
pub open spec fn row_full(row: Seq<bool>) -> bool {
    forall|x: int| 0 <= x < row.len() ==> row[x]
}

/// The test by which line clearing keeps a row: it is not full.
pub open spec fn row_stays() -> spec_fn(Seq<bool>) -> bool {
    |row: Seq<bool>| !row_full(row)
}

/// The number of full rows of `g`.
pub open spec fn full_rows(g: Grid) -> nat {
    (g.len() - g.filter(row_stays()).len()) as nat
}

/// `g` after line clearing: the rows that are not full, in their order, and
/// above them one empty row for each full row that left.
pub open spec fn cleared_grid(g: Grid) -> Grid {
    g.filter(row_stays()) + Seq::new(full_rows(g), |y: int| empty_row())
}

/// The columns `xs` as mathematical integers.
pub open spec fn columns(xs: Seq<i32>) -> Seq<int> {
    Seq::new(xs.len(), |i: int| xs[i] as int)
}

/// `max_y` is the highest filled row of its column: it is a row of the
/// board, it is filled unless it is 0, and no higher row of the column is
/// filled.
pub proof fn lemma_max_y_is_highest(g: Grid, x: int)
    requires
        grid_wf(g),
    ensures
        max_y(g, x) < BOARD_HEIGHT,
        max_y(g, x) > 0 ==> cell_filled(g, x, max_y(g, x) as int),
        forall|y: int| cell_filled(g, x, y) ==> y <= max_y(g, x),
{
    if 0 <= x < BOARD_WIDTH {
        lemma_column_top(g, x, BOARD_HEIGHT as nat);
    }
}

proof fn lemma_column_top(g: Grid, x: int, rows: nat)
    requires
        rows <= g.len(),
    ensures
        rows > 0 ==> column_top(g, x, rows) < rows,
        rows == 0 ==> column_top(g, x, rows) == 0,
        column_top(g, x, rows) > 0 ==> g[column_top(g, x, rows) as int][x],
        forall|y: int| 0 <= y < rows && g[y][x] ==> y <= column_top(g, x, rows),
    decreases rows,
{
    if rows > 0 && !g[rows - 1][x] {
        lemma_column_top(g, x, (rows - 1) as nat);
    }
}

/// `max_y_many` is the largest `max_y` of its columns: no column is higher,
/// and, unless there is no column, one of them reaches it.
pub proof fn lemma_max_y_many_is_max(g: Grid, xs: Seq<int>)
    ensures
        forall|i: int| 0 <= i < xs.len() ==> max_y(g, #[trigger] xs[i]) <= max_y_many(g, xs),
        xs.len() > 0 ==> exists|i: int|
            0 <= i < xs.len() && max_y(g, #[trigger] xs[i]) == max_y_many(g, xs),
        xs.len() == 0 ==> max_y_many(g, xs) == 0,
    decreases xs.len(),
{
    if xs.len() > 0 {
        let rest = xs.drop_last();
        lemma_max_y_many_is_max(g, rest);
        assert forall|i: int| 0 <= i < xs.len() implies max_y(g, #[trigger] xs[i]) <= max_y_many(
            g,
            xs,
        ) by {
            if i < rest.len() {
                assert(rest[i] == xs[i]);
            }
        }
        if max_y(g, xs.last()) > max_y_many(g, rest) || rest.len() == 0 {
            assert(max_y(g, xs[xs.len() - 1]) == max_y_many(g, xs));
        } else {
            let i = choose|i: int|
                0 <= i < rest.len() && max_y(g, #[trigger] rest[i]) == max_y_many(g, rest);
            assert(rest[i] == xs[i]);
            assert(max_y(g, xs[i]) == max_y_many(g, xs));
        }
    }
}

/// Line clearing keeps the board's shape and leaves no full row.
pub proof fn lemma_cleared_grid_wf(g: Grid)
    requires
        grid_wf(g),
    ensures
        grid_wf(cleared_grid(g)),
        full_rows(g) <= BOARD_HEIGHT,
        full_rows(cleared_grid(g)) == 0,
{
    let kept = g.filter(row_stays());
    g.lemma_filter_len(row_stays());
    let c = cleared_grid(g);
    assert(c.len() == BOARD_HEIGHT);
    assert forall|y: int| 0 <= y < c.len() implies (#[trigger] c[y]).len() == BOARD_WIDTH
        && row_stays()(c[y]) by {
        if y < kept.len() {
            g.lemma_filter_pred(row_stays(), y);
            g.lemma_filter_contains_rev(row_stays(), kept[y]);
            assert(kept.contains(kept[y]));
            assert(g.contains(kept[y]));
        } else {
            assert(c[y] == empty_row());
            assert(!empty_row()[0]);
        }
    }
    lemma_filter_all(c, row_stays());
}

/// A sequence whose every entry passes `pred` is its own filter.
proof fn lemma_filter_all<A>(s: Seq<A>, pred: spec_fn(A) -> bool)
    requires
        forall|i: int| 0 <= i < s.len() ==> pred(#[trigger] s[i]),
    ensures
        s.filter(pred) == s,
    decreases s.len(),
{
    reveal(Seq::filter);
    if s.len() > 0 {
        lemma_filter_all(s.drop_last(), pred);
        assert(s.drop_last().push(s.last()) =~= s);
    }
}

impl View for GameBoard {
    type V = Grid;

    closed spec fn view(&self) -> Grid {
        Seq::new(self.rows@.len(), |y: int| self.rows@[y]@)
    }
}

impl GameBoard {
    /// Whether the board has its height and width. Every constructor gives
    /// such a board and every method keeps it so.
    pub open spec fn wf(&self) -> bool {
        grid_wf(self@)
    }

    /// The empty board.
    pub fn new() -> (board: GameBoard)
        ensures
            board.wf(),
            board@ == empty_grid(),
    {
        let mut rows: Vec<Vec<bool>> = Vec::new();
        while rows.len() < BOARD_HEIGHT
            invariant
                rows@.len() <= BOARD_HEIGHT,
                forall|y: int| 0 <= y < rows@.len() ==> (#[trigger] rows@[y])@ == empty_row(),
            decreases BOARD_HEIGHT - rows@.len(),
        {
            rows.push(Self::blank_row());
        }
        let board = GameBoard { rows };
        assert(board@ =~= empty_grid());
        board
    }

    fn blank_row() -> (row: Vec<bool>)
        ensures
            row@ == empty_row(),
    {
        let mut row: Vec<bool> = Vec::new();
        while row.len() < BOARD_WIDTH
            invariant
                row@.len() <= BOARD_WIDTH,
                forall|x: int| 0 <= x < row@.len() ==> !row@[x],
            decreases BOARD_WIDTH - row@.len(),
        {
            row.push(false);
        }
        assert(row@ =~= empty_row());
        row
    }

    fn copy_row(row: &Vec<bool>) -> (copy: Vec<bool>)
        ensures
            copy@ == row@,
    {
        let mut copy: Vec<bool> = Vec::new();
        let mut x: usize = 0;
        while x < row.len()
            invariant
                x <= row@.len(),
                copy@ == row@.take(x as int),
            decreases row@.len() - x,
        {
            copy.push(row[x]);
            assert(row@.take(x + 1) =~= row@.take(x as int).push(row@[x as int]));
            x += 1;
        }
        assert(row@.take(row@.len() as int) =~= row@);
        copy
    }

    fn row_is_full(row: &Vec<bool>) -> (full: bool)
        ensures
            full == row_full(row@),
    {
        let mut x: usize = 0;
        while x < row.len()
            invariant
                x <= row@.len(),
                forall|k: int| 0 <= k < x ==> row@[k],
            decreases row@.len() - x,
        {
            if !row[x] {
                return false;
            }
            x += 1;
        }
        true
    }

    /// Empties the board.
    pub fn reset(&mut self)
        ensures
            final(self).wf(),
            final(self)@ == empty_grid(),
    {
        let fresh = GameBoard::new();
        self.rows = fresh.rows;
    }

    /// Whether the cell at `(x, y)` is filled. Nothing off the board is.
    pub fn is_filled(&self, x: i32, y: i32) -> (filled: bool)
        requires
            self.wf(),
        ensures
            filled == cell_filled(self@, x as int, y as int),
    {
        if y < 0 || y as usize >= BOARD_HEIGHT {
            return false;
        }
        if x < 0 || x as usize >= BOARD_WIDTH {
            return false;
        }
        assert(self@[y as int] == self.rows@[y as int]@);
        self.rows[y as usize][x as usize]
    }

    /// Whether a piece may be at `pos`, given as `(x, y)`: true where the
    /// cell is on the board and not filled. A position beyond a wall, below
    /// the floor or at or above the top edge is blocked, whatever the board
    /// holds.
    pub fn check(&self, pos: (i32, i32)) -> (free: bool)
        requires
            self.wf(),
        ensures
            free == cell_free(self@, pos.0 as int, pos.1 as int),
            pos.0 < 0 || pos.0 >= BOARD_WIDTH || pos.1 < 0 || pos.1 >= BOARD_HEIGHT ==> !free,
    {
        if pos.1 < 0 || pos.1 as usize >= BOARD_HEIGHT {
            return false;
        }
        if pos.0 < 0 || pos.0 as usize >= BOARD_WIDTH {
            return false;
        }
        assert(self@[pos.1 as int] == self.rows@[pos.1 as int]@);
        !self.rows[pos.1 as usize][pos.0 as usize]
    }

    /// Fills the cell at `pos`, given as `(x, y)`. Does nothing where `pos`
    /// is off the board.
    pub fn occupy(&mut self, pos: (i32, i32))
        requires
            old(self).wf(),
        ensures
            final(self).wf(),
            final(self)@ == with_cell(old(self)@, pos.0 as int, pos.1 as int),
    {
        if pos.1 < 0 || pos.1 as usize >= BOARD_HEIGHT {
            return ;
        }
        if pos.0 < 0 || pos.0 as usize >= BOARD_WIDTH {
            return ;
        }
        let ghost before = self@;
        let y: usize = pos.1 as usize;
        let x: usize = pos.0 as usize;
        assert(before[y as int] == self.rows@[y as int]@);
        let mut row = Self::copy_row(&self.rows[y]);
        row.set(x, true);
        self.rows.set(y, row);
        assert(self@ =~= with_cell(before, pos.0 as int, pos.1 as int));
    }

    /// The highest filled row of column `x`: 0 where the column is empty or
    /// `x` is off the board.
    pub fn get_max_y(&self, x: i32) -> (top: usize)
        requires
            self.wf(),
        ensures
            top == max_y(self@, x as int),
    {
        if x < 0 || x as usize >= BOARD_WIDTH {
            return 0;
        }
        let mut y: usize = BOARD_HEIGHT;
        while y > 0
            invariant
                self.wf(),
                0 <= x < BOARD_WIDTH,
                y <= BOARD_HEIGHT,
                column_top(self@, x as int, y as nat) == max_y(self@, x as int),
            decreases y,
        {
            assert(self@[y - 1] == self.rows@[y - 1]@);
            if self.rows[y - 1][x as usize] {
                return y - 1;
            }
            y -= 1;
        }
        0
    }

    /// The largest `get_max_y` over the columns `xs`: the surface that a
    /// piece in those columns lands on.
    pub fn get_max_y_many(&self, xs: &Vec<i32>) -> (top: usize)
        requires
            self.wf(),
        ensures
            top == max_y_many(self@, columns(xs@)),
    {
        let mut top: usize = 0;
        let mut i: usize = 0;
        while i < xs.len()
            invariant
                self.wf(),
                i <= xs@.len(),
                top == max_y_many(self@, columns(xs@).take(i as int)),
            decreases xs@.len() - i,
        {
            let here = self.get_max_y(xs[i]);
            proof {
                let next = columns(xs@).take(i + 1);
                assert(next.drop_last() =~= columns(xs@).take(i as int));
                assert(next.last() == xs@[i as int] as int);
            }
            if here > top {
                top = here;
            }
            i += 1;
        }
        assert(columns(xs@).take(xs@.len() as int) =~= columns(xs@));
        top
    }

    /// Removes every full row, lets the rows above sink, and puts one empty
    /// row at the top for each row removed. Returns the number of rows
    /// removed.
    pub fn clear_lines(&mut self) -> (cleared: usize)
        requires
            old(self).wf(),
        ensures
            final(self).wf(),
            final(self)@ == cleared_grid(old(self)@),
            cleared == full_rows(old(self)@),
    {
        let ghost before = self@;
        let mut kept: Vec<Vec<bool>> = Vec::new();
        let mut y: usize = 0;
        proof {
            reveal(Seq::filter);
            assert(before.take(0).filter(row_stays()) =~= Seq::<Seq<bool>>::empty());
        }
        while y < BOARD_HEIGHT
            invariant
                self.wf(),
                self@ == before,
                y <= BOARD_HEIGHT,
                kept@.len() <= y,
                kept@.len() == before.take(y as int).filter(row_stays()).len(),
                forall|k: int|
                    0 <= k < kept@.len() ==> (#[trigger] kept@[k])@ == before.take(
                        y as int,
                    ).filter(row_stays())[k],
            decreases BOARD_HEIGHT - y,
        {
            assert(before[y as int] == self.rows@[y as int]@);
            let full = Self::row_is_full(&self.rows[y]);
            proof {
                before.take(y as int).lemma_filter_push(before[y as int], row_stays());
                assert(before.take(y + 1) =~= before.take(y as int).push(before[y as int]));
            }
            if !full {
                kept.push(Self::copy_row(&self.rows[y]));
            }
            y += 1;
        }
        assert(before.take(BOARD_HEIGHT as int) =~= before);
        let cleared: usize = BOARD_HEIGHT - kept.len();
        while kept.len() < BOARD_HEIGHT
            invariant
                kept@.len() <= BOARD_HEIGHT,
                kept@.len() >= BOARD_HEIGHT - cleared,
                cleared == full_rows(before),
                before.len() == BOARD_HEIGHT,
                forall|k: int|
                    0 <= k < BOARD_HEIGHT - cleared ==> (#[trigger] kept@[k])@ == before.filter(
                        row_stays(),
                    )[k],
                forall|k: int|
                    BOARD_HEIGHT - cleared <= k < kept@.len() ==> (#[trigger] kept@[k])@
                        == empty_row(),
            decreases BOARD_HEIGHT - kept@.len(),
        {
            kept.push(Self::blank_row());
        }
        self.rows = kept;
        assert(self@ =~= cleared_grid(before));
        proof {
            lemma_cleared_grid_wf(before);
        }
        cleared
    }
}

} // verus!
