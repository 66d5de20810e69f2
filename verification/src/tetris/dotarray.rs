//! A sparse square array: the entries that are set, each with its row and
//! column, and quarter turns of the whole array.

use vstd::prelude::*;

verus! {

/// A sparse array. Each entry of `dots` is a row, a column and the value
/// there.
#[derive(Debug, PartialEq, Eq)]
pub struct DotArray<T> {
    pub dots: Vec<(usize, usize, T)>,
    dimensions: (usize, usize),
    max: usize,
}

/// The larger of two numbers.
pub open spec fn larger(a: usize, b: usize) -> usize {
    if a >= b {
        a
    } else {
        b
    }
}

/// The entries of row `y` that are set, from the first column on.
pub open spec fn row_dots<T>(row: Seq<Option<T>>, y: usize) -> Seq<(usize, usize, T)>
    decreases row.len(),
{
    if row.len() == 0 {
        Seq::empty()
    } else {
        match row.last() {
            Some(value) => row_dots(row.drop_last(), y).push(((y, (row.len() - 1) as usize, value))),
            None => row_dots(row.drop_last(), y),
        }
    }
}

/// The entries of `rows` that are set, row by row from the first row on.
pub open spec fn grid_dots<T>(rows: Seq<Seq<Option<T>>>) -> Seq<(usize, usize, T)>
    decreases rows.len(),
{
    if rows.len() == 0 {
        Seq::empty()
    } else {
        grid_dots(rows.drop_last()) + row_dots(rows.last(), (rows.len() - 1) as usize)
    }
}

/// The rows of a nested vector, each as a sequence.
pub open spec fn rows_of<T>(value: Seq<Vec<Option<T>>>) -> Seq<Seq<Option<T>>> {
    Seq::new(value.len(), |y: int| value[y]@)
}

/// Where a quarter turn to the left takes the entry `dot` of an array whose
/// last index is `max`: the column becomes the row, counted from the other
/// end, and the row becomes the column.
pub open spec fn dot_turned_left<T>(dot: (usize, usize, T), max: usize) -> (usize, usize, T) {
    ((max - dot.1) as usize, dot.0, dot.2)
}

/// Where a quarter turn to the right takes the entry `dot` of an array whose
/// last index is `max`: the column becomes the row, and the row becomes the
/// column, counted from the other end.
pub open spec fn dot_turned_right<T>(dot: (usize, usize, T), max: usize) -> (usize, usize, T) {
    (dot.1, (max - dot.0) as usize, dot.2)
}

/// The entries of every row have a row index below the number of rows, and a
/// column index below the length of their row.
pub proof fn lemma_grid_dots_bounds<T>(rows: Seq<Seq<Option<T>>>)
    requires
        rows.len() <= usize::MAX,
        forall|y: int| 0 <= y < rows.len() ==> (#[trigger] rows[y]).len() <= usize::MAX,
    ensures
        forall|i: int|
            0 <= i < grid_dots(rows).len() ==> {
                &&& (#[trigger] grid_dots(rows)[i]).0 < rows.len()
                &&& grid_dots(rows)[i].1 < rows[grid_dots(rows)[i].0 as int].len()
            },
    decreases rows.len(),
{
    if rows.len() > 0 {
        lemma_grid_dots_bounds(rows.drop_last());
        lemma_row_dots_bounds(rows.last(), (rows.len() - 1) as usize);
        assert forall|i: int| 0 <= i < grid_dots(rows).len() implies {
            &&& (#[trigger] grid_dots(rows)[i]).0 < rows.len()
            &&& grid_dots(rows)[i].1 < rows[grid_dots(rows)[i].0 as int].len()
        } by {
            let head = grid_dots(rows.drop_last());
            if i < head.len() {
                assert(grid_dots(rows)[i] == head[i]);
                assert(rows.drop_last()[head[i].0 as int] == rows[head[i].0 as int]);
            } else {
                assert(grid_dots(rows)[i] == row_dots(rows.last(), (rows.len() - 1) as usize)[i
                    - head.len()]);
            }
        }
    }
}

proof fn lemma_row_dots_bounds<T>(row: Seq<Option<T>>, y: usize)
    requires
        row.len() <= usize::MAX,
    ensures
        forall|i: int|
            0 <= i < row_dots(row, y).len() ==> (#[trigger] row_dots(row, y)[i]).0 == y && row_dots(
                row,
                y,
            )[i].1 < row.len(),
    decreases row.len(),
{
    if row.len() > 0 {
        lemma_row_dots_bounds(row.drop_last(), y);
        let head = row_dots(row.drop_last(), y);
        assert forall|i: int| 0 <= i < row_dots(row, y).len() implies (#[trigger] row_dots(
            row,
            y,
        )[i]).0 == y && row_dots(row, y)[i].1 < row.len() by {
            if i < head.len() {
                assert(row_dots(row, y)[i] == head[i]);
            }
        }
    }
}

impl<T> DotArray<T> {
    /// The last row index and the last column index of the array.
    pub closed spec fn dimensions(&self) -> (usize, usize) {
        self.dimensions
    }

    /// The larger of the two last indices: the last index of the square
    /// that the array turns in.
    pub closed spec fn max(&self) -> usize {
        self.max
    }

    /// The entries of the array, in the order of `dots`.
    pub closed spec fn entries(&self) -> Seq<(usize, usize, T)> {
        self.dots@
    }

    /// Whether every entry lies within the square that the array turns in.
    pub open spec fn wf(&self) -> bool {
        forall|i: int|
            0 <= i < self.entries().len() ==> (#[trigger] self.entries()[i]).0 <= self.max()
                && self.entries()[i].1 <= self.max()
    }

    /// The array of the entries of `value` that are set. `value` has at
    /// least one row, and its first row at least one column; the first row
    /// gives the width of the array.
    pub fn from(value: Vec<Vec<Option<T>>>) -> (array: DotArray<T>)
        requires
            value@.len() > 0,
            value@[0]@.len() > 0,
        ensures
            array.entries() == grid_dots(rows_of(value@)),
            array.dimensions() == ((value@.len() - 1) as usize, (value@[0]@.len() - 1) as usize),
            array.max() == larger(array.dimensions().0, array.dimensions().1),
            (forall|y: int| 0 <= y < value@.len() ==> (#[trigger] value@[y])@.len() <= value@[0]@.len())
                ==> array.wf(),
    {
        let max_y: usize = value.len() - 1;
        let max_x: usize = value[0].len() - 1;
        let ghost rows = rows_of(value@);
        let mut dots: Vec<(usize, usize, T)> = Vec::new();
        let mut y: usize = 0;
        assert(rows.take(0) =~= Seq::<Seq<Option<T>>>::empty());
        for row in outer: value
            invariant
                y == outer.index(),
                outer.seq() == value@,
                rows == rows_of(value@),
                value@.len() <= usize::MAX,
                dots@ == grid_dots(rows.take(y as int)),
        {
            assert(y < value@.len());
            assert(row@.len() == row.len());
            let ghost line = row@;
            let ghost head = dots@;
            let mut x: usize = 0;
            assert(line.take(0) =~= Seq::<Option<T>>::empty());
            assert(line == rows[y as int]);
            for cell in inner: row
                invariant
                    x == inner.index(),
                    inner.seq() == line,
                    line.len() <= usize::MAX,
                    dots@ == head + row_dots(line.take(x as int), y),
            {
                assert(x < line.len());
                assert(line.take(x + 1).drop_last() =~= line.take(x as int));
                assert(line.take(x + 1).last() == line[x as int]);
                if let Some(inner_value) = cell {
                    dots.push((y, x, inner_value));
                }
                assert(dots@ =~= head + row_dots(line.take(x + 1), y));
                x += 1;
            }
            assert(line.take(line.len() as int) =~= line);
            assert(rows.take(y + 1).drop_last() =~= rows.take(y as int));
            assert(rows.take(y + 1).last() == line);
            y += 1;
        }
        assert(rows.take(rows.len() as int) =~= rows);
        let max: usize = if max_y >= max_x {
            max_y
        } else {
            max_x
        };
        proof {
            assert forall|k: int| 0 <= k < rows.len() implies (#[trigger] rows[k]).len()
                <= usize::MAX by {
                assert(rows[k].len() == value@[k].len());
            }
            lemma_grid_dots_bounds(rows);
        }
        DotArray { dots, dimensions: (max_y, max_x), max }
    }

    /// The entries of the array.
    pub fn dots(&self) -> (r: &Vec<(usize, usize, T)>)
        ensures
            r@ == self.entries(),
    {
        &self.dots
    }

    /// The last row index and the last column index of the array.
    pub fn size(&self) -> (r: (usize, usize))
        ensures
            r == self.dimensions(),
    {
        self.dimensions
    }

    /// Turns the array a quarter to the left within its square: rows and
    /// columns change places, and each entry goes where the turn takes it.
    pub fn rotate_left(&mut self)
        requires
            old(self).wf(),
        ensures
            final(self).wf(),
            final(self).max() == old(self).max(),
            final(self).dimensions() == (old(self).dimensions().1, old(self).dimensions().0),
            final(self).entries().len() == old(self).entries().len(),
            forall|i: int|
                0 <= i < old(self).entries().len() ==> #[trigger] final(self).entries()[i]
                    == dot_turned_left(old(self).entries()[i], old(self).max()),
    {
        let max = self.max;
        self.dimensions = (self.dimensions.1, self.dimensions.0);
        let mut i: usize = 0;
        while i < self.dots.len()
            invariant
                i <= self.dots@.len(),
                max == old(self).max(),
                self.max == max,
                self.dimensions == (old(self).dimensions().1, old(self).dimensions().0),
                self.dots@.len() == old(self).dots@.len(),
                forall|k: int|
                    0 <= k < i ==> #[trigger] self.dots@[k] == dot_turned_left(
                        old(self).dots@[k],
                        max,
                    ),
                forall|k: int| i <= k < self.dots@.len() ==> self.dots@[k] == old(self).dots@[k],
                forall|k: int|
                    0 <= k < self.dots@.len() ==> (#[trigger] old(self).dots@[k]).0 <= max && old(
                        self,
                    ).dots@[k].1 <= max,
            decreases self.dots@.len() - i,
        {
            let y: usize = self.dots[i].0;
            let x: usize = self.dots[i].1;
            assert(old(self).dots@[i as int].1 <= max);
            self.dots[i].0 = max - x;
            self.dots[i].1 = y;
            i += 1;
        }
    }

    /// Turns the array a quarter to the right within its square: rows and
    /// columns change places, and each entry goes where the turn takes it.
    pub fn rotate_right(&mut self)
        requires
            old(self).wf(),
        ensures
            final(self).wf(),
            final(self).max() == old(self).max(),
            final(self).dimensions() == (old(self).dimensions().1, old(self).dimensions().0),
            final(self).entries().len() == old(self).entries().len(),
            forall|i: int|
                0 <= i < old(self).entries().len() ==> #[trigger] final(self).entries()[i]
                    == dot_turned_right(old(self).entries()[i], old(self).max()),
    {
        let max = self.max;
        self.dimensions = (self.dimensions.1, self.dimensions.0);
        let mut i: usize = 0;
        while i < self.dots.len()
            invariant
                i <= self.dots@.len(),
                max == old(self).max(),
                self.max == max,
                self.dimensions == (old(self).dimensions().1, old(self).dimensions().0),
                self.dots@.len() == old(self).dots@.len(),
                forall|k: int|
                    0 <= k < i ==> #[trigger] self.dots@[k] == dot_turned_right(
                        old(self).dots@[k],
                        max,
                    ),
                forall|k: int| i <= k < self.dots@.len() ==> self.dots@[k] == old(self).dots@[k],
                forall|k: int|
                    0 <= k < self.dots@.len() ==> (#[trigger] old(self).dots@[k]).0 <= max && old(
                        self,
                    ).dots@[k].1 <= max,
            decreases self.dots@.len() - i,
        {
            let y: usize = self.dots[i].0;
            let x: usize = self.dots[i].1;
            assert(old(self).dots@[i as int].0 <= max);
            self.dots[i].0 = x;
            self.dots[i].1 = max - y;
            i += 1;
        }
    }
}

/// A quarter turn to the right undoes a quarter turn to the left, and the
/// other way round; four quarter turns one way give the entry back.
pub proof fn lemma_dot_turns<T>(dot: (usize, usize, T), max: usize)
    requires
        dot.0 <= max,
        dot.1 <= max,
    ensures
        dot_turned_right(dot_turned_left(dot, max), max) == dot,
        dot_turned_left(dot_turned_right(dot, max), max) == dot,
        dot_turned_left(dot_turned_left(dot_turned_left(dot_turned_left(dot, max), max), max), max)
            == dot,
        dot_turned_right(
            dot_turned_right(dot_turned_right(dot_turned_right(dot, max), max), max),
            max,
        ) == dot,
{
}

} // verus!
