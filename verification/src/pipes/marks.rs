//! A set of cells of a square grid, kept as one mark for each cell, with the
//! number of marks that are set.

use vstd::prelude::*;

verus! {

/// A set of cells of a square grid.
#[derive(Debug, Clone)]
pub struct Marks {
    rows: Vec<Vec<bool>>,
    count: u64,
}

/// The number of marks that are set in `row`.
pub open spec fn row_count(row: Seq<bool>) -> nat
    decreases row.len(),
{
    if row.len() == 0 {
        0
    } else if row.last() {
        row_count(row.drop_last()) + 1
    } else {
        row_count(row.drop_last())
    }
}

/// The number of marks that are set in `marks`.
pub open spec fn mark_count(marks: Seq<Seq<bool>>) -> nat
    decreases marks.len(),
{
    if marks.len() == 0 {
        0
    } else {
        mark_count(marks.drop_last()) + row_count(marks.last())
    }
}

/// The cells that are marked in `marks`, each as `(x, y)`.
pub open spec fn marked_cells(marks: Seq<Seq<bool>>) -> Set<(int, int)> {
    Set::new(
        |c: (int, int)| 0 <= c.1 < marks.len() && 0 <= c.0 < marks[c.1].len() && marks[c.1][c.0],
    )
}

/// Whether `c`, given as `(x, y)`, is a cell of the square grid of side
/// `size`.
pub open spec fn in_square(size: int, c: (int, int)) -> bool {
    0 <= c.0 < size && 0 <= c.1 < size
}

/// Whether the cell `c` is on the stack `stack` of cells still to be
/// looked at.
pub open spec fn on_stack(stack: Seq<(usize, usize)>, c: (int, int)) -> bool {
    exists|i: int| 0 <= i < stack.len() && (stack[i].0 as int, stack[i].1 as int) == c
}

proof fn lemma_row_count(row: Seq<bool>)
    ensures
        row_count(row) <= row.len(),
        row_count(row) == row.len() <==> forall|x: int| 0 <= x < row.len() ==> row[x],
        row_count(row) == 0 <==> forall|x: int| 0 <= x < row.len() ==> !row[x],
    decreases row.len(),
{
    if row.len() > 0 {
        let rest = row.drop_last();
        lemma_row_count(rest);
        if row_count(row) == row.len() {
            assert forall|x: int| 0 <= x < row.len() implies row[x] by {
                if x < rest.len() {
                    assert(rest[x]);
                }
            }
        }
        if forall|x: int| 0 <= x < row.len() ==> row[x] {
            assert forall|x: int| 0 <= x < rest.len() implies rest[x] by {
                assert(row[x]);
            }
        }
        if row_count(row) == 0 {
            assert forall|x: int| 0 <= x < row.len() implies !row[x] by {
                if x < rest.len() {
                    assert(!rest[x]);
                }
            }
        }
        if forall|x: int| 0 <= x < row.len() ==> !row[x] {
            assert forall|x: int| 0 <= x < rest.len() implies !rest[x] by {
                assert(!row[x]);
            }
        }
    }
}

proof fn lemma_row_count_set(row: Seq<bool>, x: int)
    requires
        0 <= x < row.len(),
        !row[x],
    ensures
        row_count(row.update(x, true)) == row_count(row) + 1,
    decreases row.len(),
{
    let after = row.update(x, true);
    if x == row.len() - 1 {
        assert(after.drop_last() =~= row.drop_last());
    } else {
        assert(after.drop_last() =~= row.drop_last().update(x, true));
        lemma_row_count_set(row.drop_last(), x);
    }
}

proof fn lemma_mark_count_set(marks: Seq<Seq<bool>>, y: int, row: Seq<bool>)
    requires
        0 <= y < marks.len(),
    ensures
        mark_count(marks.update(y, row)) == mark_count(marks) - row_count(marks[y]) + row_count(
            row,
        ),
    decreases marks.len(),
{
    let after = marks.update(y, row);
    if y == marks.len() - 1 {
        assert(after.drop_last() =~= marks.drop_last());
    } else {
        assert(after.drop_last() =~= marks.drop_last().update(y, row));
        lemma_mark_count_set(marks.drop_last(), y, row);
    }
}

proof fn lemma_mark_count(marks: Seq<Seq<bool>>, width: nat)
    requires
        forall|y: int| 0 <= y < marks.len() ==> (#[trigger] marks[y]).len() == width,
    ensures
        mark_count(marks) <= marks.len() * width,
        mark_count(marks) == marks.len() * width <==> forall|y: int, x: int|
            0 <= y < marks.len() && 0 <= x < width ==> #[trigger] marks[y][x],
        mark_count(marks) == 0 <==> forall|y: int, x: int|
            0 <= y < marks.len() && 0 <= x < width ==> !#[trigger] marks[y][x],
    decreases marks.len(),
{
    if marks.len() > 0 {
        let rest = marks.drop_last();
        lemma_mark_count(rest, width);
        lemma_row_count(marks.last());
        assert(marks.len() * width == rest.len() * width + width) by (nonlinear_arith)
            requires
                marks.len() == rest.len() + 1,
        ;
        let full = forall|y: int, x: int|
            0 <= y < marks.len() && 0 <= x < width ==> #[trigger] marks[y][x];
        let rest_full = forall|y: int, x: int|
            0 <= y < rest.len() && 0 <= x < width ==> #[trigger] rest[y][x];
        let blank = forall|y: int, x: int|
            0 <= y < marks.len() && 0 <= x < width ==> !#[trigger] marks[y][x];
        let rest_blank = forall|y: int, x: int|
            0 <= y < rest.len() && 0 <= x < width ==> !#[trigger] rest[y][x];
        if full {
            assert forall|y: int, x: int|
                0 <= y < rest.len() && 0 <= x < width implies #[trigger] rest[y][x] by {
                assert(marks[y][x]);
            }
            assert forall|x: int| 0 <= x < marks.last().len() implies marks.last()[x] by {
                assert(marks[marks.len() - 1][x]);
            }
        }
        if rest_full && (forall|x: int| 0 <= x < marks.last().len() ==> marks.last()[x]) {
            assert forall|y: int, x: int|
                0 <= y < marks.len() && 0 <= x < width implies #[trigger] marks[y][x] by {
                if y < rest.len() {
                    assert(rest[y][x]);
                }
            }
        }
        if blank {
            assert forall|y: int, x: int|
                0 <= y < rest.len() && 0 <= x < width implies !#[trigger] rest[y][x] by {
                assert(!marks[y][x]);
            }
            assert forall|x: int| 0 <= x < marks.last().len() implies !marks.last()[x] by {
                assert(!marks[marks.len() - 1][x]);
            }
        }
        if rest_blank && (forall|x: int| 0 <= x < marks.last().len() ==> !marks.last()[x]) {
            assert forall|y: int, x: int|
                0 <= y < marks.len() && 0 <= x < width implies !#[trigger] marks[y][x] by {
                if y < rest.len() {
                    assert(!rest[y][x]);
                }
            }
        }
    } else {
        assert(marks.len() * width == 0) by (nonlinear_arith)
            requires
                marks.len() == 0,
        ;
    }
}

impl View for Marks {
    type V = Set<(int, int)>;

    closed spec fn view(&self) -> Set<(int, int)> {
        marked_cells(self.bits())
    }
}

impl Marks {
    /// The marks, row by row.
    pub closed spec fn bits(&self) -> Seq<Seq<bool>> {
        Seq::new(self.rows@.len(), |y: int| self.rows@[y]@)
    }

    /// The side of the grid.
    pub closed spec fn size(&self) -> nat {
        self.rows@.len()
    }

    /// The number of cells in the set.
    pub closed spec fn total(&self) -> nat {
        self.count as nat
    }

    /// Whether the marks form a square whose side fits an `i32`, and the
    /// number kept with them is the number of marks that are set.
    pub closed spec fn wf(&self) -> bool {
        &&& self.rows@.len() <= i32::MAX
        &&& forall|y: int|
            0 <= y < self.rows@.len() ==> (#[trigger] self.rows@[y])@.len() == self.rows@.len()
        &&& self.count == mark_count(self.bits())
    }

    /// The empty set of cells of a grid of side `n`.
    pub fn new(n: usize) -> (marks: Marks)
        requires
            n <= i32::MAX,
        ensures
            marks.wf(),
            marks.size() == n,
            marks.total() == 0,
            marks@ == Set::<(int, int)>::empty(),
    {
        let mut rows: Vec<Vec<bool>> = Vec::new();
        while rows.len() < n
            invariant
                rows@.len() <= n,
                forall|y: int| 0 <= y < rows@.len() ==> (#[trigger] rows@[y])@.len() == n,
                forall|y: int, x: int|
                    0 <= y < rows@.len() && 0 <= x < n ==> !(#[trigger] rows@[y]@[x]),
            decreases n - rows@.len(),
        {
            let mut row: Vec<bool> = Vec::new();
            while row.len() < n
                invariant
                    row@.len() <= n,
                    forall|x: int| 0 <= x < row@.len() ==> !row@[x],
                decreases n - row@.len(),
            {
                row.push(false);
            }
            rows.push(row);
        }
        let marks = Marks { rows, count: 0 };
        proof {
            let bits = marks.bits();
            assert forall|y: int| 0 <= y < bits.len() implies (#[trigger] bits[y]).len() == n by {
                assert(bits[y] == marks.rows@[y]@);
            }
            assert forall|y: int, x: int| 0 <= y < n && 0 <= x < n implies !#[trigger] bits[y][x] by {
                assert(!marks.rows@[y]@[x]);
            }
            lemma_mark_count(bits, n as nat);
            assert(marks@ =~= Set::<(int, int)>::empty());
        }
        marks
    }

    /// Whether the cell at column `x` of row `y` is in the set. No cell off
    /// the grid is.
    pub fn contains(&self, x: usize, y: usize) -> (r: bool)
        requires
            self.wf(),
        ensures
            r == self@.contains((x as int, y as int)),
            r ==> in_square(self.size() as int, (x as int, y as int)),
    {
        if y >= self.rows.len() {
            return false;
        }
        if x >= self.rows[y].len() {
            return false;
        }
        assert(self.bits()[y as int] == self.rows@[y as int]@);
        self.rows[y][x]
    }

    /// Puts the cell at column `x` of row `y` into the set, which does not
    /// hold it yet.
    pub fn insert(&mut self, x: usize, y: usize)
        requires
            old(self).wf(),
            x < old(self).size(),
            y < old(self).size(),
            !old(self)@.contains((x as int, y as int)),
        ensures
            final(self).wf(),
            final(self).size() == old(self).size(),
            final(self)@ == old(self)@.insert((x as int, y as int)),
            final(self).total() == old(self).total() + 1,
            final(self).total() <= old(self).size() * old(self).size(),
    {
        let ghost before = self.bits();
        let ghost n = self.size();
        proof {
            assert forall|k: int| 0 <= k < before.len() implies (#[trigger] before[k]).len() == n by {
                assert(before[k] == self.rows@[k]@);
            }
            lemma_mark_count(before, n);
            lemma_row_count_set(before[y as int], x as int);
            lemma_mark_count_set(before, y as int, before[y as int].update(x as int, true));
            assert(n * n <= 0x3fff_ffff_0000_0001) by (nonlinear_arith)
                requires
                    0 <= n <= 0x7fff_ffff,
            ;
        }
        self.rows[y][x] = true;
        proof {
            let after = self.bits();
            assert(after =~= before.update(y as int, before[y as int].update(x as int, true))) by {
                assert forall|k: int| 0 <= k < after.len() implies #[trigger] after[k]
                    =~= before.update(y as int, before[y as int].update(x as int, true))[k] by {
                    assert(after[k] == self.rows@[k]@);
                    assert(before[k] == old(self).rows@[k]@);
                }
            }
            assert forall|k: int| 0 <= k < after.len() implies (#[trigger] after[k]).len() == n by {}
            lemma_mark_count(after, n);
            assert(self@ =~= old(self)@.insert((x as int, y as int)));
        }
        self.count = self.count + 1;
    }

    /// The number of cells in the set.
    pub fn len(&self) -> (n: u64)
        ensures
            n == self.total(),
    {
        self.count
    }

    /// Whether every cell of the grid is in the set.
    pub fn is_full(&self) -> (r: bool)
        requires
            self.wf(),
        ensures
            r == (forall|c: (int, int)| in_square(self.size() as int, c) ==> self@.contains(c)),
    {
        let n: u64 = self.rows.len() as u64;
        proof {
            let bits = self.bits();
            assert forall|y: int| 0 <= y < bits.len() implies (#[trigger] bits[y]).len()
                == bits.len() by {
                assert(bits[y] == self.rows@[y]@);
            }
            lemma_mark_count(bits, bits.len());
            assert(n * n <= 0x3fff_ffff_0000_0001) by (nonlinear_arith)
                requires
                    0 <= n <= 0x7fff_ffff,
            ;
            if mark_count(bits) == n * n {
                assert forall|c: (int, int)| in_square(n as int, c) implies self@.contains(c) by {
                    assert(bits[c.1][c.0]);
                }
            }
            if forall|c: (int, int)| in_square(n as int, c) ==> self@.contains(c) {
                assert forall|y: int, x: int|
                    0 <= y < bits.len() && 0 <= x < bits.len() implies #[trigger] bits[y][x] by {
                    assert(in_square(n as int, (x, y)));
                    assert(self@.contains((x, y)));
                }
            }
        }
        self.count == n * n
    }

    /// The set holds cells of the grid only, and no more cells than the
    /// grid has; it holds as many as the grid has if and only if it holds
    /// them all.
    pub proof fn lemma_bounds(&self)
        requires
            self.wf(),
        ensures
            self.total() <= self.size() * self.size(),
            self.size() <= i32::MAX,
            forall|c: (int, int)| self@.contains(c) ==> in_square(self.size() as int, c),
            self.total() == self.size() * self.size() <==> forall|c: (int, int)|
                in_square(self.size() as int, c) ==> self@.contains(c),
    {
        let bits = self.bits();
        assert forall|y: int| 0 <= y < bits.len() implies (#[trigger] bits[y]).len()
            == bits.len() by {
            assert(bits[y] == self.rows@[y]@);
        }
        lemma_mark_count(bits, bits.len());
        if mark_count(bits) == bits.len() * bits.len() {
            assert forall|c: (int, int)| in_square(bits.len() as int, c) implies self@.contains(
                c,
            ) by {
                assert(bits[c.1][c.0]);
            }
        }
        if forall|c: (int, int)| in_square(bits.len() as int, c) ==> self@.contains(c) {
            assert forall|y: int, x: int|
                0 <= y < bits.len() && 0 <= x < bits.len() implies #[trigger] bits[y][x] by {
                assert(in_square(bits.len() as int, (x, y)));
                assert(self@.contains((x, y)));
            }
        }
    }
}

} // verus!
