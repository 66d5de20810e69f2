//! Mazes: cells with their passages, and the options that a maze is
//! generated with.

use super::direction::{
    count,
    in_order,
    lemma_in_order_grows,
    repeated,
    strictly_ordered,
    Direction,
};
use super::marks::{in_square, on_stack, Marks};
use super::wrapper::{spec_wrap_val, wrap_val};
use rand::seq::SliceRandom;
use rand::Rng;
use vstd::prelude::*;

verus! {

/// A cell of a maze: the directions in which passages leave it.
#[derive(Clone, Debug)]
pub struct MazeCell {
    pub connections: Vec<Direction>,
}

/// A maze: a grid of cells, row by row, and whether passages wrap around
/// the edges.
#[derive(Clone, Debug)]
pub struct Maze {
    pub grid: Vec<Vec<MazeCell>>,
    pub wrap: bool,
}

/// The line-drawing character for a cell with the passages `passages`.
pub open spec fn spec_glyph(passages: Seq<Direction>) -> char {
    if passages == seq![Direction::Up] {
        '╵'
    } else if passages == seq![Direction::Down] {
        '╷'
    } else if passages == seq![Direction::Left] {
        '╴'
    } else if passages == seq![Direction::Right] {
        '╶'
    } else if passages == seq![Direction::Up, Direction::Down] {
        '│'
    } else if passages == seq![Direction::Left, Direction::Right] {
        '─'
    } else if passages == seq![Direction::Up, Direction::Right] {
        '└'
    } else if passages == seq![Direction::Up, Direction::Left] {
        '┘'
    } else if passages == seq![Direction::Down, Direction::Right] {
        '┌'
    } else if passages == seq![Direction::Down, Direction::Left] {
        '┐'
    } else if passages == seq![Direction::Up, Direction::Down, Direction::Left] {
        '┤'
    } else if passages == seq![Direction::Up, Direction::Down, Direction::Right] {
        '├'
    } else if passages == seq![Direction::Up, Direction::Left, Direction::Right] {
        '┴'
    } else if passages == seq![Direction::Down, Direction::Left, Direction::Right] {
        '┬'
    } else if passages == seq![Direction::Up, Direction::Down, Direction::Left, Direction::Right] {
        '┼'
    } else {
        'x'
    }
}

impl Default for MazeCell {
    fn default() -> (cell: MazeCell)
        ensures
            cell.connections@ == Seq::<Direction>::empty(),
    {
        MazeCell { connections: Vec::new() }
    }
}

impl MazeCell {
    fn count_of(&self, direction: Direction) -> (n: usize)
        ensures
            n == count(self.connections@, direction),
    {
        let ghost all = self.connections@;
        let mut n: usize = 0;
        let mut i: usize = 0;
        assert(all.take(0) =~= Seq::<Direction>::empty());
        while i < self.connections.len()
            invariant
                i <= all.len(),
                all == self.connections@,
                n <= i,
                n == count(all.take(i as int), direction),
            decreases all.len() - i,
        {
            assert(all.take(i + 1).drop_last() =~= all.take(i as int));
            assert(all.take(i + 1).last() == all[i as int]);
            if self.connections[i] == direction {
                n += 1;
            }
            i += 1;
        }
        assert(all.take(all.len() as int) =~= all);
        n
    }

    fn append_repeated(list: &mut Vec<Direction>, direction: Direction, n: usize)
        ensures
            final(list)@ == old(list)@ + repeated(direction, n as nat),
    {
        let ghost before = list@;
        let mut i: usize = 0;
        assert(before + repeated(direction, 0) =~= before);
        while i < n
            invariant
                i <= n,
                list@ == before + repeated(direction, i as nat),
            decreases n - i,
        {
            list.push(direction);
            assert(before + repeated(direction, (i + 1) as nat) =~= (before + repeated(
                direction,
                i as nat,
            )).push(direction));
            i += 1;
        }
    }

    fn list<const N: usize>(directions: &[Direction; N]) -> (r: Vec<Direction>)
        ensures
            r@ == directions@,
    {
        let mut r: Vec<Direction> = Vec::new();
        let mut i: usize = 0;
        while i < N
            invariant
                i <= N,
                directions@.len() == N,
                r@ == directions@.take(i as int),
            decreases N - i,
        {
            r.push(directions[i]);
            assert(directions@.take(i + 1) =~= directions@.take(i as int).push(
                directions@[i as int],
            ));
            i += 1;
        }
        assert(directions@.take(N as int) =~= directions@);
        r
    }

    fn shows(&self, passages: Vec<Direction>) -> (r: bool)
        ensures
            r == (self.connections@ == passages@),
    {
        if self.connections.len() != passages.len() {
            return false;
        }
        let mut i: usize = 0;
        while i < passages.len()
            invariant
                i <= passages@.len(),
                self.connections@.len() == passages@.len(),
                forall|k: int| 0 <= k < i ==> self.connections@[k] == passages@[k],
            decreases passages@.len() - i,
        {
            if self.connections[i] != passages[i] {
                return false;
            }
            i += 1;
        }
        assert(self.connections@ =~= passages@);
        true
    }

    /// The line-drawing character that shows the passages of the cell: a
    /// stroke toward each cell that a passage leads to. A cell whose
    /// passages are not in order, or none, shows as `x`.
    pub fn glyph(&self) -> (c: char)
        ensures
            c == spec_glyph(self.connections@),
    {
        let up = [Direction::Up];
        assert(up@ =~= seq![Direction::Up]);
        let down = [Direction::Down];
        assert(down@ =~= seq![Direction::Down]);
        let left = [Direction::Left];
        assert(left@ =~= seq![Direction::Left]);
        let right = [Direction::Right];
        assert(right@ =~= seq![Direction::Right]);
        let up_down = [Direction::Up, Direction::Down];
        assert(up_down@ =~= seq![Direction::Up, Direction::Down]);
        let left_right = [Direction::Left, Direction::Right];
        assert(left_right@ =~= seq![Direction::Left, Direction::Right]);
        let up_right = [Direction::Up, Direction::Right];
        assert(up_right@ =~= seq![Direction::Up, Direction::Right]);
        let up_left = [Direction::Up, Direction::Left];
        assert(up_left@ =~= seq![Direction::Up, Direction::Left]);
        let down_right = [Direction::Down, Direction::Right];
        assert(down_right@ =~= seq![Direction::Down, Direction::Right]);
        let down_left = [Direction::Down, Direction::Left];
        assert(down_left@ =~= seq![Direction::Down, Direction::Left]);
        let up_down_left = [Direction::Up, Direction::Down, Direction::Left];
        assert(up_down_left@ =~= seq![Direction::Up, Direction::Down, Direction::Left]);
        let up_down_right = [Direction::Up, Direction::Down, Direction::Right];
        assert(up_down_right@ =~= seq![Direction::Up, Direction::Down, Direction::Right]);
        let up_left_right = [Direction::Up, Direction::Left, Direction::Right];
        assert(up_left_right@ =~= seq![Direction::Up, Direction::Left, Direction::Right]);
        let down_left_right = [Direction::Down, Direction::Left, Direction::Right];
        assert(down_left_right@ =~= seq![Direction::Down, Direction::Left, Direction::Right]);
        let up_down_left_right = [Direction::Up, Direction::Down, Direction::Left, Direction::Right];
        assert(up_down_left_right@ =~= seq![Direction::Up, Direction::Down, Direction::Left, Direction::Right]);
        if self.shows(Self::list(&up)) {
            '╵'
        } else if self.shows(Self::list(&down)) {
            '╷'
        } else if self.shows(Self::list(&left)) {
            '╴'
        } else if self.shows(Self::list(&right)) {
            '╶'
        } else if self.shows(Self::list(&up_down)) {
            '│'
        } else if self.shows(Self::list(&left_right)) {
            '─'
        } else if self.shows(Self::list(&up_right)) {
            '└'
        } else if self.shows(Self::list(&up_left)) {
            '┘'
        } else if self.shows(Self::list(&down_right)) {
            '┌'
        } else if self.shows(Self::list(&down_left)) {
            '┐'
        } else if self.shows(Self::list(&up_down_left)) {
            '┤'
        } else if self.shows(Self::list(&up_down_right)) {
            '├'
        } else if self.shows(Self::list(&up_left_right)) {
            '┴'
        } else if self.shows(Self::list(&down_left_right)) {
            '┬'
        } else if self.shows(Self::list(&up_down_left_right)) {
            '┼'
        } else {
            'x'
        }
    }

    /// Adds a passage in the direction `direction` and puts the passages in
    /// order: every `Up`, then every `Down`, every `Left`, every `Right`.
    pub fn add_connection(&mut self, direction: Direction)
        ensures
            final(self).connections@ == in_order(old(self).connections@.push(direction)),
    {
        self.connections.push(direction);
        let ups = self.count_of(Direction::Up);
        let downs = self.count_of(Direction::Down);
        let lefts = self.count_of(Direction::Left);
        let rights = self.count_of(Direction::Right);
        let mut ordered: Vec<Direction> = Vec::new();
        Self::append_repeated(&mut ordered, Direction::Up, ups);
        Self::append_repeated(&mut ordered, Direction::Down, downs);
        Self::append_repeated(&mut ordered, Direction::Left, lefts);
        Self::append_repeated(&mut ordered, Direction::Right, rights);
        assert(ordered@ =~= in_order(old(self).connections@.push(direction)));
        self.connections = ordered;
    }
}

/// The passages of a maze as the contracts see them: for each row, for each
/// cell of the row, the directions in which passages leave the cell.
pub type Passages = Seq<Seq<Seq<Direction>>>;

/// The cell that the direction `d` leads to from `c` on a grid of side
/// `size`: where the grid wraps, a step over an edge leads to the opposite
/// edge.
pub open spec fn step(size: int, wrap: bool, c: (int, int), d: Direction) -> (int, int) {
    (
        spec_wrap_val(wrap, c.0 + d.spec_offset().0, 0, size - 1),
        spec_wrap_val(wrap, c.1 + d.spec_offset().1, 0, size - 1),
    )
}

/// The number of passages that leave the cells of `row`.
pub open spec fn row_total(row: Seq<Seq<Direction>>) -> nat
    decreases row.len(),
{
    if row.len() == 0 {
        0
    } else {
        row_total(row.drop_last()) + row.last().len()
    }
}

/// The number of passages that leave the cells of `passages`. A passage
/// between two cells counts twice, once for each end.
pub open spec fn passage_total(passages: Passages) -> nat
    decreases passages.len(),
{
    if passages.len() == 0 {
        0
    } else {
        passage_total(passages.drop_last()) + row_total(passages.last())
    }
}

/// A maze as the contracts see it.
pub struct MazeView {
    pub passages: Passages,
    /// Whether passages wrap around the edges.
    pub wrap: bool,
}

impl MazeView {
    /// The side of the maze.
    pub open spec fn size(self) -> int {
        self.passages.len() as int
    }

    /// Whether every row is as long as the maze has rows.
    pub open spec fn shaped(self) -> bool {
        forall|y: int|
            0 <= y < self.passages.len() ==> (#[trigger] self.passages[y]).len()
                == self.passages.len()
    }

    /// The directions in which passages leave the cell `c`, given as
    /// `(x, y)`.
    pub open spec fn at(self, c: (int, int)) -> Seq<Direction> {
        self.passages[c.1][c.0]
    }

    /// Whether a passage leaves the cell `c` in the direction `d`.
    pub open spec fn has(self, c: (int, int), d: Direction) -> bool {
        in_square(self.size(), c) && self.at(c).contains(d)
    }

    /// Whether the passages of every cell are in order, none twice.
    pub open spec fn tidy(self) -> bool {
        forall|c: (int, int)| in_square(self.size(), c) ==> strictly_ordered(#[trigger] self.at(c))
    }

    /// Whether every passage has two ends: where a passage leaves a cell,
    /// the step in its direction leads to a cell of the maze, and a passage
    /// leaves that cell in the opposite direction.
    pub open spec fn well_joined(self) -> bool {
        forall|c: (int, int), d: Direction| #[trigger]
            self.has(c, d) ==> in_square(self.size(), step(self.size(), self.wrap, c, d))
                && self.at(step(self.size(), self.wrap, c, d)).contains(d.spec_opposite())
    }

    /// Whether a passage leads from `a` to `b`.
    pub open spec fn leads(self, a: (int, int), b: (int, int)) -> bool {
        exists|d: Direction| self.has(a, d) && step(self.size(), self.wrap, a, d) == b
    }

    /// Whether `walk` goes from `from` along passages, cell by cell.
    pub open spec fn is_walk(self, walk: Seq<(int, int)>, from: (int, int)) -> bool {
        &&& walk.len() > 0
        &&& walk[0] == from
        &&& forall|i: int| 0 <= i < walk.len() - 1 ==> self.leads(#[trigger] walk[i], walk[i + 1])
    }

    /// Whether passages lead from `from` to `to`.
    pub open spec fn linked(self, from: (int, int), to: (int, int)) -> bool {
        exists|walk: Seq<(int, int)>| self.is_walk(walk, from) && walk.last() == to
    }

    /// Whether passages lead from one cell to every cell of the maze.
    pub open spec fn spanning(self) -> bool {
        exists|start: (int, int)|
            in_square(self.size(), start) && forall|c: (int, int)|
                in_square(self.size(), c) ==> #[trigger] self.linked(start, c)
    }

    /// Whether the maze is perfect: a square in which passages lead from
    /// every cell to every other along exactly one way. The passages are
    /// well formed and reach every cell, and there are as few of them as can
    /// reach every cell: one less than there are cells.
    pub open spec fn perfect(self) -> bool {
        &&& self.shaped()
        &&& self.tidy()
        &&& self.well_joined()
        &&& self.spanning()
        &&& passage_total(self.passages) + 2 == 2 * (self.size() * self.size())
    }

    /// The maze with one more passage leaving the cell `c`, in the
    /// direction `d`.
    pub open spec fn with_passage(self, c: (int, int), d: Direction) -> MazeView {
        MazeView {
            passages: self.passages.update(
                c.1,
                self.passages[c.1].update(c.0, in_order(self.at(c).push(d))),
            ),
            wrap: self.wrap,
        }
    }

    /// The maze with one more passage, between the cell `c` and the cell
    /// that the direction `d` leads to from it.
    pub open spec fn joined_up(self, c: (int, int), d: Direction) -> MazeView {
        self.with_passage(c, d).with_passage(step(self.size(), self.wrap, c, d), d.spec_opposite())
    }
}

/// What holds of a maze while it grows from the cell `start`: it is a
/// square of well-formed passages; the cells in `visited` are those that
/// passages lead to from `start`, and no passage leaves any other cell;
/// every cell on the stack is visited; every visited cell that is no longer
/// on the stack has only visited cells around it; and there is one passage
/// for each visited cell but the first.
pub open spec fn growing(
    m: MazeView,
    size: int,
    visited: Set<(int, int)>,
    reached: nat,
    stack: Seq<(usize, usize)>,
    start: (int, int),
) -> bool {
    &&& m.size() == size
    &&& m.shaped()
    &&& m.tidy()
    &&& m.well_joined()
    &&& in_square(size, start)
    &&& visited.contains(start)
    &&& forall|c: (int, int)|
        #[trigger] visited.contains(c) ==> in_square(size, c) && m.linked(start, c)
    &&& forall|c: (int, int)|
        in_square(size, c) && !visited.contains(c) ==> (#[trigger] m.at(c)).len() == 0
    &&& forall|i: int|
        0 <= i < stack.len() ==> visited.contains(
            ((#[trigger] stack[i]).0 as int, stack[i].1 as int),
        )
    &&& forall|c: (int, int), d: Direction|
        visited.contains(c) && in_square(size, #[trigger] step(size, m.wrap, c, d)) ==> on_stack(
            stack,
            c,
        ) || visited.contains(step(size, m.wrap, c, d))
    &&& reached >= 1
    &&& passage_total(m.passages) + 2 == 2 * reached
}

proof fn lemma_row_total_set(row: Seq<Seq<Direction>>, x: int, cell: Seq<Direction>)
    requires
        0 <= x < row.len(),
    ensures
        row_total(row.update(x, cell)) == row_total(row) - row[x].len() + cell.len(),
    decreases row.len(),
{
    let after = row.update(x, cell);
    if x == row.len() - 1 {
        assert(after.drop_last() =~= row.drop_last());
    } else {
        assert(after.drop_last() =~= row.drop_last().update(x, cell));
        lemma_row_total_set(row.drop_last(), x, cell);
    }
}

proof fn lemma_passage_total_set(passages: Passages, y: int, row: Seq<Seq<Direction>>)
    requires
        0 <= y < passages.len(),
    ensures
        passage_total(passages.update(y, row)) == passage_total(passages) - row_total(passages[y])
            + row_total(row),
    decreases passages.len(),
{
    let after = passages.update(y, row);
    if y == passages.len() - 1 {
        assert(after.drop_last() =~= passages.drop_last());
    } else {
        assert(after.drop_last() =~= passages.drop_last().update(y, row));
        lemma_passage_total_set(passages.drop_last(), y, row);
    }
}

proof fn lemma_no_passages(passages: Passages)
    requires
        forall|y: int, x: int|
            0 <= y < passages.len() && 0 <= x < passages[y].len() ==> (#[trigger] passages[y][x]).len()
                == 0,
    ensures
        passage_total(passages) == 0,
    decreases passages.len(),
{
    if passages.len() > 0 {
        lemma_no_passages(passages.drop_last());
        lemma_row_empty(passages.last());
    }
}

proof fn lemma_row_empty(row: Seq<Seq<Direction>>)
    requires
        forall|x: int| 0 <= x < row.len() ==> (#[trigger] row[x]).len() == 0,
    ensures
        row_total(row) == 0,
    decreases row.len(),
{
    if row.len() > 0 {
        lemma_row_empty(row.drop_last());
    }
}

/// A step and the step back lead to where they began.
pub proof fn lemma_step_back(size: int, wrap: bool, c: (int, int), d: Direction)
    requires
        in_square(size, c),
        in_square(size, step(size, wrap, c, d)),
    ensures
        step(size, wrap, step(size, wrap, c, d), d.spec_opposite()) == c,
{
}

/// A set of cells that holds one cell of the square and, with each cell, the
/// cells around it, holds every cell of the square.
pub proof fn lemma_square_is_connected(
    size: int,
    wrap: bool,
    cells: Set<(int, int)>,
    start: (int, int),
    c: (int, int),
)
    requires
        in_square(size, start),
        in_square(size, c),
        cells.contains(start),
        forall|a: (int, int), d: Direction|
            cells.contains(a) && in_square(size, #[trigger] step(size, wrap, a, d))
                ==> cells.contains(step(size, wrap, a, d)),
    ensures
        cells.contains(c),
    decreases
            (if c.0 >= start.0 {
                c.0 - start.0
            } else {
                start.0 - c.0
            }) + (if c.1 >= start.1 {
                c.1 - start.1
            } else {
                start.1 - c.1
            }),
{
    if c.0 > start.0 {
        lemma_square_is_connected(size, wrap, cells, start, (c.0 - 1, c.1));
        assert(step(size, wrap, (c.0 - 1, c.1), Direction::Right) == c);
    } else if c.0 < start.0 {
        lemma_square_is_connected(size, wrap, cells, start, (c.0 + 1, c.1));
        assert(step(size, wrap, (c.0 + 1, c.1), Direction::Left) == c);
    } else if c.1 > start.1 {
        lemma_square_is_connected(size, wrap, cells, start, (c.0, c.1 - 1));
        assert(step(size, wrap, (c.0, c.1 - 1), Direction::Down) == c);
    } else if c.1 < start.1 {
        lemma_square_is_connected(size, wrap, cells, start, (c.0, c.1 + 1));
        assert(step(size, wrap, (c.0, c.1 + 1), Direction::Up) == c);
    }
}

/// One more passage at a cell leaves every other cell as it was, and the
/// cell with the new passage besides its old ones, in order.
proof fn lemma_with_passage(m: MazeView, c: (int, int), d: Direction)
    requires
        m.shaped(),
        in_square(m.size(), c),
        strictly_ordered(m.at(c)),
        !m.at(c).contains(d),
    ensures
        m.with_passage(c, d).size() == m.size(),
        m.with_passage(c, d).shaped(),
        m.with_passage(c, d).wrap == m.wrap,
        forall|v: (int, int)|
            in_square(m.size(), v) && v != c ==> #[trigger] m.with_passage(c, d).at(v) == m.at(v),
        strictly_ordered(m.with_passage(c, d).at(c)),
        m.with_passage(c, d).at(c).len() == m.at(c).len() + 1,
        forall|e: Direction| m.with_passage(c, d).at(c).contains(e) <==> m.at(c).contains(e) || e == d,
        passage_total(m.with_passage(c, d).passages) == passage_total(m.passages) + 1,
{
    let cell = in_order(m.at(c).push(d));
    let row = m.passages[c.1].update(c.0, cell);
    lemma_in_order_grows(m.at(c), d);
    lemma_row_total_set(m.passages[c.1], c.0, cell);
    lemma_passage_total_set(m.passages, c.1, row);
    let after = m.with_passage(c, d);
    assert(after.at(c) == cell);
    assert forall|y: int| 0 <= y < after.passages.len() implies (#[trigger] after.passages[y]).len()
        == after.passages.len() by {
        assert(m.passages[y].len() == m.passages.len());
    }
}

/// Walks can be walked back: where passages lead from `a` to `b`, passages
/// lead from `b` to `a`.
pub proof fn lemma_linked_back(m: MazeView, a: (int, int), b: (int, int))
    requires
        m.well_joined(),
        m.linked(a, b),
    ensures
        m.linked(b, a),
{
    let walk = choose|walk: Seq<(int, int)>| m.is_walk(walk, a) && walk.last() == b;
    lemma_walk_back(m, walk, a, walk.len() - 1);
}

proof fn lemma_walk_back(m: MazeView, walk: Seq<(int, int)>, a: (int, int), i: int)
    requires
        m.well_joined(),
        m.is_walk(walk, a),
        0 <= i < walk.len(),
    ensures
        m.linked(walk[i], a),
    decreases i,
{
    if i == 0 {
        assert(m.is_walk(seq![a], a));
        assert(seq![a].last() == a);
    } else {
        lemma_walk_back(m, walk, a, i - 1);
        let prev = walk[i - 1];
        let here = walk[i];
        assert(m.leads(prev, walk[i - 1 + 1]));
        let d = choose|d: Direction| m.has(prev, d) && step(m.size(), m.wrap, prev, d) == here;
        lemma_step_back(m.size(), m.wrap, prev, d);
        assert(m.has(here, d.spec_opposite()));
        assert(m.leads(here, prev));
        lemma_linked_on(m, here, prev, a);
    }
}

/// Walks can be put together: where a passage leads from `a` to `b` and
/// passages lead from `b` to `c`, passages lead from `a` to `c`.
pub proof fn lemma_linked_on(m: MazeView, a: (int, int), b: (int, int), c: (int, int))
    requires
        m.leads(a, b),
        m.linked(b, c),
    ensures
        m.linked(a, c),
{
    let walk = choose|walk: Seq<(int, int)>| m.is_walk(walk, b) && walk.last() == c;
    let longer = seq![a] + walk;
    assert forall|i: int| 0 <= i < longer.len() - 1 implies m.leads(
        #[trigger] longer[i],
        longer[i + 1],
    ) by {
        if i == 0 {
            assert(longer[0] == a);
            assert(longer[1] == walk[0]);
        } else {
            assert(longer[i] == walk[i - 1]);
            assert(longer[i + 1] == walk[i - 1 + 1]);
            assert(m.leads(walk[i - 1], walk[i - 1 + 1]));
        }
    }
    assert(longer[0] == a);
    assert(m.is_walk(longer, a));
    assert(longer.last() == c);
}

/// Where passages lead from `a` to `b` and from `b` to `c`, passages lead
/// from `a` to `c`.
pub proof fn lemma_linked_through(m: MazeView, a: (int, int), b: (int, int), c: (int, int))
    requires
        m.linked(a, b),
        m.linked(b, c),
    ensures
        m.linked(a, c),
{
    let walk = choose|walk: Seq<(int, int)>| m.is_walk(walk, a) && walk.last() == b;
    lemma_walk_through(m, walk, a, c, walk.len() - 1);
}

proof fn lemma_walk_through(m: MazeView, walk: Seq<(int, int)>, a: (int, int), c: (int, int), i: int)
    requires
        m.is_walk(walk, a),
        m.linked(walk.last(), c),
        0 <= i < walk.len(),
    ensures
        m.linked(walk[walk.len() - 1 - i], c),
    decreases i,
{
    if i > 0 {
        lemma_walk_through(m, walk, a, c, i - 1);
        let k = walk.len() - 1 - i;
        assert(m.leads(walk[k], walk[k + 1]));
        lemma_linked_on(m, walk[k], walk[k + 1], c);
    }
}

/// In a perfect maze passages lead from every cell to every cell.
pub proof fn lemma_perfect_maze_links_all(m: MazeView, a: (int, int), b: (int, int))
    requires
        m.perfect(),
        in_square(m.size(), a),
        in_square(m.size(), b),
    ensures
        m.linked(a, b),
{
    let start = choose|start: (int, int)|
        in_square(m.size(), start) && forall|c: (int, int)|
            in_square(m.size(), c) ==> #[trigger] m.linked(start, c);
    assert(m.linked(start, a));
    assert(m.linked(start, b));
    lemma_linked_back(m, start, a);
    lemma_linked_through(m, a, start, b);
}

/// Whether `after` is `before` with one more passage, between the cell `c`
/// and the cell that the direction `d` leads to from it: the passages that
/// leave a cell in `after` are those that leave it in `before`, and the two
/// ends of the new one.
pub open spec fn one_more(before: MazeView, after: MazeView, c: (int, int), d: Direction) -> bool {
    &&& after.size() == before.size()
    &&& after.wrap == before.wrap
    &&& after.shaped()
    &&& forall|v: (int, int), e: Direction| #[trigger]
        after.has(v, e) <==> before.has(v, e) || (v == c && e == d) || (v == step(
            before.size(),
            before.wrap,
            c,
            d,
        ) && e == d.spec_opposite())
}

/// Joining a cell to a cell without passages adds one passage, with its two
/// ends, and leaves every other cell as it was.
proof fn lemma_joined_up(m: MazeView, c: (int, int), d: Direction)
    requires
        m.shaped(),
        m.tidy(),
        in_square(m.size(), c),
        in_square(m.size(), step(m.size(), m.wrap, c, d)),
        step(m.size(), m.wrap, c, d) != c,
        !m.at(c).contains(d),
        m.at(step(m.size(), m.wrap, c, d)).len() == 0,
    ensures
        one_more(m, m.joined_up(c, d), c, d),
        m.joined_up(c, d).tidy(),
        passage_total(m.joined_up(c, d).passages) == passage_total(m.passages) + 2,
        forall|v: (int, int)|
            in_square(m.size(), v) && v != c && v != step(m.size(), m.wrap, c, d)
                ==> #[trigger] m.joined_up(c, d).at(v) == m.at(v),
{
    let n = step(m.size(), m.wrap, c, d);
    let back = d.spec_opposite();
    let m1 = m.with_passage(c, d);
    let m2 = m.joined_up(c, d);
    assert(strictly_ordered(m.at(c)));
    lemma_with_passage(m, c, d);
    assert(m1.at(n) == m.at(n));
    assert(!m1.at(n).contains(back)) by {
        if m1.at(n).contains(back) {
            let i = choose|i: int| 0 <= i < m1.at(n).len() && m1.at(n)[i] == back;
        }
    }
    lemma_with_passage(m1, n, back);
    assert(m2 == m1.with_passage(n, back));
    assert(m2.at(c) == m1.at(c));
    assert forall|v: (int, int)|
        in_square(m.size(), v) && v != c && v != n implies #[trigger] m2.at(v) == m.at(v) by {
        assert(m1.at(v) == m.at(v));
        assert(m2.at(v) == m1.at(v));
    }
    assert forall|v: (int, int), e: Direction| #[trigger]
        m2.has(v, e) <==> m.has(v, e) || (v == c && e == d) || (v == n && e == back) by {
        if in_square(m.size(), v) {
            if v == c {
            } else if v == n {
                if m.at(n).contains(e) {
                    let i = choose|i: int| 0 <= i < m.at(n).len() && m.at(n)[i] == e;
                }
            } else {
                assert(m2.at(v) == m.at(v));
            }
        }
    }
    assert forall|v: (int, int)| in_square(m2.size(), v) implies strictly_ordered(
        #[trigger] m2.at(v),
    ) by {
        if v != c && v != n {
            assert(m2.at(v) == m.at(v));
            assert(strictly_ordered(m.at(v)));
        }
    }
}

/// One more passage with its two ends leaves every passage with two ends.
proof fn lemma_one_more_well_joined(m: MazeView, after: MazeView, c: (int, int), d: Direction)
    requires
        m.well_joined(),
        one_more(m, after, c, d),
        in_square(m.size(), c),
        in_square(m.size(), step(m.size(), m.wrap, c, d)),
    ensures
        after.well_joined(),
{
    let size = m.size();
    assert forall|v: (int, int), e: Direction| #[trigger] after.has(v, e) implies in_square(
        size,
        step(size, after.wrap, v, e),
    ) && after.at(step(size, after.wrap, v, e)).contains(e.spec_opposite()) by {
        if m.has(v, e) {
            assert(m.has(step(size, m.wrap, v, e), e.spec_opposite()));
            assert(after.has(step(size, m.wrap, v, e), e.spec_opposite()));
        } else if v == c && e == d {
            assert(after.has(step(size, m.wrap, c, d), d.spec_opposite()));
        } else {
            lemma_step_back(size, m.wrap, c, d);
            d.lemma_opposite();
            assert(after.has(c, d));
        }
    }
}

/// One more passage keeps every walk a walk.
proof fn lemma_one_more_linked(
    m: MazeView,
    after: MazeView,
    c: (int, int),
    d: Direction,
    start: (int, int),
    v: (int, int),
)
    requires
        one_more(m, after, c, d),
        m.linked(start, v),
    ensures
        after.linked(start, v),
{
    let size = m.size();
    let walk = choose|walk: Seq<(int, int)>| m.is_walk(walk, start) && walk.last() == v;
    assert forall|i: int| 0 <= i < walk.len() - 1 implies after.leads(
        #[trigger] walk[i],
        walk[i + 1],
    ) by {
        assert(m.leads(walk[i], walk[i + 1]));
        let e = choose|e: Direction|
            m.has(walk[i], e) && step(size, m.wrap, walk[i], e) == walk[i + 1];
        assert(after.has(walk[i], e));
    }
    assert(after.is_walk(walk, start));
}

/// A walk to a cell, and a passage from there, make a walk to where the
/// passage leads.
proof fn lemma_walk_on(m: MazeView, start: (int, int), c: (int, int), d: Direction)
    requires
        m.linked(start, c),
        m.has(c, d),
    ensures
        m.linked(start, step(m.size(), m.wrap, c, d)),
{
    let walk = choose|walk: Seq<(int, int)>| m.is_walk(walk, start) && walk.last() == c;
    let n = step(m.size(), m.wrap, c, d);
    let longer = walk.push(n);
    assert(m.leads(c, n));
    assert forall|i: int| 0 <= i < longer.len() - 1 implies m.leads(
        #[trigger] longer[i],
        longer[i + 1],
    ) by {
        if i < walk.len() - 1 {
            assert(longer[i] == walk[i]);
            assert(longer[i + 1] == walk[i + 1]);
            assert(m.leads(walk[i], walk[i + 1]));
        } else {
            assert(longer[i] == c);
            assert(longer[i + 1] == n);
        }
    }
    assert(longer[0] == start);
    assert(m.is_walk(longer, start));
    assert(longer.last() == n);
}

/// A new passage between a visited cell and a cell that is not visited yet,
/// with that cell then visited and put on the stack, keeps what holds while
/// the maze grows.
proof fn lemma_join_keeps_growing(
    m: MazeView,
    size: int,
    visited: Set<(int, int)>,
    reached: nat,
    stack: Seq<(usize, usize)>,
    start: (int, int),
    c: (int, int),
    d: Direction,
    next: (usize, usize),
)
    requires
        growing(m, size, visited, reached, stack, start),
        visited.contains(c),
        (next.0 as int, next.1 as int) == step(size, m.wrap, c, d),
        in_square(size, step(size, m.wrap, c, d)),
        !visited.contains(step(size, m.wrap, c, d)),
    ensures
        growing(
            m.joined_up(c, d),
            size,
            visited.insert(step(size, m.wrap, c, d)),
            reached + 1,
            stack.push(next),
            start,
        ),
{
    let n = step(size, m.wrap, c, d);
    let back = d.spec_opposite();
    let m2 = m.joined_up(c, d);
    let seen = visited.insert(n);
    let grown = stack.push(next);
    assert(m.at(n).len() == 0);
    assert(!m.at(c).contains(d)) by {
        if m.at(c).contains(d) {
            assert(m.has(c, d));
            assert(m.has(n, back));
            let i = choose|i: int| 0 <= i < m.at(n).len() && m.at(n)[i] == back;
        }
    }
    lemma_joined_up(m, c, d);
    lemma_one_more_well_joined(m, m2, c, d);
    assert(m2.has(c, d));
    assert forall|v: (int, int)| #[trigger] seen.contains(v) implies in_square(size, v)
        && m2.linked(start, v) by {
        if visited.contains(v) {
            lemma_one_more_linked(m, m2, c, d, start, v);
        } else {
            lemma_one_more_linked(m, m2, c, d, start, c);
            lemma_walk_on(m2, start, c, d);
        }
    }
    assert forall|v: (int, int)| in_square(size, v) && !seen.contains(v) implies (#[trigger] m2.at(
        v,
    )).len() == 0 by {
        assert(m2.at(v) == m.at(v));
        assert(m.at(v).len() == 0);
    }
    lemma_stack_grows(visited, stack, next);
    assert forall|v: (int, int), e: Direction|
        seen.contains(v) && in_square(size, #[trigger] step(size, m2.wrap, v, e)) implies on_stack(
        grown,
        v,
    ) || seen.contains(step(size, m2.wrap, v, e)) by {
        if visited.contains(v) {
            assert(on_stack(stack, v) || visited.contains(step(size, m.wrap, v, e)));
        }
    }
}

/// A cell that is put on the stack and into the visited cells is on the
/// stack; the cells that were on the stack still are; and every cell on the
/// stack is visited.
proof fn lemma_stack_grows(visited: Set<(int, int)>, stack: Seq<(usize, usize)>, next: (usize, usize))
    requires
        forall|i: int|
            0 <= i < stack.len() ==> visited.contains(
                ((#[trigger] stack[i]).0 as int, stack[i].1 as int),
            ),
    ensures
        on_stack(stack.push(next), (next.0 as int, next.1 as int)),
        forall|v: (int, int)| on_stack(stack, v) ==> on_stack(stack.push(next), v),
        forall|i: int|
            0 <= i < stack.push(next).len() ==> visited.insert(
                (next.0 as int, next.1 as int),
            ).contains(((#[trigger] stack.push(next)[i]).0 as int, stack.push(next)[i].1 as int)),
{
    let grown = stack.push(next);
    assert(grown[grown.len() - 1] == next);
    assert forall|v: (int, int)| on_stack(stack, v) implies on_stack(grown, v) by {
        let i = choose|i: int| 0 <= i < stack.len() && (stack[i].0 as int, stack[i].1 as int) == v;
        assert(grown[i] == stack[i]);
    }
    assert forall|i: int| 0 <= i < grown.len() implies visited.insert(
        (next.0 as int, next.1 as int),
    ).contains(((#[trigger] grown[i]).0 as int, grown[i].1 as int)) by {
        if i < stack.len() {
            assert(grown[i] == stack[i]);
        }
    }
}

/// Taking from the stack a cell that has only visited cells around it keeps
/// what holds while the maze grows.
proof fn lemma_drop_keeps_growing(
    m: MazeView,
    size: int,
    visited: Set<(int, int)>,
    reached: nat,
    stack: Seq<(usize, usize)>,
    start: (int, int),
    index: int,
)
    requires
        growing(m, size, visited, reached, stack, start),
        0 <= index < stack.len(),
        forall|d: Direction|
            in_square(
                size,
                #[trigger] step(
                    size,
                    m.wrap,
                    (stack[index].0 as int, stack[index].1 as int),
                    d,
                ),
            ) ==> visited.contains(
                step(size, m.wrap, (stack[index].0 as int, stack[index].1 as int), d),
            ),
    ensures
        growing(m, size, visited, reached, stack.remove(index), start),
{
    let rest = stack.remove(index);
    let c = (stack[index].0 as int, stack[index].1 as int);
    assert forall|i: int| 0 <= i < rest.len() implies visited.contains(
        ((#[trigger] rest[i]).0 as int, rest[i].1 as int),
    ) by {
        if i < index {
            assert(rest[i] == stack[i]);
        } else {
            assert(rest[i] == stack[i + 1]);
        }
    }
    assert forall|v: (int, int), e: Direction|
        visited.contains(v) && in_square(size, #[trigger] step(size, m.wrap, v, e)) implies on_stack(
        rest,
        v,
    ) || visited.contains(step(size, m.wrap, v, e)) by {
        if on_stack(stack, v) && v != c {
            let i = choose|i: int|
                0 <= i < stack.len() && (stack[i].0 as int, stack[i].1 as int) == v;
            if i < index {
                assert(rest[i] == stack[i]);
            } else {
                assert(rest[i - 1] == stack[i]);
            }
        }
    }
}

/// Whether the direction `d` leads from `c` to a cell of the square that is
/// not visited yet.
pub open spec fn is_way(
    size: int,
    wrap: bool,
    visited: Set<(int, int)>,
    c: (int, int),
    d: Direction,
) -> bool {
    in_square(size, step(size, wrap, c, d)) && !visited.contains(step(size, wrap, c, d))
}

/// Whether `ways` holds the directions of rank below `k` that lead from `c`
/// to a cell of the square that is not visited yet.
pub open spec fn opened(
    ways: Seq<Direction>,
    k: int,
    size: int,
    wrap: bool,
    visited: Set<(int, int)>,
    c: (int, int),
) -> bool {
    forall|d: Direction|
        #![trigger ways.contains(d)]
        #![trigger is_way(size, wrap, visited, c, d)]
        ways.contains(d) <==> d.rank() < k && is_way(size, wrap, visited, c, d)
}

/// The test by which the directions other than `d` stay.
pub open spec fn other_than(d: Direction) -> spec_fn(Direction) -> bool {
    |e: Direction| e != d
}

/// The directions that a step is picked from, out of the directions `ways`
/// that lead to cells not visited yet. Where straight lines are to be
/// avoided and exactly one passage leaves the cell, the direction that goes
/// straight on is left out, unless it is the only way.
pub open spec fn preferred(ways: Seq<Direction>, cell: Seq<Direction>, avoid: bool) -> Seq<
    Direction,
> {
    if avoid && cell.len() == 1 && ways.filter(other_than(cell[0].spec_opposite())).len() > 0 {
        ways.filter(other_than(cell[0].spec_opposite()))
    } else {
        ways
    }
}

/// The preferred directions are among the ways, and there is one if there
/// is a way.
pub proof fn lemma_preferred(ways: Seq<Direction>, cell: Seq<Direction>, avoid: bool)
    ensures
        forall|d: Direction| preferred(ways, cell, avoid).contains(d) ==> ways.contains(d),
        preferred(ways, cell, avoid).len() == 0 <==> ways.len() == 0,
{
    if cell.len() > 0 {
        let kept = ways.filter(other_than(cell[0].spec_opposite()));
        ways.lemma_filter_len(other_than(cell[0].spec_opposite()));
        assert forall|d: Direction| kept.contains(d) implies ways.contains(d) by {
            ways.lemma_filter_contains_rev(other_than(cell[0].spec_opposite()), d);
        }
    }
}

impl View for Maze {
    type V = MazeView;

    open spec fn view(&self) -> MazeView {
        MazeView {
            passages: Seq::new(
                self.grid@.len(),
                |y: int| Seq::new(self.grid@[y]@.len(), |x: int| self.grid@[y]@[x].connections@),
            ),
            wrap: self.wrap,
        }
    }
}

/// `rand::Rng::gen_range` on the range from 0 up to `n`, `n` left out, with
/// the generator that `rand::thread_rng` hands out. The result lies in the
/// range; which number of the range comes out is left open. The call panics
/// on an empty range, so `n` is not 0.
#[verifier::external_body]
pub(crate) fn random_below(n: usize) -> (r: usize)
    requires
        n > 0,
    ensures
        r < n,
{
    rand::thread_rng().gen_range(0..n)
}

/// `rand::Rng::gen_ratio`, with the generator that `rand::thread_rng` hands
/// out: true with a chance of `numerator` in `denominator`. The result is
/// certain only where the chance is none or all. The call panics on a
/// denominator of 0 and on a numerator above the denominator.
#[verifier::external_body]
fn random_ratio(numerator: u32, denominator: u32) -> (r: bool)
    requires
        denominator > 0,
        numerator <= denominator,
    ensures
        numerator == denominator ==> r,
        numerator == 0 ==> !r,
{
    rand::thread_rng().gen_ratio(numerator, denominator)
}

/// `rand::seq::SliceRandom::choose` on a slice, with the generator that
/// `rand::thread_rng` hands out: `None` for an empty slice, otherwise one of
/// the entries; which one is left open.
#[verifier::external_body]
fn choose_one(directions: &Vec<Direction>) -> (r: Option<Direction>)
    ensures
        r is None <==> directions@.len() == 0,
        r matches Some(d) ==> directions@.contains(d),
{
    directions.choose(&mut rand::thread_rng()).copied()
}

impl Maze {
    /// The options of a maze of `size` rows and columns, all at their
    /// defaults.
    pub fn builder(size: usize) -> (builder: MazeBuilder)
        ensures
            builder@ == (MazeOptions { size, avoid_straight: 0, prim_percent: 0, wrap: false }),
    {
        MazeBuilder::new(size)
    }

    fn blank(size: usize) -> (grid: Vec<Vec<MazeCell>>)
        ensures
            grid@.len() == size,
            forall|y: int| 0 <= y < size ==> (#[trigger] grid@[y])@.len() == size,
            forall|y: int, x: int|
                0 <= y < size && 0 <= x < size ==> (#[trigger] grid@[y]@[x]).connections@.len()
                    == 0,
    {
        let mut grid: Vec<Vec<MazeCell>> = Vec::new();
        while grid.len() < size
            invariant
                grid@.len() <= size,
                forall|y: int| 0 <= y < grid@.len() ==> (#[trigger] grid@[y])@.len() == size,
                forall|y: int, x: int|
                    0 <= y < grid@.len() && 0 <= x < size ==> (#[trigger] grid@[y]@[x]).connections@.len()
                        == 0,
            decreases size - grid@.len(),
        {
            let mut row: Vec<MazeCell> = Vec::new();
            while row.len() < size
                invariant
                    row@.len() <= size,
                    forall|x: int| 0 <= x < row@.len() ==> (#[trigger] row@[x]).connections@.len() == 0,
                decreases size - row@.len(),
            {
                row.push(MazeCell { connections: Vec::new() });
            }
            grid.push(row);
        }
        grid
    }

    fn step_of(&self, x: usize, y: usize, direction: Direction) -> (r: Option<(usize, usize)>)
        requires
            0 < self@.size() <= i32::MAX,
            x < self@.size(),
            y < self@.size(),
        ensures
            r is Some <==> in_square(
                self@.size(),
                step(self@.size(), self@.wrap, (x as int, y as int), direction),
            ),
            r matches Some(n) ==> (n.0 as int, n.1 as int) == step(
                self@.size(),
                self@.wrap,
                (x as int, y as int),
                direction,
            ),
    {
        let max_val: i32 = self.grid.len() as i32 - 1;
        let (dx, dy) = direction.offset();
        let nx = wrap_val(self.wrap, x as i32 + dx, 0, max_val);
        let ny = wrap_val(self.wrap, y as i32 + dy, 0, max_val);
        if nx >= 0 && nx <= max_val && ny >= 0 && ny <= max_val {
            Some((nx as usize, ny as usize))
        } else {
            None
        }
    }

    fn open_ways(&self, x: usize, y: usize, visited: &Marks) -> (ways: Vec<Direction>)
        requires
            0 < self@.size() <= i32::MAX,
            x < self@.size(),
            y < self@.size(),
            visited.wf(),
        ensures
            opened(ways@, 4, self@.size(), self@.wrap, visited@, (x as int, y as int)),
    {
        let ghost here = (x as int, y as int);
        let ghost size = self@.size();
        let ghost wrap = self@.wrap;
        let dirs = Direction::iter();
        let mut ways: Vec<Direction> = Vec::new();
        let mut k: usize = 0;
        while k < 4
            invariant
                k <= 4,
                dirs@ == Direction::spec_all(),
                0 < self@.size() <= i32::MAX,
                size == self@.size(),
                wrap == self@.wrap,
                here == (x as int, y as int),
                x < size,
                y < size,
                visited.wf(),
                opened(ways@, k as int, size, wrap, visited@, here),
            decreases 4 - k,
        {
            let direction = dirs[k];
            assert(direction.rank() == k);
            let ghost before = ways@;
            match self.step_of(x, y, direction) {
                Some((nx, ny)) => {
                    if !visited.contains(nx, ny) {
                        ways.push(direction);
                    }
                },
                None => {},
            }
            proof {
                assert(ways@ == if is_way(size, wrap, visited@, here, direction) {
                    before.push(direction)
                } else {
                    before
                });
                assert forall|d: Direction|
                    #![trigger ways@.contains(d)]
                    #![trigger is_way(size, wrap, visited@, here, d)]
                    ways@.contains(d) <==> d.rank() < k + 1 && is_way(
                        size,
                        wrap,
                        visited@,
                        here,
                        d,
                    ) by {
                    let way = is_way(size, wrap, visited@, here, d);
                    assert(before.contains(d) <==> d.rank() < k && way);
                    if d.rank() == k {
                        assert(d == direction);
                    }
                    if ways@.contains(d) {
                        let i = choose|i: int| 0 <= i < ways@.len() && ways@[i] == d;
                        if i < before.len() {
                            assert(before[i] == d);
                            assert(before.contains(d));
                        }
                    }
                    if d.rank() < k + 1 && is_way(size, wrap, visited@, here, d) {
                        if d == direction {
                            assert(ways@[ways@.len() - 1] == d);
                        } else {
                            assert(before.contains(d));
                            let i = choose|i: int| 0 <= i < before.len() && before[i] == d;
                            assert(ways@[i] == d);
                        }
                    }
                }
            }
            k += 1;
        }
        ways
    }

    fn prefer_turns(&self, x: usize, y: usize, ways: Vec<Direction>, avoid: bool) -> (r: Vec<
        Direction,
    >)
        requires
            x < self@.size(),
            y < self@.size(),
            self@.shaped(),
        ensures
            r@ == preferred(ways@, self@.at((x as int, y as int)), avoid),
    {
        assert(self@.passages[y as int] == Seq::new(
            self.grid@[y as int]@.len(),
            |k: int| self.grid@[y as int]@[k].connections@,
        ));
        assert(self@.passages[y as int].len() == self@.passages.len());
        if avoid && self.grid[y][x].connections.len() == 1 {
            let to_del = self.grid[y][x].connections[0].opposite();
            let mut kept: Vec<Direction> = Vec::new();
            let mut i: usize = 0;
            proof {
                reveal(Seq::filter);
                assert(ways@.take(0).filter(other_than(to_del)) =~= Seq::<Direction>::empty());
            }
            while i < ways.len()
                invariant
                    i <= ways@.len(),
                    kept@ == ways@.take(i as int).filter(other_than(to_del)),
                decreases ways@.len() - i,
            {
                proof {
                    ways@.take(i as int).lemma_filter_push(ways@[i as int], other_than(to_del));
                    assert(ways@.take(i + 1) =~= ways@.take(i as int).push(ways@[i as int]));
                }
                if ways[i] != to_del {
                    kept.push(ways[i]);
                }
                i += 1;
            }
            assert(ways@.take(ways@.len() as int) =~= ways@);
            if kept.len() > 0 {
                return kept;
            }
        }
        ways
    }

    fn link(&mut self, x: usize, y: usize, direction: Direction)
        requires
            old(self)@.shaped(),
            x < old(self)@.size(),
            y < old(self)@.size(),
        ensures
            final(self)@ == old(self)@.with_passage((x as int, y as int), direction),
    {
        let ghost before = self@;
        assert(before.passages[y as int].len() == before.passages.len());
        self.grid[y][x].add_connection(direction);
        proof {
            let after = self@;
            let wanted = before.with_passage((x as int, y as int), direction);
            assert(after.passages.len() == wanted.passages.len());
            assert forall|k: int| 0 <= k < after.passages.len() implies #[trigger] after.passages[k]
                =~= wanted.passages[k] by {
                assert(before.passages[k].len() == before.passages.len());
            }
            assert(after.passages =~= wanted.passages);
        }
    }

    fn grow(
        &mut self,
        visited: &mut Marks,
        stack: &mut Vec<(usize, usize)>,
        avoid_straight: u8,
        prim_percent: u8,
        Ghost(start): Ghost<(int, int)>,
    )
        requires
            0 < old(self)@.size() <= i32::MAX,
            avoid_straight <= 100,
            prim_percent <= 100,
            old(visited).wf(),
            old(visited).size() == old(self)@.size(),
            old(stack)@.len() > 0,
            growing(
                old(self)@,
                old(self)@.size(),
                old(visited)@,
                old(visited).total(),
                old(stack)@,
                start,
            ),
        ensures
            final(self)@.size() == old(self)@.size(),
            final(self)@.wrap == old(self)@.wrap,
            final(visited).wf(),
            final(visited).size() == old(visited).size(),
            growing(
                final(self)@,
                final(self)@.size(),
                final(visited)@,
                final(visited).total(),
                final(stack)@,
                start,
            ),
            final(visited).total() <= old(self)@.size() * old(self)@.size(),
            final(visited).total() >= old(visited).total(),
            2 * (final(visited).total() - old(visited).total()) + old(stack)@.len()
                > final(stack)@.len(),
    {
        let ghost size = self@.size();
        let ghost before = self@;
        proof {
            visited.lemma_bounds();
        }
        let index: usize = if random_ratio(prim_percent as u32, 100) {
            random_below(stack.len())
        } else {
            stack.len() - 1
        };
        let (x, y) = stack[index];
        let ghost here = (x as int, y as int);
        assert(visited@.contains(here));
        let ways = self.open_ways(x, y, visited);
        let avoid = random_ratio(avoid_straight as u32, 100);
        let directions = self.prefer_turns(x, y, ways, avoid);
        proof {
            lemma_preferred(ways@, self@.at(here), avoid);
        }
        match choose_one(&directions) {
            None => {
                proof {
                    assert forall|d: Direction|
                        in_square(size, #[trigger] step(size, before.wrap, here, d)) implies visited@.contains(
                        step(size, before.wrap, here, d),
                    ) by {
                        if is_way(size, before.wrap, visited@, here, d) {
                            assert(ways@.contains(d));
                            assert(ways@.len() > 0);
                        }
                    }
                    lemma_drop_keeps_growing(
                        before,
                        size,
                        visited@,
                        visited.total(),
                        stack@,
                        start,
                        index as int,
                    );
                }
                stack.remove(index);
            },
            Some(direction) => {
                assert(ways@.contains(direction));
                assert(is_way(size, before.wrap, visited@, here, direction));
                let next = self.step_of(x, y, direction).unwrap();
                proof {
                    lemma_join_keeps_growing(
                        before,
                        size,
                        visited@,
                        visited.total(),
                        stack@,
                        start,
                        here,
                        direction,
                        next,
                    );
                    direction.lemma_opposite();
                }
                self.link(x, y, direction);
                self.link(next.0, next.1, direction.opposite());
                stack.push(next);
                visited.insert(next.0, next.1);
            },
        }
    }

    /// A maze of `size` rows and columns, grown at random from a random
    /// cell: again and again a cell on the stack is looked at, the last one
    /// or, with a chance of `prim_percent` in 100, any one; a passage is
    /// made from it to a cell around it that is not visited yet, which is
    /// then visited and put on the stack; a cell with no such cell around
    /// it leaves the stack. With a chance of `avoid_straight` in 100 a cell
    /// that one passage leaves does not go straight on, where it can turn.
    fn new(size: usize, avoid_straight: u8, prim_percent: u8, wrap: bool) -> (maze: Maze)
        requires
            0 < size <= i32::MAX,
            avoid_straight <= 100,
            prim_percent <= 100,
        ensures
            maze@.size() == size,
            maze@.wrap == wrap,
            maze@.perfect(),
    {
        let mut maze = Maze { grid: Self::blank(size), wrap };
        let x = random_below(size);
        let y = random_below(size);
        let ghost start = (x as int, y as int);
        let ghost cells: int = size as int * size as int;
        let mut visited = Marks::new(size);
        visited.insert(x, y);
        let mut stack: Vec<(usize, usize)> = Vec::new();
        stack.push((x, y));
        proof {
            let m = maze@;
            assert forall|c: (int, int)| in_square(size as int, c) implies (#[trigger] m.at(c)).len()
                == 0 by {
                assert(maze.grid@[c.1]@[c.0].connections@.len() == 0);
            }
            assert forall|r: int, k: int|
                0 <= r < m.passages.len() && 0 <= k < m.passages[r].len() implies (#[trigger] m.passages[r][k]).len()
                == 0 by {
                assert(m.at((k, r)).len() == 0);
            }
            lemma_no_passages(m.passages);
            assert(m.is_walk(seq![start], start));
            assert(seq![start].last() == start);
            assert(stack@[0] == (x, y));
            assert(on_stack(stack@, start));
            assert forall|c: (int, int), d: Direction| #[trigger] m.has(c, d) implies false by {
                let i = choose|i: int| 0 <= i < m.at(c).len() && m.at(c)[i] == d;
            }
            assert(cells == size * size) by (nonlinear_arith)
                requires
                    cells == size as int * size as int,
            ;
        }
        while stack.len() > 0
            invariant
                0 < size <= i32::MAX,
                avoid_straight <= 100,
                prim_percent <= 100,
                cells == size * size,
                maze@.size() == size,
                maze@.wrap == wrap,
                visited.wf(),
                visited.size() == size,
                visited.total() <= cells,
                growing(maze@, size as int, visited@, visited.total(), stack@, start),
            decreases 2 * (cells - visited.total()) + stack@.len(),
        {
            maze.grow(&mut visited, &mut stack, avoid_straight, prim_percent, Ghost(start));
        }
        proof {
            let m = maze@;
            assert forall|a: (int, int), d: Direction|
                visited@.contains(a) && in_square(size as int, #[trigger] step(size as int, wrap, a, d)) implies visited@.contains(
                step(size as int, wrap, a, d),
            ) by {
                assert(!on_stack(stack@, a));
            }
            assert forall|c: (int, int)| in_square(size as int, c) implies visited@.contains(c) by {
                lemma_square_is_connected(size as int, wrap, visited@, start, c);
            }
            visited.lemma_bounds();
            assert forall|c: (int, int)| in_square(m.size(), c) implies #[trigger] m.linked(
                start,
                c,
            ) by {
                assert(visited@.contains(c));
            }
        }
        maze
    }
}

/// The options of a maze, set one by one.
#[derive(Debug, Clone, Copy, PartialEq, Eq, Structural)]
pub struct MazeBuilder {
    size: usize,
    avoid_straight: u8,
    prim_percent: u8,
    wrap: bool,
}

/// The options of a maze as the contracts see them.
pub struct MazeOptions {
    /// The number of rows, which is also the number of columns.
    pub size: usize,
    /// The chance, in percent, of turning away from a straight line.
    pub avoid_straight: u8,
    /// The chance, in percent, of growing the maze from a random cell
    /// instead of the last one.
    pub prim_percent: u8,
    /// Whether paths wrap around the edges.
    pub wrap: bool,
}

impl View for MazeBuilder {
    type V = MazeOptions;

    closed spec fn view(&self) -> MazeOptions {
        MazeOptions {
            size: self.size,
            avoid_straight: self.avoid_straight,
            prim_percent: self.prim_percent,
            wrap: self.wrap,
        }
    }
}

impl MazeBuilder {
    /// The options of a maze of `size` rows and columns: both chances at
    /// zero, no wrapping.
    pub fn new(size: usize) -> (builder: MazeBuilder)
        ensures
            builder@ == (MazeOptions { size, avoid_straight: 0, prim_percent: 0, wrap: false }),
    {
        Self { size, avoid_straight: 0, prim_percent: 0, wrap: false }
    }

    /// Sets the chance, in percent, of growing the maze from a random cell.
    pub fn with_prim_prob(self, prob: u8) -> (builder: MazeBuilder)
        ensures
            builder@ == (MazeOptions { prim_percent: prob, ..self@ }),
    {
        let mut builder = self;
        builder.prim_percent = prob;
        builder
    }

    /// Sets the chance, in percent, of turning away from a straight line.
    pub fn with_avoid_straight(self, prob: u8) -> (builder: MazeBuilder)
        ensures
            builder@ == (MazeOptions { avoid_straight: prob, ..self@ }),
    {
        let mut builder = self;
        builder.avoid_straight = prob;
        builder
    }

    /// Sets whether paths wrap around the edges.
    pub fn with_wrap(self, wrap: bool) -> (builder: MazeBuilder)
        ensures
            builder@ == (MazeOptions { wrap, ..self@ }),
    {
        let mut builder = self;
        builder.wrap = wrap;
        builder
    }

    /// Generates a maze with these options. The maze has at least one cell,
    /// its side fits an `i32`, and no chance is above 100 in 100.
    pub fn build(self) -> (maze: Maze)
        requires
            0 < self@.size <= i32::MAX,
            self@.avoid_straight <= 100,
            self@.prim_percent <= 100,
        ensures
            maze@.size() == self@.size,
            maze@.wrap == self@.wrap,
            maze@.perfect(),
    {
        Maze::new(self.size, self.avoid_straight, self.prim_percent, self.wrap)
    }

    /// The number of rows and columns.
    pub fn size(&self) -> (r: usize)
        ensures
            r == self@.size,
    {
        self.size
    }

    /// The chance, in percent, of turning away from a straight line.
    pub fn avoid_straight(&self) -> (r: u8)
        ensures
            r == self@.avoid_straight,
    {
        self.avoid_straight
    }

    /// The chance, in percent, of growing the maze from a random cell.
    pub fn prim_percent(&self) -> (r: u8)
        ensures
            r == self@.prim_percent,
    {
        self.prim_percent
    }

    /// Whether paths wrap around the edges.
    pub fn wrap(&self) -> (r: bool)
        ensures
            r == self@.wrap,
    {
        self.wrap
    }
}

} // verus!
