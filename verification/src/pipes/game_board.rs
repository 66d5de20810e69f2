//! The pipe parts and the board that they lie on.

use super::direction::{strictly_ordered, Direction};
use super::marks::{in_square, on_stack, Marks};
use super::maze::{lemma_perfect_maze_links_all, random_below, step, Maze, MazeCell, MazeView};
use super::wrapper::{spec_wrap_val, wrap_val};
use vstd::prelude::*;

verus! {

/// The shape of a pipe part.
#[derive(Clone, Copy, Debug, PartialEq, Eq, Structural)]
pub enum PipeType {
    DeadEnd,
    Straight,
    Elbow,
    Tee,
    Cross,
}

/// How far a pipe part is turned.
#[derive(Clone, Copy, Debug, PartialEq, Eq, Structural)]
pub enum Rotation {
    /// Not turned.
    R0,
    /// A quarter turn clockwise.
    RR,
    /// A half turn.
    R2,
    /// A quarter turn counter-clockwise.
    RL,
}

/// A pipe part: a shape and how far it is turned.
#[derive(Clone, Copy, Debug, PartialEq, Eq, Structural)]
pub struct PipePart {
    pub pipe_type: PipeType,
    pub rotation: Rotation,
}

impl Rotation {
    /// The rotation a quarter turn clockwise from this one.
    pub open spec fn spec_next(self) -> Rotation {
        match self {
            Rotation::R0 => Rotation::RR,
            Rotation::RR => Rotation::R2,
            Rotation::R2 => Rotation::RL,
            Rotation::RL => Rotation::R0,
        }
    }

    /// The four rotations, each a quarter turn clockwise from the one
    /// before.
    pub open spec fn spec_all() -> Seq<Rotation> {
        seq![Rotation::R0, Rotation::RR, Rotation::R2, Rotation::RL]
    }

    /// The rotation a quarter turn clockwise from this one.
    pub fn next(&self) -> (r: Rotation)
        ensures
            r == self.spec_next(),
    {
        match self {
            Rotation::R0 => Rotation::RR,
            Rotation::RR => Rotation::R2,
            Rotation::R2 => Rotation::RL,
            Rotation::RL => Rotation::R0,
        }
    }

    /// The four rotations: `R0`, `RR`, `R2`, `RL`.
    pub fn iter() -> (r: [Rotation; 4])
        ensures
            r@ == Self::spec_all(),
    {
        let r = [Rotation::R0, Rotation::RR, Rotation::R2, Rotation::RL];
        assert(r@ =~= Self::spec_all());
        r
    }

    /// Four quarter turns lead back.
    pub proof fn lemma_four_turns(self)
        ensures
            self.spec_next().spec_next().spec_next().spec_next() == self,
    {
    }
}

impl PipeType {
    /// The five shapes, from the fewest openings to the most.
    pub open spec fn spec_all() -> Seq<PipeType> {
        seq![PipeType::DeadEnd, PipeType::Straight, PipeType::Elbow, PipeType::Tee, PipeType::Cross]
    }

    /// The directions in which a part of this shape, turned by `rot`, is
    /// open.
    pub open spec fn spec_get_directions(self, rot: Rotation) -> Seq<Direction> {
        match self {
            PipeType::DeadEnd => match rot {
                Rotation::R0 => seq![Direction::Up],
                Rotation::RR => seq![Direction::Right],
                Rotation::R2 => seq![Direction::Down],
                Rotation::RL => seq![Direction::Left],
            },
            PipeType::Straight => match rot {
                Rotation::R0 => seq![Direction::Up, Direction::Down],
                Rotation::RR => seq![Direction::Left, Direction::Right],
                Rotation::R2 => seq![Direction::Up, Direction::Down],
                Rotation::RL => seq![Direction::Left, Direction::Right],
            },
            PipeType::Elbow => match rot {
                Rotation::R0 => seq![Direction::Up, Direction::Right],
                Rotation::RR => seq![Direction::Down, Direction::Right],
                Rotation::R2 => seq![Direction::Down, Direction::Left],
                Rotation::RL => seq![Direction::Up, Direction::Left],
            },
            PipeType::Tee => match rot {
                Rotation::R0 => seq![Direction::Up, Direction::Left, Direction::Right],
                Rotation::RR => seq![Direction::Up, Direction::Down, Direction::Right],
                Rotation::R2 => seq![Direction::Down, Direction::Left, Direction::Right],
                Rotation::RL => seq![Direction::Up, Direction::Down, Direction::Left],
            },
            PipeType::Cross => seq![
                Direction::Up,
                Direction::Down,
                Direction::Left,
                Direction::Right,
            ],
        }
    }

    /// The directions in which a part of this shape, turned by `rot`, is
    /// open.
    pub fn get_directions(&self, rot: Rotation) -> (r: Vec<Direction>)
        ensures
            r@ == self.spec_get_directions(rot),
    {
        let r = match self {
            PipeType::DeadEnd => match rot {
                Rotation::R0 => vec![Direction::Up],
                Rotation::RR => vec![Direction::Right],
                Rotation::R2 => vec![Direction::Down],
                Rotation::RL => vec![Direction::Left],
            },
            PipeType::Straight => match rot {
                Rotation::R0 => vec![Direction::Up, Direction::Down],
                Rotation::RR => vec![Direction::Left, Direction::Right],
                Rotation::R2 => vec![Direction::Up, Direction::Down],
                Rotation::RL => vec![Direction::Left, Direction::Right],
            },
            PipeType::Elbow => match rot {
                Rotation::R0 => vec![Direction::Up, Direction::Right],
                Rotation::RR => vec![Direction::Down, Direction::Right],
                Rotation::R2 => vec![Direction::Down, Direction::Left],
                Rotation::RL => vec![Direction::Up, Direction::Left],
            },
            PipeType::Tee => match rot {
                Rotation::R0 => vec![Direction::Up, Direction::Left, Direction::Right],
                Rotation::RR => vec![Direction::Up, Direction::Down, Direction::Right],
                Rotation::R2 => vec![Direction::Down, Direction::Left, Direction::Right],
                Rotation::RL => vec![Direction::Up, Direction::Down, Direction::Left],
            },
            PipeType::Cross => vec![
                Direction::Up,
                Direction::Down,
                Direction::Left,
                Direction::Right,
            ],
        };
        assert(r@ =~= self.spec_get_directions(rot));
        r
    }

    /// Whether a part of this shape, turned by `rot`, is open in the
    /// direction `direction`.
    pub fn opens(&self, rot: Rotation, direction: Direction) -> (r: bool)
        ensures
            r == self.spec_get_directions(rot).contains(direction),
    {
        let open = self.get_directions(rot);
        let mut i: usize = 0;
        while i < open.len()
            invariant
                i <= open@.len(),
                open@ == self.spec_get_directions(rot),
                forall|k: int| 0 <= k < i ==> open@[k] != direction,
            decreases open@.len() - i,
        {
            if open[i] == direction {
                return true;
            }
            i += 1;
        }
        false
    }
}

/// Part number `k` in the order in which a maze cell is matched against the
/// parts: shape by shape, and for each shape rotation by rotation.
pub open spec fn part_at(k: int) -> PipePart {
    PipePart { pipe_type: PipeType::spec_all()[k / 4], rotation: Rotation::spec_all()[k % 4] }
}

impl PipePart {
    /// The directions in which the part is open.
    pub open spec fn spec_get_directions(self) -> Seq<Direction> {
        self.pipe_type.spec_get_directions(self.rotation)
    }

    /// Whether the part is open in the direction `direction`.
    pub open spec fn spec_opens(self, direction: Direction) -> bool {
        self.spec_get_directions().contains(direction)
    }

    /// Whether part number `k` is the first that is open in exactly the
    /// directions `connections`, in their order.
    pub open spec fn first_match(connections: Seq<Direction>, k: int) -> bool {
        &&& 0 <= k < 20
        &&& part_at(k).spec_get_directions() == connections
        &&& forall|j: int| 0 <= j < k ==> part_at(j).spec_get_directions() != connections
    }

    /// Whether a maze cell with the passages `connections` has a part: one
    /// that is open in exactly those directions.
    pub open spec fn fits(connections: Seq<Direction>) -> bool {
        exists|k: int| Self::first_match(connections, k)
    }

    /// The part for a maze cell with the passages `connections`: the first
    /// part that is open in exactly those directions.
    pub open spec fn spec_from(connections: Seq<Direction>) -> PipePart {
        part_at(choose|k: int| Self::first_match(connections, k))
    }

    /// The directions in which the part is open.
    pub fn get_directions(&self) -> (r: Vec<Direction>)
        ensures
            r@ == self.spec_get_directions(),
    {
        self.pipe_type.get_directions(self.rotation)
    }

    /// Whether the part is open in the direction `direction`.
    pub fn opens(&self, direction: Direction) -> (r: bool)
        ensures
            r == self.spec_opens(direction),
    {
        self.pipe_type.opens(self.rotation, direction)
    }

    fn same(a: &Vec<Direction>, b: &Vec<Direction>) -> (r: bool)
        ensures
            r == (a@ == b@),
    {
        if a.len() != b.len() {
            return false;
        }
        let mut i: usize = 0;
        while i < a.len()
            invariant
                i <= a@.len(),
                a@.len() == b@.len(),
                forall|k: int| 0 <= k < i ==> a@[k] == b@[k],
            decreases a@.len() - i,
        {
            if a[i] != b[i] {
                return false;
            }
            i += 1;
        }
        assert(a@ =~= b@);
        true
    }

    /// The part for the maze cell `value`: the first part, shape by shape
    /// and rotation by rotation, that is open in exactly the directions of
    /// the cell's passages. The cell has such a part.
    pub fn from(value: &MazeCell) -> (part: PipePart)
        requires
            Self::fits(value.connections@),
        ensures
            part == Self::spec_from(value.connections@),
            part.spec_get_directions() == value.connections@,
    {
        let types = [
            PipeType::DeadEnd,
            PipeType::Straight,
            PipeType::Elbow,
            PipeType::Tee,
            PipeType::Cross,
        ];
        let rotations = Rotation::iter();
        assert(types@ =~= PipeType::spec_all());
        let ghost wanted = value.connections@;
        let mut t: usize = 0;
        while t < 5
            invariant
                t <= 5,
                types@ == PipeType::spec_all(),
                rotations@ == Rotation::spec_all(),
                wanted == value.connections@,
                forall|j: int| 0 <= j < 4 * t ==> part_at(j).spec_get_directions() != wanted,
            decreases 5 - t,
        {
            let mut r: usize = 0;
            while r < 4
                invariant
                    t < 5,
                    r <= 4,
                    types@ == PipeType::spec_all(),
                    rotations@ == Rotation::spec_all(),
                    wanted == value.connections@,
                    forall|j: int|
                        0 <= j < 4 * t + r ==> part_at(j).spec_get_directions() != wanted,
                decreases 4 - r,
            {
                let open = types[t].get_directions(rotations[r]);
                assert(part_at(4 * t + r) == (PipePart {
                    pipe_type: types@[t as int],
                    rotation: rotations@[r as int],
                }));
                if Self::same(&open, &value.connections) {
                    proof {
                        assert(Self::first_match(wanted, 4 * t + r));
                        let k = choose|k: int| Self::first_match(wanted, k);
                        assert(k == 4 * t + r);
                    }
                    return PipePart { pipe_type: types[t], rotation: rotations[r] };
                }
                r += 1;
            }
            t += 1;
        }
        proof {
            let k = choose|k: int| Self::first_match(wanted, k);
            assert(part_at(k).spec_get_directions() == wanted);
        }
        vstd::pervasive::unreached()
    }
}

/// Every set of passages that is in order, without a direction twice, and
/// not empty has its pipe part.
pub proof fn lemma_ordered_cell_has_part(connections: Seq<Direction>)
    requires
        connections.len() > 0,
        strictly_ordered(connections),
    ensures
        PipePart::fits(connections),
{
    lemma_some_part_matches(connections);
    let m = choose|m: int| 0 <= m < 20 && part_at(m).spec_get_directions() == connections;
    lemma_least_match(connections, m);
}

proof fn lemma_least_match(connections: Seq<Direction>, m: int)
    requires
        0 <= m < 20,
        part_at(m).spec_get_directions() == connections,
    ensures
        exists|k: int| PipePart::first_match(connections, k),
    decreases m,
{
    if forall|j: int| 0 <= j < m ==> part_at(j).spec_get_directions() != connections {
        assert(PipePart::first_match(connections, m));
    } else {
        let j = choose|j: int| 0 <= j < m && part_at(j).spec_get_directions() == connections;
        lemma_least_match(connections, j);
    }
}

proof fn lemma_some_part_matches(c: Seq<Direction>)
    requires
        c.len() > 0,
        strictly_ordered(c),
    ensures
        exists|m: int| 0 <= m < 20 && part_at(m).spec_get_directions() == c,
{
    assert(c.len() <= 4) by {
        if c.len() >= 5 {
            assert(c[0].rank() < c[1].rank() < c[2].rank() < c[3].rank() < c[4].rank());
        }
    }
    let u = Direction::Up;
    let d = Direction::Down;
    let l = Direction::Left;
    let r = Direction::Right;
    if c.len() == 1 {
        let m: int = if c[0] == u {
            0
        } else if c[0] == r {
            1
        } else if c[0] == d {
            2
        } else {
            3
        };
        assert(part_at(m).spec_get_directions() =~= c);
    } else if c.len() == 2 {
        assert(c[0].rank() < c[1].rank());
        let m: int = if c[0] == u && c[1] == d {
            4
        } else if c[0] == l && c[1] == r {
            5
        } else if c[0] == u && c[1] == r {
            8
        } else if c[0] == d && c[1] == r {
            9
        } else if c[0] == d && c[1] == l {
            10
        } else {
            11
        };
        assert(part_at(m).spec_get_directions() =~= c);
    } else if c.len() == 3 {
        assert(c[0].rank() < c[1].rank() < c[2].rank());
        let m: int = if c[0] == u && c[1] == l {
            12
        } else if c[0] == u && c[2] == r {
            13
        } else if c[0] == d {
            14
        } else {
            15
        };
        assert(part_at(m).spec_get_directions() =~= c);
    } else {
        assert(c[0].rank() < c[1].rank() < c[2].rank() < c[3].rank());
        assert(part_at(16).spec_get_directions() =~= c);
    }
}

/// The grid of pipe parts as the contracts see it: rows from the first on.
pub type Parts = Seq<Seq<PipePart>>;

/// Whether `grid` is a square of at least one cell whose side fits an `i32`.
pub open spec fn square(grid: Parts) -> bool {
    &&& 0 < grid.len() <= i32::MAX
    &&& forall|y: int| 0 <= y < grid.len() ==> (#[trigger] grid[y]).len() == grid.len()
}

/// Whether `c`, given as `(x, y)`, is a cell of `grid`.
pub open spec fn on_grid(grid: Parts, c: (int, int)) -> bool {
    0 <= c.0 < grid.len() && 0 <= c.1 < grid.len()
}

/// The cell in the middle of `grid`, where the water comes from.
pub open spec fn center(grid: Parts) -> (int, int) {
    (grid.len() as int / 2, grid.len() as int / 2)
}

/// The cell that the direction `d` leads to from `c`: on a board that wraps,
/// a step over an edge leads to the opposite edge.
pub open spec fn neighbour(grid: Parts, wrap: bool, c: (int, int), d: Direction) -> (int, int) {
    (
        spec_wrap_val(wrap, c.0 + d.spec_offset().0, 0, grid.len() - 1),
        spec_wrap_val(wrap, c.1 + d.spec_offset().1, 0, grid.len() - 1),
    )
}

/// Whether water flows from `c` in the direction `d`: the part at `c` is
/// open that way, the step leads to a cell of the grid, and the part there
/// is open toward `c`.
pub open spec fn joined(grid: Parts, wrap: bool, c: (int, int), d: Direction) -> bool {
    &&& on_grid(grid, c)
    &&& grid[c.1][c.0].spec_opens(d)
    &&& on_grid(grid, neighbour(grid, wrap, c, d))
    &&& grid[neighbour(grid, wrap, c, d).1][neighbour(grid, wrap, c, d).0].spec_opens(
        d.spec_opposite(),
    )
}

/// Whether water flows from `a` to `b` in one step.
pub open spec fn flows(grid: Parts, wrap: bool, a: (int, int), b: (int, int)) -> bool {
    exists|d: Direction| joined(grid, wrap, a, d) && neighbour(grid, wrap, a, d) == b
}

/// Whether `path` leads from the center from cell to cell, water flowing
/// along each step.
pub open spec fn is_path(grid: Parts, wrap: bool, path: Seq<(int, int)>) -> bool {
    &&& path.len() > 0
    &&& path[0] == center(grid)
    &&& forall|i: int|
        0 <= i < path.len() - 1 ==> flows(grid, wrap, #[trigger] path[i], path[i + 1])
}

/// Whether water reaches the cell `c` from the center.
pub open spec fn reachable(grid: Parts, wrap: bool, c: (int, int)) -> bool {
    exists|path: Seq<(int, int)>| is_path(grid, wrap, path) && path.last() == c
}

/// The cells that water reaches: the center and every cell that a path of
/// joined openings leads to. No cell where the grid is empty.
pub open spec fn connected_cells(grid: Parts, wrap: bool) -> Set<(int, int)> {
    Set::new(|c: (int, int)| on_grid(grid, c) && reachable(grid, wrap, c))
}

/// `grid` with the part at `(x, y)` turned a quarter clockwise.
pub open spec fn with_turned(grid: Parts, x: int, y: int) -> Parts {
    grid.update(
        y,
        grid[y].update(
            x,
            PipePart { pipe_type: grid[y][x].pipe_type, rotation: grid[y][x].rotation.spec_next() },
        ),
    )
}

/// The board of the pipe puzzle: the grid of pipe parts, and the cells that
/// water reaches from the center.
#[derive(Debug, Clone)]
pub struct GameBoard {
    grid: Vec<Vec<PipePart>>,
    wrap: bool,
    connected: Marks,
}

/// The board as the contracts see it.
pub struct BoardView {
    pub grid: Parts,
    /// Whether a step over an edge leads to the opposite edge.
    pub wrap: bool,
    /// The cells that are marked as reached by water, each as `(x, y)`.
    pub connected: Set<(int, int)>,
}

impl View for GameBoard {
    type V = BoardView;

    closed spec fn view(&self) -> BoardView {
        BoardView {
            grid: Seq::new(self.grid@.len(), |y: int| self.grid@[y]@),
            wrap: self.wrap,
            connected: self.connected@,
        }
    }
}

impl BoardView {
    /// Whether the grid is empty or a square, and the marked cells are those
    /// that water reaches.
    pub open spec fn wf(self) -> bool {
        &&& self.grid.len() == 0 || square(self.grid)
        &&& self.connected == connected_cells(self.grid, self.wrap)
    }

    /// Whether water reaches every cell.
    pub open spec fn solved(self) -> bool {
        forall|c: (int, int)| on_grid(self.grid, c) ==> self.connected.contains(c)
    }
}

impl GameBoard {
    /// Whether the marks kept with the grid fit it.
    pub closed spec fn shaped(&self) -> bool {
        self.connected.wf() && self.connected.size() == self.grid@.len()
    }

    /// Whether the board is well formed. Every constructor gives such a
    /// board and every method keeps it so.
    pub open spec fn wf(&self) -> bool {
        self@.wf() && self.shaped()
    }

    /// A board without cells.
    pub fn new() -> (board: GameBoard)
        ensures
            board.wf(),
            board@.grid.len() == 0,
            board@.wrap == false,
            board@.connected == Set::<(int, int)>::empty(),
    {
        let board = GameBoard { grid: Vec::new(), wrap: false, connected: Marks::new(0) };
        assert(board@.connected =~= connected_cells(board@.grid, board@.wrap));
        board
    }

    /// The board of the parts `grid`, which form a square, with the cells
    /// marked that water reaches.
    pub fn from_parts(grid: Vec<Vec<PipePart>>, wrap: bool) -> (board: GameBoard)
        requires
            0 < grid@.len() <= i32::MAX,
            forall|y: int| 0 <= y < grid@.len() ==> (#[trigger] grid@[y])@.len() == grid@.len(),
        ensures
            board.wf(),
            board@.grid == Seq::new(grid@.len(), |y: int| grid@[y]@),
            board@.wrap == wrap,
    {
        let mut board = GameBoard { grid, wrap, connected: Marks::new(0) };
        board.recalculate();
        board
    }

    /// Lays the board out anew for the maze `maze`: each cell gets the part
    /// that is open where passages leave the cell, turned at random, and
    /// the cells that water reaches are marked. The maze is a square of at
    /// least one cell, and each of its cells has a part.
    pub fn generate(&mut self, maze: &Maze)
        requires
            0 < maze@.size() <= i32::MAX,
            maze@.shaped(),
            forall|c: (int, int)|
                in_square(maze@.size(), c) ==> PipePart::fits(#[trigger] maze@.at(c)),
        ensures
            final(self).wf(),
            final(self)@.wrap == maze@.wrap,
            final(self)@.grid.len() == maze@.size(),
            forall|c: (int, int)|
                in_square(maze@.size(), c) ==> (#[trigger] final(self)@.grid[c.1][c.0]).pipe_type
                    == PipePart::spec_from(maze@.at(c)).pipe_type,
    {
        let n: usize = maze.grid.len();
        let rotations = Rotation::iter();
        let mut parts: Vec<Vec<PipePart>> = Vec::new();
        let mut y: usize = 0;
        while y < n
            invariant
                y <= n,
                n == maze@.size(),
                maze@.shaped(),
                rotations@ == Rotation::spec_all(),
                parts@.len() == y,
                forall|c: (int, int)|
                    in_square(maze@.size(), c) ==> PipePart::fits(#[trigger] maze@.at(c)),
                forall|r: int| 0 <= r < y ==> (#[trigger] parts@[r])@.len() == n,
                forall|r: int, k: int|
                    0 <= r < y && 0 <= k < n ==> (#[trigger] parts@[r]@[k]).pipe_type
                        == PipePart::spec_from(maze@.at((k, r))).pipe_type,
            decreases n - y,
        {
            let mut row: Vec<PipePart> = Vec::new();
            let mut x: usize = 0;
            assert(maze@.passages[y as int].len() == n);
            while x < n
                invariant
                    x <= n,
                    y < n,
                    n == maze@.size(),
                    maze@.shaped(),
                    maze.grid@[y as int]@.len() == n,
                    rotations@ == Rotation::spec_all(),
                    row@.len() == x,
                    forall|c: (int, int)|
                        in_square(maze@.size(), c) ==> PipePart::fits(#[trigger] maze@.at(c)),
                    forall|k: int|
                        0 <= k < x ==> (#[trigger] row@[k]).pipe_type == PipePart::spec_from(
                            maze@.at((k, y as int)),
                        ).pipe_type,
                decreases n - x,
            {
                assert(maze@.at((x as int, y as int)) == maze.grid@[y as int]@[x as int].connections@);
                assert(in_square(maze@.size(), (x as int, y as int)));
                let fitting = PipePart::from(&maze.grid[y][x]);
                let turn = random_below(4);
                row.push(PipePart { pipe_type: fitting.pipe_type, rotation: rotations[turn] });
                x += 1;
            }
            parts.push(row);
            y += 1;
        }
        self.wrap = maze.wrap;
        self.grid = parts;
        proof {
            assert forall|r: int| 0 <= r < self@.grid.len() implies (#[trigger] self@.grid[r]).len()
                == self@.grid.len() by {
                assert(self@.grid[r] == parts@[r]@);
            }
        }
        self.recalculate();
    }

    /// The number of rows, which is also the number of columns.
    pub fn size(&self) -> (n: usize)
        ensures
            n == self@.grid.len(),
    {
        self.grid.len()
    }

    /// Whether a step over an edge leads to the opposite edge.
    pub fn wrap(&self) -> (r: bool)
        ensures
            r == self@.wrap,
    {
        self.wrap
    }

    /// The part at column `x` of row `y`.
    pub fn part(&self, x: usize, y: usize) -> (r: PipePart)
        requires
            self.wf(),
            x < self@.grid.len(),
            y < self@.grid.len(),
        ensures
            r == self@.grid[y as int][x as int],
    {
        assert(self@.grid[y as int] == self.grid@[y as int]@);
        self.grid[y][x]
    }

    /// Whether water reaches the cell at column `x` of row `y`. It reaches
    /// no cell off the grid.
    pub fn is_connected(&self, x: usize, y: usize) -> (r: bool)
        requires
            self.wf(),
        ensures
            r == self@.connected.contains((x as int, y as int)),
    {
        self.connected.contains(x, y)
    }

    /// Whether the puzzle is solved: water reaches every cell.
    pub fn is_solved(&self) -> (r: bool)
        requires
            self.wf(),
        ensures
            r == self@.solved(),
    {
        self.connected.is_full()
    }

    fn neighbour_of(&self, x: usize, y: usize, direction: Direction) -> (r: Option<(usize, usize)>)
        requires
            square(self@.grid),
            x < self@.grid.len(),
            y < self@.grid.len(),
        ensures
            r is Some <==> on_grid(
                self@.grid,
                neighbour(self@.grid, self@.wrap, (x as int, y as int), direction),
            ),
            r matches Some(n) ==> (n.0 as int, n.1 as int) == neighbour(
                self@.grid,
                self@.wrap,
                (x as int, y as int),
                direction,
            ),
    {
        let max_val: i32 = self.grid.len() as i32 - 1;
        let (dx, dy) = direction.offset();
        let nx = wrap_val(self.wrap, x as i32 + dx, 0, max_val);
        let ny = wrap_val(self.wrap, y as i32 + dy, 0, max_val);
        if nx < 0 || ny < 0 || nx > max_val || ny > max_val {
            return None;
        }
        Some((nx as usize, ny as usize))
    }

    /// Turns the part at column `x` of row `y` a quarter clockwise and marks
    /// anew the cells that water reaches.
    pub fn rotate(&mut self, x: usize, y: usize)
        requires
            old(self).wf(),
            x < old(self)@.grid.len(),
            y < old(self)@.grid.len(),
        ensures
            final(self).wf(),
            final(self)@.grid == with_turned(old(self)@.grid, x as int, y as int),
            final(self)@.wrap == old(self)@.wrap,
    {
        let ghost before = self@.grid;
        assert(before[y as int] == self.grid@[y as int]@);
        let part = self.grid[y][x];
        self.grid[y][x] = PipePart { pipe_type: part.pipe_type, rotation: part.rotation.next() };
        assert(self@.grid =~= with_turned(before, x as int, y as int)) by {
            assert forall|k: int| 0 <= k < before.len() implies #[trigger] self@.grid[k]
                =~= with_turned(before, x as int, y as int)[k] by {
                assert(before[k] == old(self).grid@[k]@);
            }
        }
        assert(square(self@.grid)) by {
            assert forall|k: int| 0 <= k < self@.grid.len() implies (#[trigger] self@.grid[k]).len()
                == self@.grid.len() by {
                assert(before[k].len() == before.len());
            }
        }
        self.recalculate();
    }

    /// Marks anew the cells that water reaches from the center, whatever was
    /// marked before: afterwards the marked cells are the center and every
    /// cell that a path of joined openings leads to, and no other. Grid and
    /// wrapping stay as they are. The grid is empty or a square.
    pub fn recalculate_connected(&mut self)
        requires
            old(self)@.grid.len() == 0 || square(old(self)@.grid),
        ensures
            final(self).wf(),
            final(self)@.grid == old(self)@.grid,
            final(self)@.wrap == old(self)@.wrap,
            final(self)@.connected == connected_cells(old(self)@.grid, old(self)@.wrap),
            old(self).wf() ==> final(self)@ == old(self)@,
    {
        if self.grid.len() > 0 {
            self.recalculate();
        } else {
            self.connected = Marks::new(0);
            assert(self@.connected =~= connected_cells(self@.grid, self@.wrap));
        }
    }

    fn recalculate(&mut self)
        requires
            square(old(self)@.grid),
        ensures
            final(self).wf(),
            final(self)@.grid == old(self)@.grid,
            final(self)@.wrap == old(self)@.wrap,
    {
        let n: usize = self.grid.len();
        let ghost grid = self@.grid;
        let ghost wrap = self@.wrap;
        let ghost cells: int = n as int * n as int;
        self.connected = Marks::new(n);
        assert(cells == n * n) by (nonlinear_arith)
            requires
                cells == n as int * n as int,
        ;
        let mid: usize = n / 2;
        self.connected.insert(mid, mid);
        let mut stack: Vec<(usize, usize)> = Vec::new();
        stack.push((mid, mid));
        proof {
            assert(is_path(grid, wrap, seq![center(grid)]));
            assert(seq![center(grid)].last() == center(grid));
            assert(reachable(grid, wrap, center(grid)));
            assert(stack@[0] == (mid, mid));
            assert(on_stack(stack@, center(grid)));
        }
        while stack.len() > 0
            invariant
                n == grid.len(),
                cells == n as int * n as int,
                square(grid),
                self@.grid == grid,
                self@.wrap == wrap,
                self.shaped(),
                self.connected.total() <= cells,
                flooding(grid, wrap, self@.connected, stack@, None),
            decreases 2 * (cells - self.connected.total()) + stack@.len(),
        {
            let ghost full = stack@;
            let (x, y) = stack.pop().unwrap();
            proof {
                let here = (x as int, y as int);
                assert(full[full.len() - 1] == (x, y));
                assert forall|c: (int, int)| on_stack(full, c) && c != here implies on_stack(
                    stack@,
                    c,
                ) by {
                    let i = choose|i: int|
                        0 <= i < full.len() && (full[i].0 as int, full[i].1 as int) == c;
                    assert(stack@[i] == full[i]);
                }
                assert forall|i: int| 0 <= i < stack@.len() implies self@.connected.contains(
                    ((#[trigger] stack@[i]).0 as int, stack@[i].1 as int),
                ) by {
                    assert(stack@[i] == full[i]);
                }
            }
            self.spread(x, y, &mut stack, Ghost(grid));
        }
        proof {
            assert forall|c: (int, int)| on_grid(grid, c) && reachable(grid, wrap, c) implies self@.connected.contains(
                c,
            ) by {
                let path = choose|path: Seq<(int, int)>|
                    is_path(grid, wrap, path) && path.last() == c;
                assert forall|a: (int, int), d: Direction|
                    self@.connected.contains(a) && #[trigger] joined(grid, wrap, a, d) implies self@.connected.contains(
                    neighbour(grid, wrap, a, d),
                ) by {
                    assert(!on_stack(stack@, a));
                }
                lemma_closed_holds_paths(grid, wrap, self@.connected, path, path.len() - 1);
            }
            assert(self@.connected =~= connected_cells(grid, wrap));
        }
    }

    fn spread(&mut self, x: usize, y: usize, stack: &mut Vec<(usize, usize)>, Ghost(grid): Ghost<
        Parts,
    >)
        requires
            square(grid),
            old(self)@.grid == grid,
            old(self).shaped(),
            x < grid.len(),
            y < grid.len(),
            old(self)@.connected.contains((x as int, y as int)),
            flooding(
                grid,
                old(self)@.wrap,
                old(self)@.connected,
                old(stack)@,
                Some((x as int, y as int)),
            ),
        ensures
            final(self)@.grid == grid,
            final(self)@.wrap == old(self)@.wrap,
            final(self).shaped(),
            final(self).connected.total() <= grid.len() * grid.len(),
            final(stack)@.len() >= old(stack)@.len(),
            final(self).connected.total() - old(self).connected.total() == final(stack)@.len()
                - old(stack)@.len(),
            flooding(grid, final(self)@.wrap, final(self)@.connected, final(stack)@, None),
    {
        let ghost wrap = self@.wrap;
        let ghost here = (x as int, y as int);
        let ghost rest = stack@;
        let dirs = Direction::iter();
        let mut k: usize = 0;
        proof {
            self.connected.lemma_bounds();
        }
        while k < 4
            invariant
                k <= 4,
                dirs@ == Direction::spec_all(),
                square(grid),
                here == (x as int, y as int),
                on_grid(grid, here),
                self@.grid == grid,
                self@.wrap == wrap,
                self.shaped(),
                self.connected.total() <= grid.len() * grid.len(),
                stack@.len() >= rest.len(),
                self.connected.total() - old(self).connected.total() == stack@.len() - rest.len(),
                self@.connected.contains(here),
                flooding(grid, wrap, self@.connected, stack@, Some(here)),
                forall|d: Direction|
                    d.rank() < k && #[trigger] joined(grid, wrap, here, d)
                        ==> self@.connected.contains(neighbour(grid, wrap, here, d)),
            decreases 4 - k,
        {
            let direction = dirs[k];
            assert(direction.rank() == k);
            assert(grid[y as int] == self.grid@[y as int]@);
            if self.grid[y][x].opens(direction) {
                match self.neighbour_of(x, y, direction) {
                    Some((nx, ny)) => {
                        assert(grid[ny as int] == self.grid@[ny as int]@);
                        if !self.connected.contains(nx, ny) && self.grid[ny][nx].opens(
                            direction.opposite(),
                        ) {
                            let ghost stack_before = stack@;
                            let ghost marked_before = self@.connected;
                            self.connected.insert(nx, ny);
                            stack.push((nx, ny));
                            proof {
                                let next = (nx as int, ny as int);
                                assert(joined(grid, wrap, here, direction));
                                lemma_reachable_step(grid, wrap, here, direction);
                                lemma_flooding_grows(
                                    grid,
                                    wrap,
                                    marked_before,
                                    stack_before,
                                    here,
                                    (nx, ny),
                                );
                            }
                        }
                    },
                    None => {},
                }
            }
            k += 1;
        }
        proof {
            assert forall|c: (int, int), d: Direction|
                self@.connected.contains(c) && #[trigger] joined(grid, wrap, c, d) implies on_stack(
                    stack@,
                    c,
                ) || self@.connected.contains(neighbour(grid, wrap, c, d)) by {
                if c == here {
                    assert(d.rank() < 4);
                }
            }
        }
    }
}

/// What holds of the marked cells while water spreads: the center is
/// marked; every marked cell is a cell that water reaches; every cell on the
/// stack is marked; and from every marked cell, but for the cell `skip` that
/// is being looked at, water flows only to marked cells, unless the cell is
/// still on the stack.
pub open spec fn flooding(
    grid: Parts,
    wrap: bool,
    marked: Set<(int, int)>,
    stack: Seq<(usize, usize)>,
    skip: Option<(int, int)>,
) -> bool {
    &&& marked.contains(center(grid))
    &&& forall|c: (int, int)|
        #[trigger] marked.contains(c) ==> on_grid(grid, c) && reachable(grid, wrap, c)
    &&& forall|i: int|
        0 <= i < stack.len() ==> marked.contains(
            ((#[trigger] stack[i]).0 as int, stack[i].1 as int),
        )
    &&& forall|c: (int, int), d: Direction|
        marked.contains(c) && Some(c) != skip && #[trigger] joined(grid, wrap, c, d) ==> on_stack(
            stack,
            c,
        ) || marked.contains(neighbour(grid, wrap, c, d))
}

/// Marking a cell that water reaches, and putting it on the stack, keeps
/// what holds while water spreads.
proof fn lemma_flooding_grows(
    grid: Parts,
    wrap: bool,
    marked: Set<(int, int)>,
    stack: Seq<(usize, usize)>,
    here: (int, int),
    next: (usize, usize),
)
    requires
        flooding(grid, wrap, marked, stack, Some(here)),
        on_grid(grid, (next.0 as int, next.1 as int)),
        reachable(grid, wrap, (next.0 as int, next.1 as int)),
    ensures
        flooding(
            grid,
            wrap,
            marked.insert((next.0 as int, next.1 as int)),
            stack.push(next),
            Some(here),
        ),
{
    let cell = (next.0 as int, next.1 as int);
    let grown = stack.push(next);
    assert forall|c: (int, int)| on_stack(stack, c) implies on_stack(grown, c) by {
        let i = choose|i: int| 0 <= i < stack.len() && (stack[i].0 as int, stack[i].1 as int) == c;
        assert(grown[i] == stack[i]);
    }
    assert(grown[grown.len() - 1] == next);
    assert(on_stack(grown, cell));
    assert forall|i: int| 0 <= i < grown.len() implies marked.insert(cell).contains(
        ((#[trigger] grown[i]).0 as int, grown[i].1 as int),
    ) by {
        if i < stack.len() {
            assert(grown[i] == stack[i]);
        }
    }
}

/// A cell that water flows to from a reachable cell is reachable.
pub proof fn lemma_reachable_step(grid: Parts, wrap: bool, c: (int, int), d: Direction)
    requires
        reachable(grid, wrap, c),
        joined(grid, wrap, c, d),
    ensures
        reachable(grid, wrap, neighbour(grid, wrap, c, d)),
{
    let path = choose|path: Seq<(int, int)>| is_path(grid, wrap, path) && path.last() == c;
    let next = neighbour(grid, wrap, c, d);
    let longer = path.push(next);
    assert forall|i: int| 0 <= i < longer.len() - 1 implies flows(
        grid,
        wrap,
        #[trigger] longer[i],
        longer[i + 1],
    ) by {
        if i < path.len() - 1 {
            assert(flows(grid, wrap, path[i], path[i + 1]));
        } else {
            assert(longer[i] == c);
        }
    }
    assert(is_path(grid, wrap, longer));
    assert(longer.last() == next);
}

/// A set of cells that holds the center and, with each cell, the cells that
/// water flows to from it, holds every cell of every path.
proof fn lemma_closed_holds_paths(
    grid: Parts,
    wrap: bool,
    cells: Set<(int, int)>,
    path: Seq<(int, int)>,
    i: int,
)
    requires
        is_path(grid, wrap, path),
        0 <= i < path.len(),
        cells.contains(center(grid)),
        forall|c: (int, int), d: Direction|
            cells.contains(c) && #[trigger] joined(grid, wrap, c, d) ==> cells.contains(
                neighbour(grid, wrap, c, d),
            ),
    ensures
        cells.contains(path[i]),
    decreases i,
{
    if i > 0 {
        lemma_closed_holds_paths(grid, wrap, cells, path, i - 1);
        assert(flows(grid, wrap, path[i - 1], path[i - 1 + 1]));
    }
}

/// In a perfect maze of more than one cell every cell has its pipe part.
pub proof fn lemma_perfect_maze_has_parts(m: MazeView)
    requires
        m.perfect(),
        m.size() >= 2,
    ensures
        forall|c: (int, int)| in_square(m.size(), c) ==> PipePart::fits(#[trigger] m.at(c)),
{
    let start = choose|start: (int, int)|
        in_square(m.size(), start) && forall|c: (int, int)|
            in_square(m.size(), c) ==> #[trigger] m.linked(start, c);
    assert forall|c: (int, int)| in_square(m.size(), c) implies PipePart::fits(
        #[trigger] m.at(c),
    ) by {
        let other = if c == start {
            if start.0 == 0 {
                (1int, start.1)
            } else {
                (0int, start.1)
            }
        } else {
            c
        };
        assert(m.linked(start, other));
        let walk = choose|walk: Seq<(int, int)>| m.is_walk(walk, start) && walk.last() == other;
        assert(walk.len() >= 2);
        if c == start {
            assert(m.leads(walk[0], walk[0int + 1]));
            let d = choose|d: Direction|
                m.has(walk[0], d) && step(m.size(), m.wrap, walk[0], d) == walk[1];
            assert(m.at(c).contains(d));
        } else {
            let i = walk.len() - 2;
            assert(m.leads(walk[i], walk[i + 1]));
            let d = choose|d: Direction|
                m.has(walk[i], d) && step(m.size(), m.wrap, walk[i], d) == walk[i + 1];
            assert(m.at(c).contains(d.spec_opposite()));
        }
        assert(m.at(c).len() > 0);
        assert(strictly_ordered(m.at(c)));
        lemma_ordered_cell_has_part(m.at(c));
    }
}

/// Whether the parts of `grid` lie as the maze `m` has its passages: each
/// part is open in exactly the directions in which passages leave its cell.
pub open spec fn laid_out(grid: Parts, m: MazeView) -> bool {
    &&& grid.len() == m.size()
    &&& square(grid)
    &&& forall|c: (int, int)|
        in_square(m.size(), c) ==> (#[trigger] grid[c.1][c.0]).spec_get_directions() == m.at(c)
}

/// The puzzle can be solved: on a board whose parts lie as a perfect maze
/// has its passages, water reaches every cell.
pub proof fn lemma_maze_layout_is_solved(grid: Parts, m: MazeView, c: (int, int))
    requires
        m.perfect(),
        laid_out(grid, m),
        on_grid(grid, c),
    ensures
        connected_cells(grid, m.wrap).contains(c),
{
    lemma_perfect_maze_links_all(m, center(grid), c);
    let walk = choose|walk: Seq<(int, int)>| m.is_walk(walk, center(grid)) && walk.last() == c;
    assert forall|i: int| 0 <= i < walk.len() - 1 implies flows(
        grid,
        m.wrap,
        #[trigger] walk[i],
        walk[i + 1],
    ) by {
        let here = walk[i];
        let next = walk[i + 1];
        assert(m.leads(here, next));
        let d = choose|d: Direction| m.has(here, d) && step(m.size(), m.wrap, here, d) == next;
        assert(neighbour(grid, m.wrap, here, d) == next);
        assert(grid[here.1][here.0].spec_get_directions() == m.at(here));
        assert(in_square(m.size(), next));
        assert(grid[next.1][next.0].spec_get_directions() == m.at(next));
        assert(joined(grid, m.wrap, here, d));
    }
    assert(is_path(grid, m.wrap, walk));
}

} // verus!
