//! The piece catalog: piece types, rotation states, and the per-type tables
//! of spawn cells, rotation centers and wall-kick test offsets.

use vstd::prelude::*;

verus! {

/// One of the four orientations of a piece.
#[derive(Debug, Copy, Clone, PartialEq, Eq, Hash, Structural)]
pub enum Rotation {
    /// The orientation a piece is spawned in.
    R0,
    /// A quarter turn clockwise from the spawned orientation.
    RR,
    /// A half turn.
    R2,
    /// A quarter turn counter-clockwise from the spawned orientation.
    RL,
}

/// One of the seven pieces.
#[derive(Debug, Clone, Copy, PartialEq, Eq, Hash, Structural)]
pub enum FigureType {
    O,
    I,
    S,
    Z,
    L,
    J,
    T,
}

/// A cell of the grid. `y` grows upward.
#[derive(Debug, Clone, Copy, PartialEq, Eq, Hash, Structural)]
pub struct GridPosition {
    pub x: i32,
    pub y: i32,
}

impl View for GridPosition {
    type V = (int, int);

    open spec fn view(&self) -> (int, int) {
        (self.x as int, self.y as int)
    }
}

impl Rotation {
    /// The orientation a quarter turn counter-clockwise from this one.
    pub open spec fn spec_left(self) -> Rotation {
        match self {
            Rotation::R0 => Rotation::RL,
            Rotation::RL => Rotation::R2,
            Rotation::R2 => Rotation::RR,
            Rotation::RR => Rotation::R0,
        }
    }

    /// The orientation a quarter turn clockwise from this one.
    pub open spec fn spec_right(self) -> Rotation {
        match self {
            Rotation::R0 => Rotation::RR,
            Rotation::RR => Rotation::R2,
            Rotation::R2 => Rotation::RL,
            Rotation::RL => Rotation::R0,
        }
    }

    /// The number of clockwise quarter turns that lead from the spawned
    /// orientation to this one.
    pub open spec fn quarter_turns(self) -> int {
        match self {
            Rotation::R0 => 0,
            Rotation::RR => 1,
            Rotation::R2 => 2,
            Rotation::RL => 3,
        }
    }

    pub fn left(&self) -> (r: Rotation)
        ensures
            r == self.spec_left(),
    {
        match self {
            Rotation::R0 => Rotation::RL,
            Rotation::RL => Rotation::R2,
            Rotation::R2 => Rotation::RR,
            Rotation::RR => Rotation::R0,
        }
    }

    pub fn right(&self) -> (r: Rotation)
        ensures
            r == self.spec_right(),
    {
        match self {
            Rotation::R0 => Rotation::RR,
            Rotation::RR => Rotation::R2,
            Rotation::R2 => Rotation::RL,
            Rotation::RL => Rotation::R0,
        }
    }

    /// `left` and `right` are inverse to each other, and each returns to its
    /// start after four steps.
    pub proof fn lemma_cyclic(self)
        ensures
            self.spec_left().spec_right() == self,
            self.spec_right().spec_left() == self,
            self.spec_right().spec_right().spec_right().spec_right() == self,
            self.spec_left().spec_left().spec_left().spec_left() == self,
            self.spec_right().quarter_turns() == (self.quarter_turns() + 1) % 4,
            self.spec_left().quarter_turns() == (self.quarter_turns() + 3) % 4,
    {
    }
}

impl FigureType {
    /// The seven piece types, in catalog order.
    pub open spec fn spec_all() -> Seq<FigureType> {
        seq![
            FigureType::O,
            FigureType::I,
            FigureType::S,
            FigureType::Z,
            FigureType::L,
            FigureType::J,
            FigureType::T,
        ]
    }

    /// The place of this type in catalog order.
    pub open spec fn index(self) -> int {
        match self {
            FigureType::O => 0,
            FigureType::I => 1,
            FigureType::S => 2,
            FigureType::Z => 3,
            FigureType::L => 4,
            FigureType::J => 5,
            FigureType::T => 6,
        }
    }

    /// The four cells of the piece in its spawned orientation, relative to
    /// the spawn anchor.
    pub open spec fn spec_to_dots(self) -> Seq<(i32, i32)> {
        match self {
            FigureType::O => seq![(0i32, 0i32), (1i32, 0i32), (0i32, 1i32), (1i32, 1i32)],
            FigureType::I => seq![(0i32, 0i32), (1i32, 0i32), (2i32, 0i32), (3i32, 0i32)],
            FigureType::S => seq![(0i32, 0i32), (1i32, 0i32), (1i32, 1i32), (2i32, 1i32)],
            FigureType::Z => seq![(1i32, 0i32), (2i32, 0i32), (0i32, 1i32), (1i32, 1i32)],
            FigureType::L => seq![(2i32, 1i32), (0i32, 0i32), (1i32, 0i32), (2i32, 0i32)],
            FigureType::J => seq![(0i32, 1i32), (0i32, 0i32), (1i32, 0i32), (2i32, 0i32)],
            FigureType::T => seq![(0i32, 0i32), (1i32, 0i32), (2i32, 0i32), (1i32, 1i32)],
        }
    }

    /// The center of rotation of the piece in orientation `rot`, relative to
    /// the lower left corner of its bounding box.
    pub open spec fn spec_center_point(self, rot: Rotation) -> (i32, i32) {
        match self {
            FigureType::O => match rot {
                Rotation::R0 => (0i32, 0i32),
                Rotation::RR => (0i32, 1i32),
                Rotation::R2 => (1i32, 1i32),
                Rotation::RL => (1i32, 0i32),
            },
            FigureType::I => match rot {
                Rotation::R0 => (1i32, 0i32),
                Rotation::RR => (0i32, 2i32),
                Rotation::R2 => (2i32, 0i32),
                Rotation::RL => (0i32, 1i32),
            },
            _ => match rot {
                Rotation::R0 => (1i32, 0i32),
                Rotation::RR => (0i32, 1i32),
                Rotation::R2 => (1i32, 1i32),
                Rotation::RL => (1i32, 1i32),
            },
        }
    }

    /// The test offsets of the piece for the single orientation `rot`: one
    /// entry for `O`, five for every other type.
    pub open spec fn spec_tests_for_single_rot(self, rot: Rotation) -> Seq<(i32, i32)> {
        match self {
            FigureType::O => match rot {
                Rotation::R0 => seq![(0i32, 0i32)],
                Rotation::RR => seq![(0i32, -1i32)],
                Rotation::R2 => seq![(-1i32, -1i32)],
                Rotation::RL => seq![(-1i32, 0i32)],
            },
            FigureType::I => match rot {
                Rotation::R0 => seq![
                    (0i32, 0i32),
                    (-1i32, 0i32),
                    (2i32, 0i32),
                    (-1i32, 0i32),
                    (2i32, 0i32),
                ],
                Rotation::RR => seq![
                    (-1i32, 0i32),
                    (0i32, 0i32),
                    (0i32, 0i32),
                    (0i32, 1i32),
                    (0i32, -2i32),
                ],
                Rotation::R2 => seq![
                    (-1i32, 1i32),
                    (1i32, 1i32),
                    (-2i32, 1i32),
                    (1i32, 0i32),
                    (-2i32, 0i32),
                ],
                Rotation::RL => seq![
                    (0i32, 1i32),
                    (0i32, 1i32),
                    (0i32, 1i32),
                    (0i32, -1i32),
                    (0i32, 2i32),
                ],
            },
            _ => match rot {
                Rotation::R0 => seq![
                    (0i32, 0i32),
                    (0i32, 0i32),
                    (0i32, 0i32),
                    (0i32, 0i32),
                    (0i32, 0i32),
                ],
                Rotation::RR => seq![
                    (0i32, 0i32),
                    (1i32, 0i32),
                    (1i32, -1i32),
                    (0i32, 2i32),
                    (1i32, 2i32),
                ],
                Rotation::R2 => seq![
                    (0i32, 0i32),
                    (0i32, 0i32),
                    (0i32, 0i32),
                    (0i32, 0i32),
                    (0i32, 0i32),
                ],
                Rotation::RL => seq![
                    (0i32, 0i32),
                    (-1i32, 0i32),
                    (-1i32, -1i32),
                    (0i32, 2i32),
                    (-1i32, 2i32),
                ],
            },
        }
    }

    /// The number of wall-kick candidates of the piece: 1 for `O`, 5 for
    /// every other type.
    pub open spec fn kick_count(self) -> nat {
        match self {
            FigureType::O => 1,
            _ => 5,
        }
    }

    /// The wall-kick candidates for the turn from `prev` to `next`, in the
    /// order in which they are tried: entry by entry, the test offset of
    /// `prev` minus the test offset of `next`.
    pub open spec fn spec_tests_for_rot(self, prev: Rotation, next: Rotation) -> Seq<(int, int)> {
        Seq::new(
            self.kick_count(),
            |i: int|
                (
                    self.spec_tests_for_single_rot(prev)[i].0 - self.spec_tests_for_single_rot(
                        next,
                    )[i].0,
                    self.spec_tests_for_single_rot(prev)[i].1 - self.spec_tests_for_single_rot(
                        next,
                    )[i].1,
                ),
        )
    }

    /// Every table of test offsets has `kick_count` entries, each within two
    /// cells of the origin.
    pub proof fn lemma_tests_shape(self, rot: Rotation)
        ensures
            self.spec_tests_for_single_rot(rot).len() == self.kick_count(),
            forall|i: int|
                0 <= i < self.kick_count() ==> {
                    &&& -2 <= (#[trigger] self.spec_tests_for_single_rot(rot)[i]).0 <= 2
                    &&& -2 <= self.spec_tests_for_single_rot(rot)[i].1 <= 2
                },
    {
    }

    /// The spawn cells of a piece are four distinct cells within a box of
    /// four by two.
    pub proof fn lemma_dots_shape(self)
        ensures
            self.spec_to_dots().len() == 4,
            forall|i: int|
                0 <= i < 4 ==> {
                    &&& 0 <= (#[trigger] self.spec_to_dots()[i]).0 <= 3
                    &&& 0 <= self.spec_to_dots()[i].1 <= 1
                },
            forall|i: int, j: int|
                0 <= i < j < 4 ==> self.spec_to_dots()[i] != self.spec_to_dots()[j],
    {
    }

    /// All piece types, in catalog order. The bag randomizer shuffles this
    /// list.
    pub fn all() -> (r: [FigureType; 7])
        ensures
            r@ == Self::spec_all(),
    {
        let r = [
            FigureType::O,
            FigureType::I,
            FigureType::S,
            FigureType::Z,
            FigureType::L,
            FigureType::J,
            FigureType::T,
        ];
        assert(r@ =~= Self::spec_all());
        r
    }

    /// The cells of the piece in its spawned orientation, each as `(x, y)`.
    /// Used only when a piece is spawned.
    pub fn to_dots(&self) -> (r: [(i32, i32); 4])
        ensures
            r@ == self.spec_to_dots(),
    {
        let r = match self {
            FigureType::O => [(0, 0), (1, 0), (0, 1), (1, 1)],
            FigureType::I => [(0, 0), (1, 0), (2, 0), (3, 0)],
            FigureType::S => [(0, 0), (1, 0), (1, 1), (2, 1)],
            FigureType::Z => [(1, 0), (2, 0), (0, 1), (1, 1)],
            FigureType::L => [(2, 1), (0, 0), (1, 0), (2, 0)],
            FigureType::J => [(0, 1), (0, 0), (1, 0), (2, 0)],
            FigureType::T => [(0, 0), (1, 0), (2, 0), (1, 1)],
        };
        assert(r@ =~= self.spec_to_dots());
        r
    }

    /// The center of rotation of the piece in orientation `rot`, as `(x, y)`
    /// relative to the lower left corner of the piece's bounding box.
    pub fn center_point(&self, rot: &Rotation) -> (r: (i32, i32))
        ensures
            r == self.spec_center_point(*rot),
    {
        match self {
            FigureType::O => match rot {
                Rotation::R0 => (0, 0),
                Rotation::RR => (0, 1),
                Rotation::R2 => (1, 1),
                Rotation::RL => (1, 0),
            },
            FigureType::L | FigureType::J | FigureType::Z | FigureType::S | FigureType::T => {
                match rot {
                    Rotation::R0 => (1, 0),
                    Rotation::RR => (0, 1),
                    Rotation::R2 => (1, 1),
                    Rotation::RL => (1, 1),
                }
            },
            FigureType::I => match rot {
                Rotation::R0 => (1, 0),
                Rotation::RR => (0, 2),
                Rotation::R2 => (2, 0),
                Rotation::RL => (0, 1),
            },
        }
    }

    /// The test offsets of the piece for the single orientation `rot`.
    pub fn tests_for_single_rot(&self, rot: &Rotation) -> (r: Vec<(i32, i32)>)
        ensures
            r@ == self.spec_tests_for_single_rot(*rot),
    {
        let r = match self {
            FigureType::L | FigureType::J | FigureType::Z | FigureType::S | FigureType::T => {
                match rot {
                    Rotation::R0 => vec![(0, 0), (0, 0), (0, 0), (0, 0), (0, 0)],
                    Rotation::RR => vec![(0, 0), (1, 0), (1, -1), (0, 2), (1, 2)],
                    Rotation::R2 => vec![(0, 0), (0, 0), (0, 0), (0, 0), (0, 0)],
                    Rotation::RL => vec![(0, 0), (-1, 0), (-1, -1), (0, 2), (-1, 2)],
                }
            },
            FigureType::O => match rot {
                Rotation::R0 => vec![(0, 0)],
                Rotation::RR => vec![(0, -1)],
                Rotation::R2 => vec![(-1, -1)],
                Rotation::RL => vec![(-1, 0)],
            },
            FigureType::I => match rot {
                Rotation::R0 => vec![(0, 0), (-1, 0), (2, 0), (-1, 0), (2, 0)],
                Rotation::RR => vec![(-1, 0), (0, 0), (0, 0), (0, 1), (0, -2)],
                Rotation::R2 => vec![(-1, 1), (1, 1), (-2, 1), (1, 0), (-2, 0)],
                Rotation::RL => vec![(0, 1), (0, 1), (0, 1), (0, -1), (0, 2)],
            },
        };
        assert(r@ =~= self.spec_tests_for_single_rot(*rot));
        r
    }

    /// The wall-kick candidates for the turn from `prev` to `next`: the test
    /// offsets of `prev` minus those of `next`, entry by entry. They let a
    /// piece turn where it would not fit in place.
    pub fn tests_for_rot(&self, prev: &Rotation, next: &Rotation) -> (r: Vec<(i32, i32)>)
        ensures
            r@.len() == self.kick_count(),
            forall|i: int|
                0 <= i < r@.len() ==> (r@[i].0 as int, r@[i].1 as int)
                    == #[trigger] self.spec_tests_for_rot(*prev, *next)[i],
    {
        let from = self.tests_for_single_rot(prev);
        let to = self.tests_for_single_rot(next);
        proof {
            self.lemma_tests_shape(*prev);
            self.lemma_tests_shape(*next);
        }
        let mut r: Vec<(i32, i32)> = Vec::new();
        let mut i: usize = 0;
        while i < from.len()
            invariant
                i <= from@.len(),
                from@ == self.spec_tests_for_single_rot(*prev),
                to@ == self.spec_tests_for_single_rot(*next),
                from@.len() == self.kick_count(),
                to@.len() == self.kick_count(),
                forall|k: int|
                    0 <= k < self.kick_count() ==> {
                        &&& -2 <= (#[trigger] self.spec_tests_for_single_rot(*prev)[k]).0 <= 2
                        &&& -2 <= self.spec_tests_for_single_rot(*prev)[k].1 <= 2
                    },
                forall|k: int|
                    0 <= k < self.kick_count() ==> {
                        &&& -2 <= (#[trigger] self.spec_tests_for_single_rot(*next)[k]).0 <= 2
                        &&& -2 <= self.spec_tests_for_single_rot(*next)[k].1 <= 2
                    },
                r@.len() == i,
                forall|k: int|
                    0 <= k < i ==> (r@[k].0 as int, r@[k].1 as int)
                        == #[trigger] self.spec_tests_for_rot(*prev, *next)[k],
            decreases from@.len() - i,
        {
            let a: (i32, i32) = from[i];
            let b: (i32, i32) = to[i];
            r.push((a.0 - b.0, a.1 - b.1));
            i += 1;
        }
        r
    }
}

} // verus!
