//! The four directions in which a pipe or a maze passage can leave a cell.

use vstd::prelude::*;

verus! {

/// A direction on the grid. Rows are counted downward, so `Up` leads to the
/// row before.
#[derive(Clone, Copy, Debug, PartialEq, Eq, PartialOrd, Ord, Hash, Structural)]
pub enum Direction {
    Up,
    Down,
    Left,
    Right,
}

impl Direction {
    /// The place of the direction in the order `Up`, `Down`, `Left`,
    /// `Right`.
    pub open spec fn rank(self) -> int {
        match self {
            Direction::Up => 0,
            Direction::Down => 1,
            Direction::Left => 2,
            Direction::Right => 3,
        }
    }

    /// The four directions, in the order of their ranks.
    pub open spec fn spec_all() -> Seq<Direction> {
        seq![Direction::Up, Direction::Down, Direction::Left, Direction::Right]
    }

    /// The step that the direction takes, as `(dx, dy)`.
    pub open spec fn spec_offset(self) -> (int, int) {
        match self {
            Direction::Up => (0, -1),
            Direction::Down => (0, 1),
            Direction::Left => (-1, 0),
            Direction::Right => (1, 0),
        }
    }

    /// The direction that leads back.
    pub open spec fn spec_opposite(self) -> Direction {
        match self {
            Direction::Up => Direction::Down,
            Direction::Down => Direction::Up,
            Direction::Left => Direction::Right,
            Direction::Right => Direction::Left,
        }
    }

    /// The step that the direction takes, as `(dx, dy)`.
    pub fn offset(&self) -> (r: (i32, i32))
        ensures
            (r.0 as int, r.1 as int) == self.spec_offset(),
    {
        match self {
            Direction::Up => (0, -1),
            Direction::Down => (0, 1),
            Direction::Left => (-1, 0),
            Direction::Right => (1, 0),
        }
    }

    /// The four directions: `Up`, `Down`, `Left`, `Right`.
    pub fn iter() -> (r: [Direction; 4])
        ensures
            r@ == Self::spec_all(),
    {
        let r = [Direction::Up, Direction::Down, Direction::Left, Direction::Right];
        assert(r@ =~= Self::spec_all());
        r
    }

    /// The direction that leads back.
    pub fn opposite(&self) -> (r: Direction)
        ensures
            r == self.spec_opposite(),
    {
        match self {
            Direction::Up => Direction::Down,
            Direction::Down => Direction::Up,
            Direction::Left => Direction::Right,
            Direction::Right => Direction::Left,
        }
    }

    /// The opposite of the opposite is the direction itself, the opposite
    /// differs from the direction, and the two steps cancel.
    pub proof fn lemma_opposite(self)
        ensures
            self.spec_opposite().spec_opposite() == self,
            self.spec_opposite() != self,
            self.spec_opposite().spec_offset().0 == -self.spec_offset().0,
            self.spec_opposite().spec_offset().1 == -self.spec_offset().1,
    {
    }
}

/// The number of times that `d` occurs in `s`.
pub open spec fn count(s: Seq<Direction>, d: Direction) -> nat
    decreases s.len(),
{
    if s.len() == 0 {
        0
    } else if s.last() == d {
        count(s.drop_last(), d) + 1
    } else {
        count(s.drop_last(), d)
    }
}

/// `n` times the direction `d`.
pub open spec fn repeated(d: Direction, n: nat) -> Seq<Direction> {
    Seq::new(n, |i: int| d)
}

/// The directions of `s` in the order of their ranks: every `Up` of `s`,
/// then every `Down`, every `Left`, every `Right`.
pub open spec fn in_order(s: Seq<Direction>) -> Seq<Direction> {
    repeated(Direction::Up, count(s, Direction::Up)) + repeated(
        Direction::Down,
        count(s, Direction::Down),
    ) + repeated(Direction::Left, count(s, Direction::Left)) + repeated(
        Direction::Right,
        count(s, Direction::Right),
    )
}

/// Whether the ranks of `s` grow from each entry to the next: the
/// directions are in order and none occurs twice.
pub open spec fn strictly_ordered(s: Seq<Direction>) -> bool {
    forall|i: int, j: int| 0 <= i < j < s.len() ==> s[i].rank() < s[j].rank()
}

/// Counts add up over concatenation.
pub proof fn lemma_count_add(a: Seq<Direction>, b: Seq<Direction>, d: Direction)
    ensures
        count(a + b, d) == count(a, d) + count(b, d),
    decreases b.len(),
{
    if b.len() == 0 {
        assert(a + b =~= a);
    } else {
        assert((a + b).drop_last() =~= a + b.drop_last());
        lemma_count_add(a, b.drop_last(), d);
    }
}

/// `n` times a direction holds that direction `n` times and no other.
pub proof fn lemma_count_repeated(d: Direction, n: nat, e: Direction)
    ensures
        count(repeated(d, n), e) == if e == d {
            n
        } else {
            0
        },
    decreases n,
{
    if n > 0 {
        assert(repeated(d, n).drop_last() =~= repeated(d, (n - 1) as nat));
        lemma_count_repeated(d, (n - 1) as nat, e);
    }
}

/// A sequence holds a direction if and only if it holds it at least once,
/// and its length is the sum of the counts of the four directions.
pub proof fn lemma_count(s: Seq<Direction>, d: Direction)
    ensures
        s.contains(d) <==> count(s, d) > 0,
        s.len() == count(s, Direction::Up) + count(s, Direction::Down) + count(s, Direction::Left)
            + count(s, Direction::Right),
    decreases s.len(),
{
    if s.len() > 0 {
        let rest = s.drop_last();
        lemma_count(rest, d);
        if rest.contains(d) {
            let i = choose|i: int| 0 <= i < rest.len() && rest[i] == d;
            assert(s[i] == d);
        }
        if s.last() == d {
            assert(s[s.len() - 1] == d);
        }
        if s.contains(d) && s.last() != d {
            let i = choose|i: int| 0 <= i < s.len() && s[i] == d;
            assert(rest[i] == d);
        }
    }
}

/// Putting directions in order keeps how often each occurs, and so which
/// occur and how many there are.
pub proof fn lemma_in_order(s: Seq<Direction>, d: Direction)
    ensures
        count(in_order(s), d) == count(s, d),
        in_order(s).contains(d) <==> s.contains(d),
        in_order(s).len() == s.len(),
{
    let up = repeated(Direction::Up, count(s, Direction::Up));
    let down = repeated(Direction::Down, count(s, Direction::Down));
    let left = repeated(Direction::Left, count(s, Direction::Left));
    let right = repeated(Direction::Right, count(s, Direction::Right));
    lemma_count_add(up + down + left, right, d);
    lemma_count_add(up + down, left, d);
    lemma_count_add(up, down, d);
    lemma_count_repeated(Direction::Up, count(s, Direction::Up), d);
    lemma_count_repeated(Direction::Down, count(s, Direction::Down), d);
    lemma_count_repeated(Direction::Left, count(s, Direction::Left), d);
    lemma_count_repeated(Direction::Right, count(s, Direction::Right), d);
    lemma_count(s, d);
    lemma_count(in_order(s), d);
}

/// In a sequence whose ranks grow, no direction occurs twice.
pub proof fn lemma_ordered_counts(s: Seq<Direction>, d: Direction)
    requires
        strictly_ordered(s),
    ensures
        count(s, d) <= 1,
    decreases s.len(),
{
    if s.len() > 0 {
        let rest = s.drop_last();
        assert(strictly_ordered(rest)) by {
            assert forall|i: int, j: int| 0 <= i < j < rest.len() implies rest[i].rank()
                < rest[j].rank() by {
                assert(s[i].rank() < s[j].rank());
            }
        }
        lemma_ordered_counts(rest, d);
        if s.last() == d && count(rest, d) == 1 {
            lemma_count(rest, d);
            let i = choose|i: int| 0 <= i < rest.len() && rest[i] == d;
            assert(s[i].rank() < s[s.len() - 1].rank());
        }
    }
}

/// Adding a direction that a well-ordered sequence lacks, and putting the
/// directions in order, gives a well-ordered sequence again: one longer,
/// and holding the new direction besides the old ones.
pub proof fn lemma_in_order_grows(s: Seq<Direction>, d: Direction)
    requires
        strictly_ordered(s),
        !s.contains(d),
    ensures
        strictly_ordered(in_order(s.push(d))),
        in_order(s.push(d)).len() == s.len() + 1,
        forall|e: Direction| in_order(s.push(d)).contains(e) <==> s.contains(e) || e == d,
{
    let grown = s.push(d);
    assert(grown.drop_last() =~= s);
    assert forall|e: Direction| #[trigger] count(grown, e) <= 1 by {
        lemma_ordered_counts(s, e);
        lemma_count(s, d);
    }
    assert forall|e: Direction| in_order(grown).contains(e) <==> s.contains(e) || e == d by {
        lemma_count(s, e);
        lemma_in_order(grown, e);
        lemma_count(grown, e);
    }
    lemma_in_order(grown, d);
    let up = repeated(Direction::Up, count(grown, Direction::Up));
    let down = repeated(Direction::Down, count(grown, Direction::Down));
    let left = repeated(Direction::Left, count(grown, Direction::Left));
    let right = repeated(Direction::Right, count(grown, Direction::Right));
    assert(count(grown, Direction::Up) <= 1 && count(grown, Direction::Down) <= 1 && count(
        grown,
        Direction::Left,
    ) <= 1 && count(grown, Direction::Right) <= 1);
    let all = in_order(grown);
    assert forall|i: int, j: int| 0 <= i < j < all.len() implies all[i].rank() < all[j].rank() by {
        assert(all == up + down + left + right);
        let a = up.len();
        let b = a + down.len();
        let c = b + left.len();
        assert(all[i] == if i < a {
            Direction::Up
        } else if i < b {
            Direction::Down
        } else if i < c {
            Direction::Left
        } else {
            Direction::Right
        });
        assert(all[j] == if j < a {
            Direction::Up
        } else if j < b {
            Direction::Down
        } else if j < c {
            Direction::Left
        } else {
            Direction::Right
        });
    }
}

} // verus!
