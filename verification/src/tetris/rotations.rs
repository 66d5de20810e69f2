//! Quarter-turn rotations of a point about the origin, with `y` pointing up.

use vstd::prelude::*;

verus! {

/// The point `(x, y)` turned a quarter counter-clockwise.
pub open spec fn spec_rotate_left(p: (int, int)) -> (int, int) {
    (-p.1, p.0)
}

/// The point `(x, y)` turned a quarter clockwise.
pub open spec fn spec_rotate_right(p: (int, int)) -> (int, int) {
    (p.1, -p.0)
}

/// Turns `(x, y)` a quarter counter-clockwise: `(x, y)` goes to `(-y, x)`.
pub fn rotate_left(x: i32, y: i32) -> (r: (i32, i32))
    requires
        y > i32::MIN,
    ensures
        (r.0 as int, r.1 as int) == spec_rotate_left((x as int, y as int)),
{
    (-y, x)
}

/// Turns `(x, y)` a quarter clockwise: `(x, y)` goes to `(y, -x)`.
pub fn rotate_right(x: i32, y: i32) -> (r: (i32, i32))
    requires
        x > i32::MIN,
    ensures
        (r.0 as int, r.1 as int) == spec_rotate_right((x as int, y as int)),
{
    (y, -x)
}

/// A clockwise quarter turn undoes a counter-clockwise one, and the other
/// way round.
pub proof fn lemma_rotations_inverse(p: (int, int))
    ensures
        spec_rotate_right(spec_rotate_left(p)) == p,
        spec_rotate_left(spec_rotate_right(p)) == p,
{
}

/// Four quarter turns in one direction give the point back.
pub proof fn lemma_four_turns(p: (int, int))
    ensures
        spec_rotate_right(spec_rotate_right(spec_rotate_right(spec_rotate_right(p)))) == p,
        spec_rotate_left(spec_rotate_left(spec_rotate_left(spec_rotate_left(p)))) == p,
{
}

} // verus!
