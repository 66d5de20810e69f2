//! The score of a game.

use super::consts::{FIRST_LINE_POINTS, NEXT_LINE_POINTS};
use vstd::prelude::*;

verus! {

/// The points and the number of cleared lines of a game. Neither ever goes
/// down within a game; both stop at `usize::MAX`.
#[derive(Debug, Clone, Copy, PartialEq, Eq, Hash, Structural)]
pub struct Score {
    pub score: usize,
    pub lines_cleared: usize,
}

/// `n`, held to what a counter can show.
pub open spec fn capped(n: int) -> usize {
    if n >= usize::MAX {
        usize::MAX
    } else if n <= 0 {
        0
    } else {
        n as usize
    }
}

/// The points for clearing `cleared` lines at once: 100 for the first line
/// and 200 for each further one.
pub open spec fn line_clear_points(cleared: nat) -> nat {
    if cleared == 0 {
        0
    } else {
        (FIRST_LINE_POINTS + NEXT_LINE_POINTS * (cleared - 1)) as nat
    }
}

impl Score {
    /// The score with `points` more points.
    pub open spec fn with_points(self, points: nat) -> Score {
        Score { score: capped(self.score + points), lines_cleared: self.lines_cleared }
    }

    /// The score after `cleared` lines were cleared at once.
    pub open spec fn with_lines(self, cleared: nat) -> Score {
        Score {
            score: capped(self.score + line_clear_points(cleared)),
            lines_cleared: capped(self.lines_cleared + cleared),
        }
    }

    /// The score at the start of a game.
    pub fn new() -> (r: Score)
        ensures
            r == (Score { score: 0, lines_cleared: 0 }),
    {
        Score { score: 0, lines_cleared: 0 }
    }

    /// Sets points and lines back to 0.
    pub fn reset(&mut self)
        ensures
            *final(self) == (Score { score: 0, lines_cleared: 0 }),
    {
        self.score = 0;
        self.lines_cleared = 0;
    }

    /// Awards `points` points.
    pub fn add_points(&mut self, points: usize)
        ensures
            *final(self) == old(self).with_points(points as nat),
            final(self).score >= old(self).score,
    {
        self.score = self.score.saturating_add(points);
    }

    /// Awards the points for `cleared` lines cleared at once, and counts the
    /// lines.
    pub fn add_lines(&mut self, cleared: usize)
        ensures
            *final(self) == old(self).with_lines(cleared as nat),
            final(self).score >= old(self).score,
            final(self).lines_cleared >= old(self).lines_cleared,
    {
        if cleared == 0 {
            return ;
        }
        let points: usize = match (cleared - 1).checked_mul(NEXT_LINE_POINTS) {
            Some(further) => further.saturating_add(FIRST_LINE_POINTS),
            None => usize::MAX,
        };
        self.score = self.score.saturating_add(points);
        self.lines_cleared = self.lines_cleared.saturating_add(cleared);
    }
}

/// The scoring table: one, two, three and four lines cleared at once are
/// worth 100, 300, 500 and 700 points, and the line count grows by the
/// number of lines cleared, as long as the counters have room.
pub proof fn lemma_scoring_table(score: Score, cleared: nat)
    requires
        1 <= cleared <= 4,
        score.score + 700 <= usize::MAX,
        score.lines_cleared + 4 <= usize::MAX,
    ensures
        cleared == 1 ==> score.with_lines(cleared).score == score.score + 100,
        cleared == 2 ==> score.with_lines(cleared).score == score.score + 300,
        cleared == 3 ==> score.with_lines(cleared).score == score.score + 500,
        cleared == 4 ==> score.with_lines(cleared).score == score.score + 700,
        score.with_lines(cleared).lines_cleared == score.lines_cleared + cleared,
{
}

} // verus!
