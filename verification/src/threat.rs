//! Threat classification for a hypothetical placement: how many open or
//! closed fours and open threes a stone would create at an empty cell,
//! and whether that combination is unstoppable in one reply.

use vstd::prelude::*;
use crate::board::{Board, Cell, dir_dx, dir_dy, run_len, dir_step};
use crate::ai::{run_open, scan_dir, SCORE_FOUR_OPEN, SCORE_FOUR_BLOCKED, SCORE_THREE_OPEN};

verus! {

/// Length of the run a `p` stone at `(x, y)` would join in direction
/// `d`, the stone itself included, each side looked at up to four cells.
pub open spec fn dir_run(v: Seq<Cell>, p: Cell, x: int, y: int, d: int) -> int {
    1 + run_len(v, p, x, y, dir_dx(d), dir_dy(d), 4) as int + run_len(
        v,
        p,
        x,
        y,
        -dir_dx(d),
        -dir_dy(d),
        4,
    ) as int
}

/// Both ends of that run abut empty cells.
pub open spec fn dir_both_open(v: Seq<Cell>, p: Cell, x: int, y: int, d: int) -> bool {
    run_open(v, p, x, y, dir_dx(d), dir_dy(d), 4) && run_open(v, p, x, y, -dir_dx(d), -dir_dy(d), 4)
}

/// Exactly one end of that run abuts an empty cell.
pub open spec fn dir_one_open(v: Seq<Cell>, p: Cell, x: int, y: int, d: int) -> bool {
    run_open(v, p, x, y, dir_dx(d), dir_dy(d), 4) != run_open(v, p, x, y, -dir_dx(d), -dir_dy(d), 4)
}

/// The placement completes five (or more), or makes a four open at both
/// ends: a winning or one-move-from-winning line.
pub open spec fn is_open_four_dir(v: Seq<Cell>, p: Cell, x: int, y: int, d: int) -> bool {
    dir_run(v, p, x, y, d) >= 5 || (dir_run(v, p, x, y, d) == 4 && dir_both_open(v, p, x, y, d))
}

/// The placement makes a four open at exactly one end.
pub open spec fn is_closed_four_dir(v: Seq<Cell>, p: Cell, x: int, y: int, d: int) -> bool {
    dir_run(v, p, x, y, d) == 4 && dir_one_open(v, p, x, y, d)
}

/// The placement makes a three open at both ends.
pub open spec fn is_open_three_dir(v: Seq<Cell>, p: Cell, x: int, y: int, d: int) -> bool {
    dir_run(v, p, x, y, d) == 3 && dir_both_open(v, p, x, y, d)
}

/// Number of open fours among the first `n` directions.
pub open spec fn open_fours_upto(v: Seq<Cell>, p: Cell, x: int, y: int, n: int) -> int
    decreases n,
{
    if n <= 0 {
        0
    } else {
        open_fours_upto(v, p, x, y, n - 1) + if is_open_four_dir(v, p, x, y, n - 1) {
            1int
        } else {
            0int
        }
    }
}

/// Number of closed fours among the first `n` directions.
pub open spec fn closed_fours_upto(v: Seq<Cell>, p: Cell, x: int, y: int, n: int) -> int
    decreases n,
{
    if n <= 0 {
        0
    } else {
        closed_fours_upto(v, p, x, y, n - 1) + if is_closed_four_dir(v, p, x, y, n - 1) {
            1int
        } else {
            0int
        }
    }
}

/// Number of open threes among the first `n` directions.
pub open spec fn open_threes_upto(v: Seq<Cell>, p: Cell, x: int, y: int, n: int) -> int
    decreases n,
{
    if n <= 0 {
        0
    } else {
        open_threes_upto(v, p, x, y, n - 1) + if is_open_three_dir(v, p, x, y, n - 1) {
            1int
        } else {
            0int
        }
    }
}

/// Threat counts of one hypothetical placement across the four
/// directions.
#[derive(Clone, Copy, PartialEq, Eq, Structural, Debug)]
pub struct ThreatInfo {
    pub open_fours: u8,
    pub closed_fours: u8,
    pub open_threes: u8,
}

impl ThreatInfo {
    /// Counts never exceed the number of directions.
    pub open spec fn wf(&self) -> bool {
        self.open_fours <= 4 && self.closed_fours <= 4 && self.open_threes <= 4
    }

    /// The double-threat rule: an open four, two open threes, two closed
    /// fours, or a closed four beside an open three cannot all be
    /// answered in one reply.
    pub open spec fn spec_is_winning(&self) -> bool {
        ||| self.open_fours >= 1
    	||| self.open_threes >= 2
    	||| self.closed_fours >= 2
    	||| (self.closed_fours >= 1 && self.open_threes >= 1)
    }

    /// Scalar worth of the counted threats.
    pub open spec fn spec_score(&self) -> int {
        self.open_fours * SCORE_FOUR_OPEN + self.closed_fours * SCORE_FOUR_BLOCKED
            + self.open_threes * SCORE_THREE_OPEN
    }

    /// Whether these threats are unstoppable in one reply.
    pub fn is_winning(&self) -> (r: bool)
        ensures
            r == self.spec_is_winning(),
    {
        self.open_fours >= 1 || self.open_threes >= 2 || self.closed_fours >= 2 || (
        self.closed_fours >= 1 && self.open_threes >= 1)
    }

    /// Scalar worth of the counted threats.
    pub fn score(&self) -> (r: i32)
        requires
            self.wf(),
        ensures
            r == self.spec_score(),
            0 <= r <= 48_000,
    {
        self.open_fours as i32 * SCORE_FOUR_OPEN + self.closed_fours as i32 * SCORE_FOUR_BLOCKED
            + self.open_threes as i32 * SCORE_THREE_OPEN
    }
}

/// Classifies the threats a `player` stone at `(x, y)` would create,
/// scanning the four directions exactly as the evaluator does.
pub fn threat_info(board: &Board, player: Cell, x: usize, y: usize) -> (t: ThreatInfo)
    requires
        board.wf(),
        x < 20,
        y < 20,
    ensures
        t.wf(),
        t.open_fours == open_fours_upto(board@, player, x as int, y as int, 4),
        t.closed_fours == closed_fours_upto(board@, player, x as int, y as int, 4),
        t.open_threes == open_threes_upto(board@, player, x as int, y as int, 4),
{
    let mut of: u8 = 0;
    let mut cf: u8 = 0;
    let mut ot: u8 = 0;
    let mut d: usize = 0;
    while d < 4
        invariant
            board.wf(),
            x < 20,
            y < 20,
            d <= 4,
            of <= d,
            cf <= d,
            ot <= d,
            of == open_fours_upto(board@, player, x as int, y as int, d as int),
            cf == closed_fours_upto(board@, player, x as int, y as int, d as int),
            ot == open_threes_upto(board@, player, x as int, y as int, d as int),
        decreases 4 - d,
    {
        let (dx, dy) = dir_step(d);
        let (fwd, open_f) = scan_dir(board, player, x, y, dx, dy);
        let (bwd, open_b) = scan_dir(board, player, x, y, -dx, -dy);
        let run = 1 + fwd + bwd;
        if run >= 5 || (run == 4 && open_f && open_b) {
            of += 1;
        } else if run == 4 && (open_f || open_b) {
            cf += 1;
        } else if run == 3 && open_f && open_b {
            ot += 1;
        }
        d += 1;
    }
    ThreatInfo { open_fours: of, closed_fours: cf, open_threes: ot }
}

/// The threats `p` would create at `(x, y)`, as one scalar.
pub open spec fn threat_score_at(v: Seq<Cell>, p: Cell, x: int, y: int) -> int {
    open_fours_upto(v, p, x, y, 4) * SCORE_FOUR_OPEN + closed_fours_upto(v, p, x, y, 4)
        * SCORE_FOUR_BLOCKED + open_threes_upto(v, p, x, y, 4) * SCORE_THREE_OPEN
}

/// Whether a `p` stone at `(x, y)` would be winning by the double-threat
/// rule.
pub open spec fn winning_at(v: Seq<Cell>, p: Cell, x: int, y: int) -> bool {
    ||| open_fours_upto(v, p, x, y, 4) >= 1
    ||| open_threes_upto(v, p, x, y, 4) >= 2
    ||| closed_fours_upto(v, p, x, y, 4) >= 2
    ||| (closed_fours_upto(v, p, x, y, 4) >= 1 && open_threes_upto(v, p, x, y, 4) >= 1)
}

} // verus!
