//! The incremental evaluator: a cached directional pattern score for
//! every player, cell and direction, plus running per-player totals,
//! updated on a placement or removal only for the cells near it. Its
//! invariant ties every cache entry and both totals to the full-scan
//! scores, so the incremental position value always equals a full
//! recomputation.

use vstd::prelude::*;
use crate::board::{Board, Cell, in_bounds, idx, dir_dx, dir_dy, run_len, dir_step};
use crate::ai::{run_open, seq_score, cell_score, score_upto, evaluate_sequence};

verus! {

use vstd::pervasive::VecAdditionalExecFns;

/// `(ax, ay)` lies within Chebyshev distance `r` of `(bx, by)`.
pub open spec fn within_box(ax: int, ay: int, bx: int, by: int, r: int) -> bool {
    -r <= ax - bx <= r && -r <= ay - by <= r
}

proof fn lemma_run_len_local(
    v1: Seq<Cell>,
    v2: Seq<Cell>,
    p: Cell,
    x: int,
    y: int,
    dx: int,
    dy: int,
    limit: nat,
)
    requires
        -1 <= dx <= 1,
        -1 <= dy <= 1,
        forall|rx: int, ry: int| in_bounds(rx, ry) && within_box(rx, ry, x, y, limit as int)
            ==> v1[idx(rx, ry)] == v2[idx(rx, ry)],
    ensures
        run_len(v1, p, x, y, dx, dy, limit) == run_len(v2, p, x, y, dx, dy, limit),
    decreases limit,
{
    if limit > 0 {
        let nx = x + dx;
        let ny = y + dy;
        if in_bounds(nx, ny) {
            assert(within_box(nx, ny, x, y, limit as int));
            if v1[idx(nx, ny)] == p {
                assert forall|rx: int, ry: int| in_bounds(rx, ry) && within_box(
                    rx,
                    ry,
                    nx,
                    ny,
                    limit as int - 1,
                ) implies v1[idx(rx, ry)] == v2[idx(rx, ry)] by {
                    assert(within_box(rx, ry, x, y, limit as int));
                }
                lemma_run_len_local(v1, v2, p, nx, ny, dx, dy, (limit - 1) as nat);
            }
        }
    }
}

proof fn lemma_run_open_local(
    v1: Seq<Cell>,
    v2: Seq<Cell>,
    p: Cell,
    x: int,
    y: int,
    dx: int,
    dy: int,
    limit: nat,
)
    requires
        -1 <= dx <= 1,
        -1 <= dy <= 1,
        forall|rx: int, ry: int| in_bounds(rx, ry) && within_box(rx, ry, x, y, limit as int + 1)
            ==> v1[idx(rx, ry)] == v2[idx(rx, ry)],
    ensures
        run_open(v1, p, x, y, dx, dy, limit) == run_open(v2, p, x, y, dx, dy, limit),
    decreases limit,
{
    let nx = x + dx;
    let ny = y + dy;
    if in_bounds(nx, ny) {
        assert(within_box(nx, ny, x, y, limit as int + 1));
        if v1[idx(nx, ny)] == p && limit > 0 {
            assert forall|rx: int, ry: int| in_bounds(rx, ry) && within_box(
                rx,
                ry,
                nx,
                ny,
                limit as int,
            ) implies v1[idx(rx, ry)] == v2[idx(rx, ry)] by {
                assert(within_box(rx, ry, x, y, limit as int + 1));
            }
            lemma_run_open_local(v1, v2, p, nx, ny, dx, dy, (limit - 1) as nat);
        }
    }
}

/// A directional score reads the board only within Chebyshev distance 5
/// of its stone: boards that agree there score it alike.
pub proof fn lemma_seq_score_local(
    v1: Seq<Cell>,
    v2: Seq<Cell>,
    p: Cell,
    x: int,
    y: int,
    dx: int,
    dy: int,
)
    requires
        -1 <= dx <= 1,
        -1 <= dy <= 1,
        forall|rx: int, ry: int| in_bounds(rx, ry) && within_box(rx, ry, x, y, 5) ==> v1[idx(
            rx,
            ry,
        )] == v2[idx(rx, ry)],
    ensures
        seq_score(v1, p, x, y, dx, dy) == seq_score(v2, p, x, y, dx, dy),
{
    assert forall|rx: int, ry: int| in_bounds(rx, ry) && within_box(rx, ry, x, y, 4) implies
        v1[idx(rx, ry)] == v2[idx(rx, ry)] by {
        assert(within_box(rx, ry, x, y, 5));
    }
    lemma_run_len_local(v1, v2, p, x, y, dx, dy, 4);
    lemma_run_len_local(v1, v2, p, x, y, -dx, -dy, 4);
    lemma_run_open_local(v1, v2, p, x, y, dx, dy, 4);
    lemma_run_open_local(v1, v2, p, x, y, -dx, -dy, 4);
}

/// Sum of `s[lo..hi]`.
pub open spec fn sum_range(s: Seq<i32>, lo: int, hi: int) -> int
    decreases hi - lo,
{
    if hi <= lo {
        0
    } else {
        sum_range(s, lo, hi - 1) + s[hi - 1]
    }
}

proof fn lemma_sum_update(s: Seq<i32>, j: int, x: i32, lo: int, hi: int)
    requires
        0 <= lo <= hi <= s.len(),
        0 <= j < s.len(),
    ensures
        lo <= j < hi ==> sum_range(s.update(j, x), lo, hi) == sum_range(s, lo, hi) - s[j] + x,
        !(lo <= j < hi) ==> sum_range(s.update(j, x), lo, hi) == sum_range(s, lo, hi),
    decreases hi - lo,
{
    if hi > lo {
        lemma_sum_update(s, j, x, lo, hi - 1);
    }
}

proof fn lemma_sum_bounds(s: Seq<i32>, lo: int, hi: int)
    requires
        0 <= lo <= hi <= s.len(),
        forall|k: int| lo <= k < hi ==> 0 <= #[trigger] s[k] <= 10_000,
    ensures
        0 <= sum_range(s, lo, hi) <= 10_000 * (hi - lo),
    decreases hi - lo,
{
    if hi > lo {
        lemma_sum_bounds(s, lo, hi - 1);
    }
}

/// Flat cache index of player block `pi`, cell `i`, direction `d`.
pub open spec fn flat(pi: int, i: int, d: int) -> int {
    pi * 1600 + i * 4 + d
}

/// The correct cache value: the stone's directional score, zero for a
/// cell the player does not occupy.
pub open spec fn score_at(v: Seq<Cell>, p: Cell, i: int, d: int) -> int {
    if v[i] == p {
        seq_score(v, p, i % 20, i / 20, dir_dx(d), dir_dy(d))
    } else {
        0
    }
}

/// A player's full-scan total over the first `n` cells.
pub open spec fn player_total(v: Seq<Cell>, p: Cell, n: int) -> int
    decreases n,
{
    if n <= 0 {
        0
    } else {
        player_total(v, p, n - 1) + if v[n - 1] == p {
            cell_score(v, p, (n - 1) % 20, (n - 1) / 20)
        } else {
            0
        }
    }
}

proof fn lemma_seq_score_bounds(v: Seq<Cell>, p: Cell, x: int, y: int, dx: int, dy: int)
    ensures
        0 <= seq_score(v, p, x, y, dx, dy) <= 10_000,
{
}

/// The per-player pattern-score cache with its running totals.
pub struct IncrementalScores {
    scores: Vec<i32>,
    total_mine: i32,
    total_op: i32,
}

impl IncrementalScores {
    /// Every cache entry matches the board, and each total is its
    /// block's sum.
    pub open spec fn wf(&self, v: Seq<Cell>) -> bool {
        &&& self.spec_scores().len() == 3200
        &&& forall|i: int, d: int| 0 <= i < 400 && 0 <= d < 4 ==> #[trigger] self.spec_scores()[flat(
            0,
            i,
            d,
        )] == score_at(v, Cell::MyStone, i, d)
        &&& forall|i: int, d: int| 0 <= i < 400 && 0 <= d < 4 ==> #[trigger] self.spec_scores()[flat(
            1,
            i,
            d,
        )] == score_at(v, Cell::OpStone, i, d)
        &&& self.sums_ok()
    }

    /// The bookkeeping part of the invariant: totals are block sums and
    /// entries stay in the score range.
    pub open spec fn sums_ok(&self) -> bool {
        &&& self.spec_scores().len() == 3200
        &&& (forall|f: int| 0 <= f < 3200 ==> 0 <= #[trigger] self.spec_scores()[f] <= 10_000)
        &&& self.spec_total_mine() == sum_range(self.spec_scores(), 0, 1600)
        &&& self.spec_total_op() == sum_range(self.spec_scores(), 1600, 3200)
    }

    /// The cache as the contracts see it.
    pub closed spec fn spec_scores(&self) -> Seq<i32> {
        self.scores@
    }

    /// The engine's running total.
    pub closed spec fn spec_total_mine(&self) -> int {
        self.total_mine as int
    }

    /// The opponent's running total.
    pub closed spec fn spec_total_op(&self) -> int {
        self.total_op as int
    }

    /// Recomputes one cache entry from the board and keeps the totals
    /// in step.
    fn refresh_entry(&mut self, board: &Board, i: usize, d: usize, mine: bool)
        requires
            old(self).sums_ok(),
            board.wf(),
            i < 400,
            d < 4,
        ensures
            final(self).sums_ok(),
            final(self).spec_scores() == old(self).spec_scores().update(
                flat(if mine { 0int } else { 1int }, i as int, d as int),
                (score_at(
                    board@,
                    if mine { Cell::MyStone } else { Cell::OpStone },
                    i as int,
                    d as int,
                ) as i32),
            ),
    {
        let p = if mine {
            Cell::MyStone
        } else {
            Cell::OpStone
        };
        let f = if mine {
            i * 4 + d
        } else {
            1600 + i * 4 + d
        };
        let c = board.cell_at(i);
        let (ddx, ddy) = dir_step(d);
        let n: i32 = if c == p {
            evaluate_sequence(board, i % 20, i / 20, ddx, ddy, p)
        } else {
            0
        };
        proof {
            lemma_seq_score_bounds(board@, p, i as int % 20, i as int / 20, dir_dx(d as int), dir_dy(d as int));
            lemma_sum_bounds(self.spec_scores(), 0, 1600);
            lemma_sum_bounds(self.spec_scores(), 1600, 3200);
            lemma_sum_update(self.spec_scores(), f as int, n, 0, 1600);
            lemma_sum_update(self.spec_scores(), f as int, n, 1600, 3200);
        }
        let o = self.scores[f];
        if mine {
            self.total_mine = self.total_mine - o + n;
        } else {
            self.total_op = self.total_op - o + n;
        }
        self.scores.set(f, n);
    }

    /// A cache for the given board, computed by full scan.
    pub fn rebuild_from_board(&mut self, board: &Board)
        requires
            board.wf(),
        ensures
            final(self).wf(board@),
    {
        let mut scores: Vec<i32> = Vec::new();
        let mut k: usize = 0;
        while k < 3200
            invariant
                scores@.len() == k,
                k <= 3200,
                forall|f: int| 0 <= f < k ==> scores@[f] == 0,
            decreases 3200 - k,
        {
            scores.push(0);
            k += 1;
        }
        proof {
            lemma_zero_sum(scores@, 0, 1600);
            lemma_zero_sum(scores@, 1600, 3200);
        }
        self.scores = scores;
        self.total_mine = 0;
        self.total_op = 0;
        assert(self.sums_ok());

        let mut i: usize = 0;
        while i < 400
            invariant
                self.sums_ok(),
                board.wf(),
                i <= 400,
                forall|i2: int, d: int| 0 <= i2 < i && 0 <= d < 4 ==> #[trigger] self.spec_scores()[flat(
                    0,
                    i2,
                    d,
                )] == score_at(board@, Cell::MyStone, i2, d),
                forall|i2: int, d: int| 0 <= i2 < i && 0 <= d < 4 ==> #[trigger] self.spec_scores()[flat(
                    1,
                    i2,
                    d,
                )] == score_at(board@, Cell::OpStone, i2, d),
            decreases 400 - i,
        {
            self.refresh_cell(board, i);
            i += 1;
        }
    }

    /// Recomputes the eight cache entries of one cell.
    fn refresh_cell(&mut self, board: &Board, i: usize)
        requires
            old(self).sums_ok(),
            board.wf(),
            i < 400,
        ensures
            final(self).sums_ok(),
            forall|d: int| 0 <= d < 4 ==> #[trigger] final(self).spec_scores()[flat(0, i as int, d)]
                == score_at(board@, Cell::MyStone, i as int, d),
            forall|d: int| 0 <= d < 4 ==> #[trigger] final(self).spec_scores()[flat(1, i as int, d)]
                == score_at(board@, Cell::OpStone, i as int, d),
            forall|f: int| 0 <= f < 3200 && !(flat(0, i as int, 0) <= f < flat(0, i as int, 4))
                && !(flat(1, i as int, 0) <= f < flat(1, i as int, 4))
                ==> #[trigger] final(self).spec_scores()[f] == old(self).spec_scores()[f],
    {
        let mut d: usize = 0;
        while d < 4
            invariant
                self.sums_ok(),
                board.wf(),
                i < 400,
                d <= 4,
                forall|d2: int| 0 <= d2 < d ==> #[trigger] self.spec_scores()[flat(0, i as int, d2)]
                    == score_at(board@, Cell::MyStone, i as int, d2),
                forall|d2: int| 0 <= d2 < d ==> #[trigger] self.spec_scores()[flat(1, i as int, d2)]
                    == score_at(board@, Cell::OpStone, i as int, d2),
                forall|f: int| 0 <= f < 3200 && !(flat(0, i as int, 0) <= f < flat(0, i as int, d as int))
                    && !(flat(1, i as int, 0) <= f < flat(1, i as int, d as int))
                    ==> #[trigger] self.spec_scores()[f] == old(self).spec_scores()[f],
            decreases 4 - d,
        {
            self.refresh_entry(board, i, d, true);
            self.refresh_entry(board, i, d, false);
            d += 1;
        }
    }

    /// A cache freshly computed for the given board.
    pub fn new(board: &Board) -> (r: IncrementalScores)
        requires
            board.wf(),
        ensures
            r.wf(board@),
    {
        let mut r = IncrementalScores { scores: Vec::new(), total_mine: 0, total_op: 0 };
        r.rebuild_from_board(board);
        r
    }

    /// The incremental position value: the engine's total minus the
    /// opponent's, always equal to the full re-scan of the board the
    /// cache is in step with.
    pub fn evaluate_position(&self, board: &Board) -> (r: i32)
        requires
            self.wf(board@),
        ensures
            r == score_upto(board@, Cell::MyStone, Cell::OpStone, 400),
    {
        proof {
            lemma_block_total(self.spec_scores(), board@, Cell::MyStone, 0, 400);
            lemma_block_total(self.spec_scores(), board@, Cell::OpStone, 1, 400);
            lemma_score_split(board@, 400);
            lemma_sum_bounds(self.spec_scores(), 0, 1600);
            lemma_sum_bounds(self.spec_scores(), 1600, 3200);
        }
        self.total_mine - self.total_op
    }

    /// Records a placement: writes the stone and re-scores the cells
    /// near it; everything further away keeps its cached score.
    pub fn on_stone_placed(&mut self, board: &mut Board, x: usize, y: usize, cell: Cell)
        requires
            old(self).wf(old(board)@),
            old(board).wf(),
            x < 20,
            y < 20,
        ensures
            final(board).wf(),
            final(board)@ == old(board)@.update(idx(x as int, y as int), cell),
            final(self).wf(final(board)@),
    {
        self.apply_change(board, x, y, cell);
    }

    /// Records a removal (an undo): empties the cell and re-scores the
    /// cells near it.
    pub fn on_stone_removed(&mut self, board: &mut Board, x: usize, y: usize)
        requires
            old(self).wf(old(board)@),
            old(board).wf(),
            x < 20,
            y < 20,
        ensures
            final(board).wf(),
            final(board)@ == old(board)@.update(idx(x as int, y as int), Cell::Empty),
            final(self).wf(final(board)@),
    {
        self.apply_change(board, x, y, Cell::Empty);
    }

    fn apply_change(&mut self, board: &mut Board, x: usize, y: usize, cell: Cell)
        requires
            old(self).wf(old(board)@),
            old(board).wf(),
            x < 20,
            y < 20,
        ensures
            final(board).wf(),
            final(board)@ == old(board)@.update(idx(x as int, y as int), cell),
            final(self).wf(final(board)@),
    {
        let ghost v_old = board@;
        let _ = board.set_cell(x, y, cell);
        let ghost v_new = board@;

        let mut i: usize = 0;
        while i < 400
            invariant
                self.sums_ok(),
                board.wf(),
                board@ == v_new,
                v_new == v_old.update(idx(x as int, y as int), cell),
                v_old.len() == 400,
                x < 20,
                y < 20,
                i <= 400,
                forall|i2: int, d: int| 0 <= i2 < i && 0 <= d < 4 ==> #[trigger] self.spec_scores()[flat(
                    0,
                    i2,
                    d,
                )] == score_at(v_new, Cell::MyStone, i2, d),
                forall|i2: int, d: int| 0 <= i2 < i && 0 <= d < 4 ==> #[trigger] self.spec_scores()[flat(
                    1,
                    i2,
                    d,
                )] == score_at(v_new, Cell::OpStone, i2, d),
                forall|i2: int, d: int| i <= i2 < 400 && 0 <= d < 4 ==> #[trigger] self.spec_scores()[flat(
                    0,
                    i2,
                    d,
                )] == score_at(v_old, Cell::MyStone, i2, d),
                forall|i2: int, d: int| i <= i2 < 400 && 0 <= d < 4 ==> #[trigger] self.spec_scores()[flat(
                    1,
                    i2,
                    d,
                )] == score_at(v_old, Cell::OpStone, i2, d),
            decreases 400 - i,
        {
            let cx = i % 20;
            let cy = i / 20;
            let fx = cx as isize - x as isize;
            let fy = cy as isize - y as isize;
            if -5 <= fx && fx <= 5 && -5 <= fy && fy <= 5 {
                self.refresh_cell(board, i);
            } else {
                proof {
                    assert forall|rx: int, ry: int| in_bounds(rx, ry) && within_box(
                        rx,
                        ry,
                        cx as int,
                        cy as int,
                        5,
                    ) implies v_old[idx(rx, ry)] == v_new[idx(rx, ry)] by {
                        assert(!(rx == x && ry == y));
                        assert(idx(rx, ry) != idx(x as int, y as int));
                    }
                    assert forall|d: int| 0 <= d < 4 implies score_at(v_old, Cell::MyStone, i as int, d)
                        == score_at(v_new, Cell::MyStone, i as int, d) && score_at(
                        v_old,
                        Cell::OpStone,
                        i as int,
                        d,
                    ) == score_at(v_new, Cell::OpStone, i as int, d) by {
                        assert(v_old[i as int] == v_new[i as int]) by {
                            assert(in_bounds(cx as int, cy as int));
                            assert(idx(cx as int, cy as int) == i as int);
                        }
                        lemma_seq_score_local(
                            v_old,
                            v_new,
                            Cell::MyStone,
                            cx as int,
                            cy as int,
                            dir_dx(d),
                            dir_dy(d),
                        );
                        lemma_seq_score_local(
                            v_old,
                            v_new,
                            Cell::OpStone,
                            cx as int,
                            cy as int,
                            dir_dx(d),
                            dir_dy(d),
                        );
                    }
                }
            }
            i += 1;
        }
    }
}

proof fn lemma_zero_sum(s: Seq<i32>, lo: int, hi: int)
    requires
        0 <= lo <= hi <= s.len(),
        forall|f: int| 0 <= f < s.len() ==> s[f] == 0,
    ensures
        sum_range(s, lo, hi) == 0,
    decreases hi - lo,
{
    if hi > lo {
        lemma_zero_sum(s, lo, hi - 1);
    }
}

proof fn lemma_block_total(s: Seq<i32>, v: Seq<Cell>, p: Cell, pi: int, n: int)
    requires
        s.len() == 3200,
        pi == 0 || pi == 1,
        p == (if pi == 0 { Cell::MyStone } else { Cell::OpStone }),
        0 <= n <= 400,
        forall|i: int, d: int| 0 <= i < 400 && 0 <= d < 4 ==> #[trigger] s[flat(pi, i, d)]
            == score_at(v, p, i, d),
    ensures
        sum_range(s, pi * 1600, pi * 1600 + 4 * n) == player_total(v, p, n),
    decreases n,
{
    if n > 0 {
        lemma_block_total(s, v, p, pi, n - 1);
        assert(s[flat(pi, n - 1, 0)] == score_at(v, p, n - 1, 0));
        assert(s[flat(pi, n - 1, 1)] == score_at(v, p, n - 1, 1));
        assert(s[flat(pi, n - 1, 2)] == score_at(v, p, n - 1, 2));
        assert(s[flat(pi, n - 1, 3)] == score_at(v, p, n - 1, 3));
        let lo = pi * 1600;
        let b = lo + 4 * (n - 1);
        assert(sum_range(s, lo, b + 4) == sum_range(s, lo, b + 3) + s[b + 3]);
        assert(sum_range(s, lo, b + 3) == sum_range(s, lo, b + 2) + s[b + 2]);
        assert(sum_range(s, lo, b + 2) == sum_range(s, lo, b + 1) + s[b + 1]);
        assert(sum_range(s, lo, b + 1) == sum_range(s, lo, b) + s[b]);
        if v[n - 1] == p {
            assert(cell_score(v, p, (n - 1) % 20, (n - 1) / 20) == seq_score(
                v,
                p,
                (n - 1) % 20,
                (n - 1) / 20,
                1,
                0,
            ) + seq_score(v, p, (n - 1) % 20, (n - 1) / 20, 0, 1) + seq_score(
                v,
                p,
                (n - 1) % 20,
                (n - 1) / 20,
                1,
                1,
            ) + seq_score(v, p, (n - 1) % 20, (n - 1) / 20, 1, -1));
        }
    }
}

proof fn lemma_score_split(v: Seq<Cell>, n: int)
    requires
        0 <= n <= 400,
    ensures
        score_upto(v, Cell::MyStone, Cell::OpStone, n) == player_total(v, Cell::MyStone, n)
            - player_total(v, Cell::OpStone, n),
    decreases n,
{
    if n > 0 {
        lemma_score_split(v, n - 1);
    }
}

} // verus!
