//! Position evaluation and immediate-win detection.
//!
//! Every stone contributes, per direction, a pattern score read off the
//! run through it (its length and whether the run's ends abut empty
//! cells); a position's value is the engine's total minus the
//! opponent's, with completed five-in-a-rows dominating everything.

use vstd::prelude::*;
use crate::board::{Board, Cell, in_bounds, idx, dir_dx, dir_dy, run_len, has_five, dir_step};
use crate::threat::{threat_info, threat_score_at, winning_at};

verus! {

/// Upper bound on the number of candidate moves handed to the search.
pub const MAX_CANDIDATES: usize = 80;

/// Candidate-scoring bonus for occupying a cell where the opponent
/// would otherwise have a winning double threat.
pub const BLOCK_WIN_BONUS: i32 = 20_000;

/// Value of a completed five-in-a-row.
pub const SCORE_WIN: i32 = 100_000;

/// Value of a four-run open at both ends.
pub const SCORE_FOUR_OPEN: i32 = 10_000;

/// Value of a four-run open at one end.
pub const SCORE_FOUR_BLOCKED: i32 = 1_000;

/// Value of a three-run open at both ends.
pub const SCORE_THREE_OPEN: i32 = 1_000;

/// Value of a three-run open at one end.
pub const SCORE_THREE_BLOCKED: i32 = 100;

/// Value of a two-run open at both ends.
pub const SCORE_TWO_OPEN: i32 = 100;

/// Value of a two-run open at one end.
pub const SCORE_TWO_BLOCKED: i32 = 10;

/// Nominal search depth of the fixed-depth search.
pub const MAX_DEPTH: u8 = 4;

/// The other stone colour.
pub open spec fn opponent_of(p: Cell) -> Cell {
    match p {
        Cell::MyStone => Cell::OpStone,
        Cell::OpStone => Cell::MyStone,
        _ => p,
    }
}

/// Whether `p` is one of the two stone colours.
pub open spec fn is_stone(p: Cell) -> bool {
    p == Cell::MyStone || p == Cell::OpStone
}

/// Whether the run of `p` cells strictly after `(x, y)` in direction
/// `(dx, dy)` (at most `limit` cells of it) ends against an empty cell.
/// A run cut off by the board edge, or still going when `limit` cells
/// have been walked, counts as closed.
pub open spec fn run_open(
    v: Seq<Cell>,
    p: Cell,
    x: int,
    y: int,
    dx: int,
    dy: int,
    limit: nat,
) -> bool
    decreases limit,
{
    let nx = x + dx;
    let ny = y + dy;
    if !in_bounds(nx, ny) {
        false
    } else if v[idx(nx, ny)] == p {
        if limit == 0 {
            false
        } else {
            run_open(v, p, nx, ny, dx, dy, (limit - 1) as nat)
        }
    } else {
        v[idx(nx, ny)] == Cell::Empty
    }
}

/// Directional pattern score of the stone at `(x, y)`: the length of the
/// run through it (looking up to four cells each way) scored by the
/// table, halved in worth when only one end is open and worthless when
/// both are closed.
pub open spec fn seq_score(v: Seq<Cell>, p: Cell, x: int, y: int, dx: int, dy: int) -> int {
    let fwd = run_len(v, p, x, y, dx, dy, 4) as int;
    let bwd = run_len(v, p, x, y, -dx, -dy, 4) as int;
    let open_f = run_open(v, p, x, y, dx, dy, 4);
    let open_b = run_open(v, p, x, y, -dx, -dy, 4);
    let run = 1 + fwd + bwd;
    if run >= 4 {
        if open_f && open_b {
            SCORE_FOUR_OPEN as int
        } else if open_f || open_b {
            SCORE_FOUR_BLOCKED as int
        } else {
            0
        }
    } else if run == 3 {
        if open_f && open_b {
            SCORE_THREE_OPEN as int
        } else if open_f || open_b {
            SCORE_THREE_BLOCKED as int
        } else {
            0
        }
    } else if run == 2 {
        if open_f && open_b {
            SCORE_TWO_OPEN as int
        } else if open_f || open_b {
            SCORE_TWO_BLOCKED as int
        } else {
            0
        }
    } else {
        0
    }
}

/// Sum of the four directional scores of the stone at `(x, y)`.
pub open spec fn cell_score(v: Seq<Cell>, p: Cell, x: int, y: int) -> int {
    seq_score(v, p, x, y, 1, 0) + seq_score(v, p, x, y, 0, 1) + seq_score(v, p, x, y, 1, 1)
        + seq_score(v, p, x, y, 1, -1)
}

/// Signed contribution of the cell at raster index `i`: positive for
/// `p`'s stones, negative for the opponent's, zero otherwise.
pub open spec fn signed_cell(v: Seq<Cell>, p: Cell, opp: Cell, i: int) -> int {
    if v[i] == p {
        cell_score(v, p, i % 20, i / 20)
    } else if v[i] == opp {
        -cell_score(v, opp, i % 20, i / 20)
    } else {
        0
    }
}

/// Running pattern-score total over the first `n` cells.
pub open spec fn score_upto(v: Seq<Cell>, p: Cell, opp: Cell, n: int) -> int
    decreases n,
{
    if n <= 0 {
        0
    } else {
        score_upto(v, p, opp, n - 1) + signed_cell(v, p, opp, n - 1)
    }
}

/// Full static value of a position from `p`'s point of view.
pub open spec fn eval_spec(v: Seq<Cell>, p: Cell) -> int {
    if !is_stone(p) {
        0
    } else if has_five(v, p) {
        SCORE_WIN as int
    } else if has_five(v, opponent_of(p)) {
        -(SCORE_WIN as int)
    } else {
        score_upto(v, p, opponent_of(p), 400)
    }
}

/// Placing a `p` stone on the empty cell `(x, y)` completes a run of at
/// least five.
pub open spec fn creates_five(v: Seq<Cell>, p: Cell, x: int, y: int) -> bool {
    &&& in_bounds(x, y)
    &&& v[idx(x, y)] == Cell::Empty
    &&& exists|d: int| 0 <= d < 4 && run_len(v, p, x, y, dir_dx(d), dir_dy(d), 4)
        + run_len(v, p, x, y, -dir_dx(d), -dir_dy(d), 4) >= 4
}

/// `(x1, y1)` comes strictly before `(x2, y2)` in raster order.
pub open spec fn raster_before(x1: int, y1: int, x2: int, y2: int) -> bool {
    y1 < y2 || (y1 == y2 && x1 < x2)
}

/// Walks the run of `p` cells strictly after `(x, y)` in direction
/// `(dx, dy)`, returning its length (capped at four) and whether it ends
/// against an empty cell.
pub fn scan_dir(board: &Board, p: Cell, x: usize, y: usize, dx: isize, dy: isize) -> (r: (
    usize,
    bool,
))
    requires
        board.wf(),
        x < 20,
        y < 20,
        -1 <= dx <= 1,
        -1 <= dy <= 1,
    ensures
        r.0 == run_len(board@, p, x as int, y as int, dx as int, dy as int, 4),
        r.1 == run_open(board@, p, x as int, y as int, dx as int, dy as int, 4),
        r.0 <= 4,
{
    let mut n: usize = 0;
    let mut cx: isize = x as isize;
    let mut cy: isize = y as isize;
    let open: bool;
    loop
        invariant_except_break
            board.wf(),
            n <= 4,
            0 <= cx < 20,
            0 <= cy < 20,
            -1 <= dx <= 1,
            -1 <= dy <= 1,
            run_len(board@, p, x as int, y as int, dx as int, dy as int, 4) == n + run_len(
                board@,
                p,
                cx as int,
                cy as int,
                dx as int,
                dy as int,
                (4 - n) as nat,
            ),
            run_open(board@, p, x as int, y as int, dx as int, dy as int, 4) == run_open(
                board@,
                p,
                cx as int,
                cy as int,
                dx as int,
                dy as int,
                (4 - n) as nat,
            ),
        ensures
            n <= 4,
            n == run_len(board@, p, x as int, y as int, dx as int, dy as int, 4),
            open == run_open(board@, p, x as int, y as int, dx as int, dy as int, 4),
        decreases 5 - n,
    {
        let nx = cx + dx;
        let ny = cy + dy;
        if nx < 0 || nx >= 20 || ny < 0 || ny >= 20 {
            open = false;
            break;
        }
        let c = match board.get_cell(nx as usize, ny as usize) {
            Some(c) => c,
            None => Cell::Empty,
        };
        if c == p {
            if n == 4 {
                open = false;
                break;
            }
            n += 1;
            cx = nx;
            cy = ny;
        } else {
            open = c == Cell::Empty;
            break;
        }
    }
    (n, open)
}

/// Pattern score of the stone at `(x, y)` along `(dx, dy)`; see
/// [`seq_score`].
pub fn evaluate_sequence(board: &Board, x: usize, y: usize, dx: isize, dy: isize, player: Cell) -> (
    r: i32)
    requires
        board.wf(),
        x < 20,
        y < 20,
        -1 <= dx <= 1,
        -1 <= dy <= 1,
    ensures
        r == seq_score(board@, player, x as int, y as int, dx as int, dy as int),
        0 <= r <= 10_000,
{
    let (fwd, open_f) = scan_dir(board, player, x, y, dx, dy);
    let (bwd, open_b) = scan_dir(board, player, x, y, -dx, -dy);
    let run = 1 + fwd + bwd;
    if run >= 4 {
        if open_f && open_b {
            SCORE_FOUR_OPEN
        } else if open_f || open_b {
            SCORE_FOUR_BLOCKED
        } else {
            0
        }
    } else if run == 3 {
        if open_f && open_b {
            SCORE_THREE_OPEN
        } else if open_f || open_b {
            SCORE_THREE_BLOCKED
        } else {
            0
        }
    } else if run == 2 {
        if open_f && open_b {
            SCORE_TWO_OPEN
        } else if open_f || open_b {
            SCORE_TWO_BLOCKED
        } else {
            0
        }
    } else {
        0
    }
}

/// Full static value of the position from `player`'s point of view; see
/// [`eval_spec`].
pub fn evaluate(board: &Board, player: Cell) -> (r: i32)
    requires
        board.wf(),
    ensures
        r == eval_spec(board@, player),
        -16_000_000 <= r <= 16_000_000,
{
    let opponent = match player {
        Cell::MyStone => Cell::OpStone,
        Cell::OpStone => Cell::MyStone,
        _ => { return 0; },
    };

    if board.check_five_in_a_row(player) {
        return SCORE_WIN;
    }
    if board.check_five_in_a_row(opponent) {
        return -SCORE_WIN;
    }

    let mut score: i32 = 0;
    let mut i: usize = 0;
    while i < 400
        invariant
            board.wf(),
            is_stone(player),
            opponent == opponent_of(player),
            i <= 400,
            score == score_upto(board@, player, opponent, i as int),
            -40_000 * i <= score <= 40_000 * i,
        decreases 400 - i,
    {
        let x = i % 20;
        let y = i / 20;
        let c = board.cell_at(i);
        let mut sub: i32 = 0;
        if c == player {
            sub = evaluate_sequence(board, x, y, 1, 0, player) + evaluate_sequence(
                board,
                x,
                y,
                0,
                1,
                player,
            ) + evaluate_sequence(board, x, y, 1, 1, player) + evaluate_sequence(
                board,
                x,
                y,
                1,
                -1,
                player,
            );
        } else if c == opponent {
            sub = -(evaluate_sequence(board, x, y, 1, 0, opponent) + evaluate_sequence(
                board,
                x,
                y,
                0,
                1,
                opponent,
            ) + evaluate_sequence(board, x, y, 1, 1, opponent) + evaluate_sequence(
                board,
                x,
                y,
                1,
                -1,
                opponent,
            ));
        }
        assert(sub == signed_cell(board@, player, opponent, i as int));
        score = score + sub;
        i += 1;
    }
    score
}

/// First empty cell, in raster order, where a `player` stone would
/// complete five in a row.
pub fn find_winning_move(board: &Board, player: Cell) -> (r: Option<(usize, usize)>)
    requires
        board.wf(),
    ensures
        r matches Some(m) ==> creates_five(board@, player, m.0 as int, m.1 as int) && forall|
            xx: int,
            yy: int,
        | raster_before(xx, yy, m.0 as int, m.1 as int) ==> !creates_five(board@, player, xx, yy),
        r is None ==> forall|xx: int, yy: int| !creates_five(board@, player, xx, yy),
{
    let mut y: usize = 0;
    while y < 20
        invariant
            board.wf(),
            y <= 20,
            forall|xx: int, yy: int| yy < y ==> !creates_five(board@, player, xx, yy),
        decreases 20 - y,
    {
        let mut x: usize = 0;
        while x < 20
            invariant
                board.wf(),
                y < 20,
                x <= 20,
                forall|xx: int, yy: int| yy < y ==> !creates_five(board@, player, xx, yy),
                forall|xx: int| xx < x ==> !creates_five(board@, player, xx, y as int),
            decreases 20 - x,
        {
            if board.is_empty(x, y) {
                let mut d: usize = 0;
                while d < 4
                    invariant
                        board.wf(),
                        y < 20,
                        x < 20,
                        d <= 4,
                        board@[idx(x as int, y as int)] == Cell::Empty,
                        forall|xx: int, yy: int| yy < y ==> !creates_five(board@, player, xx, yy),
                        forall|xx: int| xx < x ==> !creates_five(board@, player, xx, y as int),
                        forall|dd: int| 0 <= dd < d ==> run_len(
                            board@,
                            player,
                            x as int,
                            y as int,
                            dir_dx(dd),
                            dir_dy(dd),
                            4,
                        ) + run_len(
                            board@,
                            player,
                            x as int,
                            y as int,
                            -dir_dx(dd),
                            -dir_dy(dd),
                            4,
                        ) < 4,
                    decreases 4 - d,
                {
                    let (dx, dy) = dir_step(d);
                    let fwd = board.run_length(player, x, y, dx, dy, 4);
                    let bwd = board.run_length(player, x, y, -dx, -dy, 4);
                    if fwd + bwd >= 4 {
                        assert(0 <= d < 4 && run_len(
                            board@,
                            player,
                            x as int,
                            y as int,
                            dir_dx(d as int),
                            dir_dy(d as int),
                            4,
                        ) + run_len(
                            board@,
                            player,
                            x as int,
                            y as int,
                            -dir_dx(d as int),
                            -dir_dy(d as int),
                            4,
                        ) >= 4);
                        assert(creates_five(board@, player, x as int, y as int));
                        assert forall|xx: int, yy: int| raster_before(xx, yy, x as int, y as int)
                            implies !creates_five(board@, player, xx, yy) by {
                            if yy == y {
                                assert(xx < x);
                            } else {
                                assert(yy < y);
                            }
                        }
                        return Some((x, y));
                    }
                    d += 1;
                }
                assert(!creates_five(board@, player, x as int, y as int));
            } else {
                assert(!creates_five(board@, player, x as int, y as int));
            }
            x += 1;
        }
        y += 1;
    }
    assert forall|xx: int, yy: int| !creates_five(board@, player, xx, yy) by {
        if in_bounds(xx, yy) {
            assert(yy < 20);
        }
    }
    None
}

/// First empty cell, in raster order, where the opponent would complete
/// five in a row: the cell to block.
pub fn find_blocking_move(board: &Board, opponent: Cell) -> (r: Option<(usize, usize)>)
    requires
        board.wf(),
    ensures
        r matches Some(m) ==> creates_five(board@, opponent, m.0 as int, m.1 as int) && forall|
            xx: int,
            yy: int,
        | raster_before(xx, yy, m.0 as int, m.1 as int) ==> !creates_five(board@, opponent, xx, yy),
        r is None ==> forall|xx: int, yy: int| !creates_five(board@, opponent, xx, yy),
{
    find_winning_move(board, opponent)
}

/// Whether `c` is a stone of either colour.
pub open spec fn is_stone_cell(c: Cell) -> bool {
    c == Cell::MyStone || c == Cell::OpStone
}

/// Number of stones among the first `n` cells.
pub open spec fn count_stones_upto(v: Seq<Cell>, n: int) -> int
    decreases n,
{
    if n <= 0 {
        0
    } else {
        count_stones_upto(v, n - 1) + if is_stone_cell(v[n - 1]) {
            1int
        } else {
            0int
        }
    }
}

/// A stone stands within Chebyshev distance `r` of `(x, y)`.
pub open spec fn near_any_stone(v: Seq<Cell>, x: int, y: int, r: int) -> bool {
    exists|nx: int, ny: int| in_bounds(nx, ny) && is_stone_cell(v[idx(nx, ny)]) && -r <= nx - x
        <= r && -r <= ny - y <= r
}

/// Within Chebyshev distance 1 of one of the four centre cells.
pub open spec fn near_center(x: int, y: int) -> bool {
    8 <= x <= 11 && 8 <= y <= 11
}

/// One of the four centre cells.
pub open spec fn is_center4(x: int, y: int) -> bool {
    9 <= x <= 10 && 9 <= y <= 10
}

/// The neighbourhood policy: on an empty board only the four centre
/// cells; with at most two stones also radius 1 around the centre; and
/// always radius 2 around every stone. Only empty cells qualify.
pub open spec fn in_region(v: Seq<Cell>, x: int, y: int) -> bool {
    &&& in_bounds(x, y)
    &&& v[idx(x, y)] == Cell::Empty
    &&& {
        let n = count_stones_upto(v, 400);
        if n == 0 {
            is_center4(x, y)
        } else if n <= 2 {
            near_center(x, y) || near_any_stone(v, x, y, 2)
        } else {
            near_any_stone(v, x, y, 2)
        }
    }
}

/// No cell qualifies under the neighbourhood policy.
pub open spec fn region_empty(v: Seq<Cell>) -> bool {
    forall|x: int, y: int| !in_region(v, x, y)
}

/// A cell the generator may return: one of the neighbourhood region, or
/// any empty cell as the last-resort fallback when the region is empty.
pub open spec fn is_candidate(v: Seq<Cell>, x: int, y: int) -> bool {
    if region_empty(v) {
        in_bounds(x, y) && v[idx(x, y)] == Cell::Empty
    } else {
        in_region(v, x, y)
    }
}

/// Chebyshev distance of `(x, y)` from the centre cell `(10, 10)`.
pub open spec fn cheb_center(x: int, y: int) -> int {
    let dx = if x >= 10 { x - 10 } else { 10 - x };
    let dy = if y >= 10 { y - 10 } else { 10 - y };
    if dx >= dy { dx } else { dy }
}

/// Worth of placing a `p` stone at the empty cell `(x, y)`: its own
/// threats, plus the full block bonus where the opponent would win
/// there, else half the opponent's threats, plus a centre-proximity
/// bonus in the early game.
pub open spec fn move_score(v: Seq<Cell>, p: Cell, x: int, y: int) -> int {
    let opp = opponent_of(p);
    let own = threat_score_at(v, p, x, y);
    let block = if winning_at(v, opp, x, y) {
        BLOCK_WIN_BONUS as int
    } else {
        threat_score_at(v, opp, x, y) / 2
    };
    let early = if count_stones_upto(v, 400) <= 2 {
        20 - cheb_center(x, y)
    } else {
        0
    };
    own + block + early
}

/// The total order in which candidates are handed out: score
/// descending, then centre distance, row and column ascending.
pub open spec fn move_before(v: Seq<Cell>, p: Cell, a: (usize, usize), b: (usize, usize)) -> bool {
    let sa = move_score(v, p, a.0 as int, a.1 as int);
    let sb = move_score(v, p, b.0 as int, b.1 as int);
    let da = cheb_center(a.0 as int, a.1 as int);
    let db = cheb_center(b.0 as int, b.1 as int);
    ||| sa > sb
    ||| (sa == sb && da < db)
    ||| (sa == sb && da == db && (a.1 < b.1 || (a.1 == b.1 && a.0 <= b.0)))
}

/// Counts the stones on the board.
fn count_stones(board: &Board) -> (n: usize)
    requires
        board.wf(),
    ensures
        n == count_stones_upto(board@, 400),
        n <= 400,
{
    let mut n: usize = 0;
    let mut i: usize = 0;
    while i < 400
        invariant
            board.wf(),
            i <= 400,
            n == count_stones_upto(board@, i as int),
            n <= i,
        decreases 400 - i,
    {
        let c = board.cell_at(i);
        if matches!(c, Cell::MyStone | Cell::OpStone) {
            n += 1;
        }
        i += 1;
    }
    n
}

/// Whether a stone stands within Chebyshev distance 2 of `(x, y)`.
fn near_stone(board: &Board, x: usize, y: usize) -> (r: bool)
    requires
        board.wf(),
        x < 20,
        y < 20,
    ensures
        r == near_any_stone(board@, x as int, y as int, 2),
{
    let y0 = if y >= 2 { y - 2 } else { 0 };
    let y1 = if y + 2 <= 19 { y + 2 } else { 19 };
    let x0 = if x >= 2 { x - 2 } else { 0 };
    let x1 = if x + 2 <= 19 { x + 2 } else { 19 };
    let mut ny = y0;
    while ny <= y1
        invariant
            board.wf(),
            x < 20,
            y < 20,
            x0 <= x1 < 20,
            y0 <= ny <= y1 + 1,
            y1 < 20,
            x0 == if x >= 2 { x - 2 } else { 0 },
            x1 == if x + 2 <= 19 { x + 2 } else { 19 },
            y0 == if y >= 2 { y - 2 } else { 0 },
            y1 == if y + 2 <= 19 { y + 2 } else { 19 },
            forall|xx: int, yy: int| x0 <= xx <= x1 && y0 <= yy < ny ==> !is_stone_cell(
                board@[idx(xx, yy)],
            ),
        decreases y1 + 1 - ny,
    {
        let mut nx = x0;
        while nx <= x1
            invariant
                board.wf(),
                x < 20,
                y < 20,
                x0 <= nx <= x1 + 1,
                x1 < 20,
                y0 <= ny <= y1,
                y1 < 20,
                x0 == if x >= 2 { x - 2 } else { 0 },
                x1 == if x + 2 <= 19 { x + 2 } else { 19 },
                y0 == if y >= 2 { y - 2 } else { 0 },
                y1 == if y + 2 <= 19 { y + 2 } else { 19 },
                forall|xx: int, yy: int| x0 <= xx <= x1 && y0 <= yy < ny ==> !is_stone_cell(
                    board@[idx(xx, yy)],
                ),
                forall|xx: int| x0 <= xx < nx ==> !is_stone_cell(board@[idx(xx, ny as int)]),
            decreases x1 + 1 - nx,
        {
            let c = board.cell_at(ny * 20 + nx);
            if matches!(c, Cell::MyStone | Cell::OpStone) {
                assert(in_bounds(nx as int, ny as int) && is_stone_cell(
                    board@[idx(nx as int, ny as int)],
                ) && -2 <= nx - x <= 2 && -2 <= ny - y <= 2);
                return true;
            }
            nx += 1;
        }
        ny += 1;
    }
    assert forall|xx: int, yy: int| !(in_bounds(xx, yy) && is_stone_cell(board@[idx(xx, yy)]) && -2
        <= xx - x <= 2 && -2 <= yy - y <= 2) by {
        if in_bounds(xx, yy) && -2 <= xx - x <= 2 && -2 <= yy - y <= 2 {
            assert(x0 <= xx <= x1 && y0 <= yy <= y1);
        }
    }
    false
}

/// Chebyshev distance from the centre, as executable code.
pub fn cheb_dist(x: usize, y: usize) -> (r: usize)
    requires
        x < 20,
        y < 20,
    ensures
        r == cheb_center(x as int, y as int),
        r <= 10,
{
    let dx = if x >= 10 { x - 10 } else { 10 - x };
    let dy = if y >= 10 { y - 10 } else { 10 - y };
    if dx >= dy { dx } else { dy }
}

/// Worth of placing a `p` stone at `(x, y)`; see [`move_score`].
fn move_score_exec(board: &Board, player: Cell, x: usize, y: usize, early: bool) -> (r: i32)
    requires
        board.wf(),
        is_stone(player),
        x < 20,
        y < 20,
        early == (count_stones_upto(board@, 400) <= 2),
    ensures
        r == move_score(board@, player, x as int, y as int),
{
    let opp = match player {
        Cell::MyStone => Cell::OpStone,
        _ => Cell::MyStone,
    };
    let my_t = threat_info(board, player, x, y);
    let opp_t = threat_info(board, opp, x, y);
    let block = if opp_t.is_winning() {
        BLOCK_WIN_BONUS
    } else {
        opp_t.score() / 2
    };
    let early_bonus: i32 = if early {
        20 - cheb_dist(x, y) as i32
    } else {
        0
    };
    my_t.score() + block + early_bonus
}

/// A candidate under scoring: its worth and coordinates.
#[derive(Clone, Copy)]
struct Cand {
    score: i32,
    x: usize,
    y: usize,
}

/// `c` faithfully describes a scored candidate of `v`.
spec fn cand_ok(v: Seq<Cell>, p: Cell, c: Cand) -> bool {
    &&& c.x < 20
    &&& c.y < 20
    &&& is_candidate(v, c.x as int, c.y as int)
    &&& c.score == move_score(v, p, c.x as int, c.y as int)
}

/// The candidate order on scored entries; mirrors [`move_before`].
spec fn cand_before(a: Cand, b: Cand) -> bool {
    let da = cheb_center(a.x as int, a.y as int);
    let db = cheb_center(b.x as int, b.y as int);
    ||| a.score > b.score
    ||| (a.score == b.score && da < db)
    ||| (a.score == b.score && da == db && (a.y < b.y || (a.y == b.y && a.x <= b.x)))
}

/// Some entry of `s` stands at `(x, y)`.
spec fn contains_coord(s: Seq<Cand>, x: int, y: int) -> bool {
    exists|k: int| 0 <= k < s.len() && s[k].x == x && s[k].y == y
}

/// Entries at pairwise distinct coordinates.
spec fn distinct_coords(s: Seq<Cand>) -> bool {
    forall|k1: int, k2: int| 0 <= k1 < k2 < s.len() ==> !(s[k1].x == s[k2].x && s[k1].y
        == s[k2].y)
}

fn cand_le(a: &Cand, b: &Cand) -> (r: bool)
    requires
        a.x < 20,
        a.y < 20,
        b.x < 20,
        b.y < 20,
    ensures
        r == cand_before(*a, *b),
{
    let da = cheb_dist(a.x, a.y);
    let db = cheb_dist(b.x, b.y);
    a.score > b.score || (a.score == b.score && da < db) || (a.score == b.score && da == db && (
    a.y < b.y || (a.y == b.y && a.x <= b.x)))
}

/// Index of the entry that must be handed out first.
fn best_index(cands: &Vec<Cand>) -> (b: usize)
    requires
        cands@.len() > 0,
        forall|k: int| 0 <= k < cands@.len() ==> cands@[k].x < 20 && cands@[k].y < 20,
    ensures
        b < cands@.len(),
        forall|k: int| 0 <= k < cands@.len() ==> cand_before(cands@[b as int], cands@[k]),
{
    let mut b: usize = 0;
    let mut k: usize = 1;
    while k < cands.len()
        invariant
            cands@.len() > 0,
            forall|j: int| 0 <= j < cands@.len() ==> cands@[j].x < 20 && cands@[j].y < 20,
            b < k,
            k <= cands@.len(),
            forall|j: int| 0 <= j < k ==> cand_before(cands@[b as int], cands@[j]),
        decreases cands@.len() - k,
    {
        if !cand_le(&cands[b], &cands[k]) {
            assert(cand_before(cands@[k as int], cands@[b as int]));
            let ghost old_b = b as int;
            b = k;
            assert forall|j: int| 0 <= j < k + 1 implies cand_before(cands@[b as int], cands@[j])
                by {
                if j < k {
                    assert(cand_before(cands@[old_b], cands@[j]));
                }
            }
        }
        k += 1;
    }
    b
}

/// An ordered list of empty cells near the action for the search to
/// try: the neighbourhood region of [`in_region`] (or every empty cell
/// when that region is empty), scored by [`move_score`], handed out in
/// the order of [`move_before`] and capped at [`MAX_CANDIDATES`].
pub fn generate_moves(board: &Board, player: Cell) -> (r: Vec<(usize, usize)>)
    requires
        board.wf(),
        is_stone(player),
    ensures
        r@.len() <= 80,
        forall|k: int| 0 <= k < r@.len() ==> is_candidate(board@, r@[k].0 as int, r@[k].1 as int),
        forall|k: int| 0 <= k < r@.len() ==> r@[k].0 < 20 && r@[k].1 < 20 && board@[idx(
            r@[k].0 as int,
            r@[k].1 as int,
        )] == Cell::Empty,
        forall|k1: int, k2: int| 0 <= k1 < k2 < r@.len() ==> r@[k1] != r@[k2],
        forall|k1: int, k2: int| 0 <= k1 <= k2 < r@.len() ==> move_before(
            board@,
            player,
            r@[k1],
            r@[k2],
        ),
        forall|x: int, y: int| is_candidate(board@, x, y) ==> r@.len() == 80 || r@.contains(
            ((x as usize), (y as usize)),
        ),
        forall|x: int, y: int, k: int|
            #![trigger r@[k], is_candidate(board@, x, y)]
            is_candidate(board@, x, y) && !r@.contains(((x as usize), (y as usize))) && 0 <= k
                < r@.len() ==> move_before(board@, player, r@[k], ((x as usize), (y as usize))),
        (exists|i: int| 0 <= i < 400 && board@[i] == Cell::Empty) ==> r@.len() > 0,
{
    let count = count_stones(board);
    let early = count <= 2;

    // Pass one: the neighbourhood region.
    let mut coords: Vec<(usize, usize)> = Vec::new();
    let mut i: usize = 0;
    while i < 400
        invariant
            board.wf(),
            i <= 400,
            count == count_stones_upto(board@, 400),
            forall|k: int| 0 <= k < coords@.len() ==> in_region(
                board@,
                coords@[k].0 as int,
                coords@[k].1 as int,
            ) && idx(coords@[k].0 as int, coords@[k].1 as int) < i,
            forall|x: int, y: int| in_region(board@, x, y) && idx(x, y) < i ==> coords@.contains(
                ((x as usize), (y as usize)),
            ),
            forall|k1: int, k2: int| 0 <= k1 < k2 < coords@.len() ==> coords@[k1] != coords@[k2],
        decreases 400 - i,
    {
        let x = i % 20;
        let y = i / 20;
        let ghost coords_old = coords@;
        let c = board.cell_at(i);
        if matches!(c, Cell::Empty) {
            let inr: bool = if count == 0 {
                9 <= x && x <= 10 && 9 <= y && y <= 10
            } else {
                let ns = near_stone(board, x, y);
                if count <= 2 {
                    (8 <= x && x <= 11 && 8 <= y && y <= 11) || ns
                } else {
                    ns
                }
            };
            assert(inr == in_region(board@, x as int, y as int));
            if inr {
                coords.push((x, y));
            }
        } else {
            assert(!in_region(board@, (i % 20) as int, (i / 20) as int));
        }
        assert forall|x2: int, y2: int| in_region(board@, x2, y2) && idx(x2, y2) < i + 1 implies
            coords@.contains(((x2 as usize), (y2 as usize))) by {
            if idx(x2, y2) == i {
                assert(x2 == i % 20 && y2 == i / 20);
                assert(coords@[coords@.len() - 1] == ((x2 as usize), (y2 as usize)));
            } else {
                assert(coords_old.contains(((x2 as usize), (y2 as usize))));
                let kk = choose|kk: int| 0 <= kk < coords_old.len() && coords_old[kk] == ((
                x2 as usize), (y2 as usize));
                assert(coords@[kk] == ((x2 as usize), (y2 as usize)));
            }
        }
        i += 1;
    }

    proof {
        if coords@.len() == 0 {
            assert forall|x: int, y: int| !in_region(board@, x, y) by {
                if in_region(board@, x, y) {
                    assert(coords@.contains(((x as usize), (y as usize))));
                }
            }
            assert(region_empty(board@));
        } else {
            let c0 = coords@[0];
            assert(in_region(board@, c0.0 as int, c0.1 as int));
            assert(!region_empty(board@));
        }
    }

    // Last resort: every empty cell.
    if coords.len() == 0 {
        let mut j: usize = 0;
        while j < 400
            invariant
                board.wf(),
                j <= 400,
                forall|k: int| 0 <= k < coords@.len() ==> in_bounds(
                    coords@[k].0 as int,
                    coords@[k].1 as int,
                ) && board@[idx(coords@[k].0 as int, coords@[k].1 as int)] == Cell::Empty && idx(
                    coords@[k].0 as int,
                    coords@[k].1 as int,
                ) < j,
                forall|x: int, y: int| in_bounds(x, y) && board@[idx(x, y)] == Cell::Empty && idx(
                    x,
                    y,
                ) < j ==> coords@.contains(((x as usize), (y as usize))),
                forall|k1: int, k2: int| 0 <= k1 < k2 < coords@.len() ==> coords@[k1]
                    != coords@[k2],
            decreases 400 - j,
        {
            let x = j % 20;
            let y = j / 20;
            let ghost coords_old = coords@;
            let c = board.cell_at(j);
            if matches!(c, Cell::Empty) {
                coords.push((x, y));
            }
            assert forall|x2: int, y2: int| in_bounds(x2, y2) && board@[idx(x2, y2)]
                == Cell::Empty && idx(x2, y2) < j + 1 implies coords@.contains(
                ((x2 as usize), (y2 as usize)),
            ) by {
                if idx(x2, y2) == j {
                    assert(x2 == j % 20 && y2 == j / 20);
                    assert(coords@[coords@.len() - 1] == ((x2 as usize), (y2 as usize)));
                } else {
                    assert(coords_old.contains(((x2 as usize), (y2 as usize))));
                    let kk = choose|kk: int| 0 <= kk < coords_old.len() && coords_old[kk] == ((
                    x2 as usize), (y2 as usize));
                    assert(coords@[kk] == ((x2 as usize), (y2 as usize)));
                }
            }
            j += 1;
        }
    }

    proof {
        assert forall|k: int| 0 <= k < coords@.len() implies is_candidate(
            board@,
            coords@[k].0 as int,
            coords@[k].1 as int,
        ) && coords@[k].0 < 20 && coords@[k].1 < 20 by {}
        assert forall|x: int, y: int| is_candidate(board@, x, y) implies coords@.contains(
            ((x as usize), (y as usize)),
        ) by {}
    }

    // Score every candidate.
    let mut cands: Vec<Cand> = Vec::new();
    let mut k: usize = 0;
    while k < coords.len()
        invariant
            board.wf(),
            is_stone(player),
            count == count_stones_upto(board@, 400),
            early == (count_stones_upto(board@, 400) <= 2),
            k <= coords@.len(),
            cands@.len() == k,
            forall|j: int| 0 <= j < coords@.len() ==> is_candidate(
                board@,
                coords@[j].0 as int,
                coords@[j].1 as int,
            ) && coords@[j].0 < 20 && coords@[j].1 < 20,
            forall|j: int| 0 <= j < k ==> cands@[j].x == coords@[j].0 && cands@[j].y
                == coords@[j].1 && cand_ok(board@, player, cands@[j]),
        decreases coords@.len() - k,
    {
        let (x, y) = coords[k];
        let s = move_score_exec(board, player, x, y, early);
        cands.push(Cand { score: s, x, y });
        k += 1;
    }

    proof {
        assert forall|x: int, y: int| is_candidate(board@, x, y) implies contains_coord(
            cands@,
            x,
            y,
        ) by {
            assert(coords@.contains(((x as usize), (y as usize))));
            let kk = choose|kk: int| 0 <= kk < coords@.len() && coords@[kk] == ((x as usize), (
            y as usize));
            assert(cands@[kk].x == x && cands@[kk].y == y);
        }
        assert(distinct_coords(cands@)) by {
            assert forall|k1: int, k2: int| 0 <= k1 < k2 < cands@.len() implies !(cands@[k1].x
                == cands@[k2].x && cands@[k1].y == cands@[k2].y) by {
                assert(coords@[k1] != coords@[k2]);
            }
        }
    }

    // Hand the entries out in order.
    let mut out: Vec<Cand> = Vec::new();
    while cands.len() > 0
        invariant
            board.wf(),
            is_stone(player),
            forall|j: int| 0 <= j < cands@.len() ==> cand_ok(board@, player, cands@[j]),
            forall|j: int| 0 <= j < out@.len() ==> cand_ok(board@, player, out@[j]),
            forall|j1: int, j2: int| 0 <= j1 <= j2 < out@.len() ==> cand_before(
                out@[j1],
                out@[j2],
            ),
            forall|j1: int, j2: int| 0 <= j1 < out@.len() && 0 <= j2 < cands@.len() ==> cand_before(
                out@[j1],
                cands@[j2],
            ),
            distinct_coords(out@),
            distinct_coords(cands@),
            forall|x: int, y: int| contains_coord(out@, x, y) ==> !contains_coord(cands@, x, y),
            forall|x: int, y: int| is_candidate(board@, x, y) ==> contains_coord(out@, x, y)
                || contains_coord(cands@, x, y),
        decreases cands@.len(),
    {
        let b = best_index(&cands);
        let ghost before = cands@;
        let c = cands.remove(b);
        proof {
            assert forall|x: int, y: int| contains_coord(before, x, y) implies (x == c.x && y
                == c.y) || contains_coord(cands@, x, y) by {
                if contains_coord(before, x, y) {
                    let j = choose|j: int| 0 <= j < before.len() && before[j].x == x && before[j].y
                        == y;
                    if j != b {
                        if j < b {
                            assert(cands@[j].x == x && cands@[j].y == y);
                        } else {
                            assert(cands@[j - 1].x == x && cands@[j - 1].y == y);
                        }
                    } else {
                        assert(x == c.x && y == c.y);
                    }
                }
            }
            assert forall|x: int, y: int| contains_coord(cands@, x, y) implies contains_coord(
                before,
                x,
                y,
            ) && !(x == c.x && y == c.y) by {
                if contains_coord(cands@, x, y) {
                    let j = choose|j: int| 0 <= j < cands@.len() && cands@[j].x == x && cands@[j].y
                        == y;
                    if j < b {
                        assert(before[j].x == x && before[j].y == y);
                        assert(!(x == c.x && y == c.y));
                    } else {
                        assert(before[j + 1].x == x && before[j + 1].y == y);
                        assert(!(x == c.x && y == c.y));
                    }
                }
            }
            assert forall|j: int| 0 <= j < cands@.len() implies cand_ok(board@, player, cands@[j])
                && cand_before(c, cands@[j]) by {
                if j < b {
                    assert(cands@[j] == before[j]);
                } else {
                    assert(cands@[j] == before[j + 1]);
                }
            }
        }
        let ghost out_old = out@;
        out.push(c);
        proof {
            assert forall|x: int, y: int| is_candidate(board@, x, y) implies contains_coord(
                out@,
                x,
                y,
            ) || contains_coord(cands@, x, y) by {
                if contains_coord(out_old, x, y) {
                    let j = choose|j: int| 0 <= j < out_old.len() && out_old[j].x == x
                        && out_old[j].y == y;
                    assert(out@[j].x == x && out@[j].y == y);
                } else if contains_coord(before, x, y) && x == c.x && y == c.y {
                    assert(out@[out@.len() - 1] == c);
                }
            }
            assert forall|x: int, y: int| contains_coord(out@, x, y) implies !contains_coord(
                cands@,
                x,
                y,
            ) by {
                if contains_coord(out@, x, y) {
                    let j = choose|j: int| 0 <= j < out@.len() && out@[j].x == x && out@[j].y
                        == y;
                    if j < out_old.len() {
                        assert(contains_coord(out_old, x, y));
                    } else {
                        assert(x == c.x && y == c.y);
                        assert(contains_coord(before, x, y));
                    }
                }
            }
            assert(distinct_coords(out@)) by {
                assert forall|k1: int, k2: int| 0 <= k1 < k2 < out@.len() implies !(out@[k1].x
                    == out@[k2].x && out@[k1].y == out@[k2].y) by {
                    if k2 < out_old.len() {
                        assert(out@[k1] == out_old[k1] && out@[k2] == out_old[k2]);
                    } else {
                        assert(out@[k2] == c);
                        assert(contains_coord(before, c.x as int, c.y as int));
                        if out@[k1].x == c.x && out@[k1].y == c.y {
                            assert(contains_coord(out_old, c.x as int, c.y as int));
                        }
                    }
                }
            }
        }
    }

    let ghost out_full = out@;

    // Cap the branching factor.
    if out.len() > MAX_CANDIDATES {
        out.truncate(MAX_CANDIDATES);
    }

    // Strip the entries back to coordinates.
    let mut r: Vec<(usize, usize)> = Vec::new();
    let mut m: usize = 0;
    while m < out.len()
        invariant
            board.wf(),
            is_stone(player),
            m <= out@.len(),
            r@.len() == m,
            forall|j: int| 0 <= j < out@.len() ==> cand_ok(board@, player, out@[j]),
            forall|j1: int, j2: int| 0 <= j1 <= j2 < out@.len() ==> cand_before(
                out@[j1],
                out@[j2],
            ),
            distinct_coords(out@),
            forall|j: int| 0 <= j < m ==> r@[j] == (out@[j].x, out@[j].y),
        decreases out@.len() - m,
    {
        let e = out[m];
        r.push((e.x, e.y));
        m += 1;
    }

    proof {
        assert forall|k1: int, k2: int| 0 <= k1 <= k2 < r@.len() implies move_before(
            board@,
            player,
            r@[k1],
            r@[k2],
        ) by {
            assert(cand_before(out@[k1], out@[k2]));
            assert(cand_ok(board@, player, out@[k1]));
            assert(cand_ok(board@, player, out@[k2]));
        }
        assert forall|x: int, y: int| is_candidate(board@, x, y) implies r@.len() == 80
            || r@.contains(((x as usize), (y as usize))) by {
            if r@.len() != 80 {
                assert(contains_coord(out@, x, y));
                let j = choose|j: int| 0 <= j < out@.len() && out@[j].x == x && out@[j].y == y;
                assert(r@[j] == (out@[j].x, out@[j].y));
            }
        }
        assert forall|x: int, y: int, k: int|
            is_candidate(board@, x, y) && !r@.contains(((x as usize), (y as usize))) && 0 <= k
                < r@.len() implies move_before(board@, player, r@[k], ((x as usize), (y as usize)))
            by {
            assert(contains_coord(out_full, x, y));
            let j = choose|j: int| 0 <= j < out_full.len() && out_full[j].x == x && out_full[j].y
                == y;
            if j < out@.len() {
                assert(out@[j] == out_full[j]);
                assert(r@[j] == (out@[j].x, out@[j].y));
                assert(r@.contains(((x as usize), (y as usize))));
            } else {
                assert(cand_before(out_full[k], out_full[j]));
                assert(cand_ok(board@, player, out_full[k]));
                assert(cand_ok(board@, player, out_full[j]));
                assert(out@[k] == out_full[k]);
                assert(r@[k] == (out@[k].x, out@[k].y));
            }
        }
        if exists|i2: int| 0 <= i2 < 400 && board@[i2] == Cell::Empty {
            let i2 = choose|i2: int| 0 <= i2 < 400 && board@[i2] == Cell::Empty;
            if region_empty(board@) {
                assert(is_candidate(board@, i2 % 20, i2 / 20));
            } else {
                let (wx, wy) = choose|wx: int, wy: int| in_region(board@, wx, wy);
                assert(is_candidate(board@, wx, wy));
            }
        }
    }
    r
}

} // verus!
