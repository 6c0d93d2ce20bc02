//! The move-search engine: depth-limited minimax with alpha-beta
//! pruning over the candidate list, consulting and filling the
//! transposition table, run under iterative deepening with a wall-clock
//! deadline, an immediate win/block precheck in front and a guaranteed
//! fallback move behind.

use vstd::prelude::*;
use crate::board::{Board, Cell, in_bounds, idx, has_five};
use crate::ai::{
    evaluate, find_winning_move, find_blocking_move, generate_moves, creates_five, raster_before,
    cheb_center, is_stone, opponent_of, SCORE_WIN, MAX_DEPTH,
};
use crate::zobrist::{ZobristKeys, TranspositionTable, TTEntry, TTFlag, compute_board_hash};
use crate::threat::threat_info;

verus! {

/// Number of root candidates actually searched per depth.
pub const ROOT_MOVES: usize = 15;

/// Extra plies of forcing moves searched beyond the nominal horizon.
pub const QUIESCENCE_DEPTH: u8 = 2;

/// Search values stay well inside this bound.
pub const SCORE_LIMIT: i32 = 16_200_000;

/// Relies on std::time::SystemTime::now and duration_since: a
/// best-effort wall-clock reading in milliseconds since the epoch.
/// Nothing is assumed of the value returned.
#[verifier::external_body]
fn now_millis() -> u64 {
    match std::time::SystemTime::now().duration_since(std::time::UNIX_EPOCH) {
        Ok(d) => {
            let ms = d.as_millis();
            if ms > u64::MAX as u128 {
                u64::MAX
            } else {
                ms as u64
            }
        },
        Err(_) => 0,
    }
}

/// Killer levels tracked: one pair of slots per search depth.
pub const KILLER_LEVELS: usize = 16;

/// The move-ordering memory of one game: per-depth killer moves (the
/// two most recent distinct cutoff moves of that depth) and per-player,
/// per-cell history counters grown on every cutoff.
pub struct Heuristics {
    killers: Vec<Option<(usize, usize)>>,
    history: Vec<u32>,
}

impl Heuristics {
    /// Two killer slots per tracked depth, one counter per player and
    /// cell.
    pub open spec fn wf(&self) -> bool {
        self.spec_killers().len() == 2 * KILLER_LEVELS && self.spec_history().len() == 800
    }

    /// The killer slots as the contracts see them.
    pub closed spec fn spec_killers(&self) -> Seq<Option<(usize, usize)>> {
        self.killers@
    }

    /// The history counters as the contracts see them.
    pub closed spec fn spec_history(&self) -> Seq<u32> {
        self.history@
    }

    /// No killer remembered, every history counter at zero.
    pub open spec fn is_empty(&self) -> bool {
        &&& self.wf()
        &&& forall|k: int| 0 <= k < 2 * KILLER_LEVELS ==> #[trigger] self.spec_killers()[k]
            is None
        &&& forall|h: int| 0 <= h < 800 ==> #[trigger] self.spec_history()[h] == 0
    }

    /// Empty tables.
    pub fn new() -> (r: Heuristics)
        ensures
            r.is_empty(),
    {
        let mut killers: Vec<Option<(usize, usize)>> = Vec::new();
        let mut k: usize = 0;
        while k < 2 * KILLER_LEVELS
            invariant
                killers@.len() == k,
                k <= 2 * KILLER_LEVELS,
                forall|j: int| 0 <= j < k ==> #[trigger] killers@[j] is None,
            decreases 2 * KILLER_LEVELS - k,
        {
            killers.push(None);
            k += 1;
        }
        let mut history: Vec<u32> = Vec::new();
        let mut h: usize = 0;
        while h < 800
            invariant
                history@.len() == h,
                h <= 800,
                forall|j: int| 0 <= j < h ==> #[trigger] history@[j] == 0,
            decreases 800 - h,
        {
            history.push(0);
            h += 1;
        }
        Heuristics { killers, history }
    }

    /// Forgets everything; called on game start and restart.
    pub fn clear(&mut self)
        requires
            old(self).wf(),
        ensures
            final(self).is_empty(),
    {
        let mut k: usize = 0;
        while k < 2 * KILLER_LEVELS
            invariant
                self.wf(),
                k <= 2 * KILLER_LEVELS,
                forall|j: int| 0 <= j < k ==> #[trigger] self.spec_killers()[j] is None,
            decreases 2 * KILLER_LEVELS - k,
        {
            self.killers.set(k, None);
            k += 1;
        }
        let mut h: usize = 0;
        while h < 800
            invariant
                self.wf(),
                h <= 800,
                forall|j: int| 0 <= j < 2 * KILLER_LEVELS ==> #[trigger] self.spec_killers()[j]
                    is None,
                forall|j: int| 0 <= j < h ==> #[trigger] self.spec_history()[j] == 0,
            decreases 800 - h,
        {
            self.history.set(h, 0);
            h += 1;
        }
    }

    /// The killer slot `which` of the given depth.
    fn killer(&self, depth: u8, which: usize) -> (r: Option<(usize, usize)>)
        requires
            self.wf(),
            which < 2,
    {
        let lvl: usize = if depth as usize >= KILLER_LEVELS {
            KILLER_LEVELS - 1
        } else {
            depth as usize
        };
        self.killers[2 * lvl + which]
    }

    /// The accumulated cutoff weight of a move.
    fn history_of(&self, mine: bool, x: usize, y: usize) -> (r: u32)
        requires
            self.wf(),
            x < 20,
            y < 20,
    {
        let base: usize = if mine {
            0
        } else {
            400
        };
        self.history[base + y * 20 + x]
    }

    /// Registers a beta cutoff: the move becomes the most recent killer
    /// of its depth (keeping two distinct slots) and its history grows
    /// by the square of the depth.
    fn note_cutoff(&mut self, depth: u8, mine: bool, x: usize, y: usize)
        requires
            old(self).wf(),
            x < 20,
            y < 20,
        ensures
            final(self).wf(),
    {
        let lvl: usize = if depth as usize >= KILLER_LEVELS {
            KILLER_LEVELS - 1
        } else {
            depth as usize
        };
        let slot0 = self.killers[2 * lvl];
        let already = match slot0 {
            Some(m) => m.0 == x && m.1 == y,
            None => false,
        };
        if !already {
            self.killers.set(2 * lvl + 1, slot0);
            self.killers.set(2 * lvl, Some((x, y)));
        }
        let base: usize = if mine {
            0
        } else {
            400
        };
        let h = base + y * 20 + x;
        let d = depth as u32;
        proof {
            assert(d * d <= 255 * 255) by (nonlinear_arith)
                requires
                    d <= 255,
            ;
        }
        let grown = self.history[h].saturating_add(d * d);
        self.history.set(h, grown);
    }
}

/// Moves a matching entry to the front of the candidate list; the
/// displaced entry takes its place. Every entry of the result was
/// already a candidate.
fn promote(moves: &mut Vec<(usize, usize)>, target: (usize, usize))
    ensures
        final(moves)@.len() == old(moves)@.len(),
        forall|k: int| 0 <= k < final(moves)@.len() ==> old(moves)@.contains(
            #[trigger] final(moves)@[k],
        ),
{
    let mut j: usize = 0;
    let n = moves.len();
    while j < n
        invariant
            n == moves@.len(),
            j <= n,
            forall|k: int| 0 <= k < moves@.len() ==> old(moves)@.contains(#[trigger] moves@[k]),
            moves@ == old(moves)@,
        decreases n - j,
    {
        let m = moves[j];
        if m.0 == target.0 && m.1 == target.1 {
            let front = moves[0];
            moves.set(0, m);
            moves.set(j, front);
            proof {
                assert forall|k: int| 0 <= k < moves@.len() implies old(moves)@.contains(
                    #[trigger] moves@[k],
                ) by {
                    if k == 0 {
                        assert(moves@[k] == old(moves)@[j as int]);
                    } else if k == j {
                        assert(moves@[k] == old(moves)@[0]);
                    } else {
                        assert(moves@[k] == old(moves)@[k]);
                    }
                }
            }
            return ;
        }
        j += 1;
    }
}

/// Orders candidates for the search: history weight descending, then
/// the depth's killer moves, then the cached best move in front. Purely
/// heuristic: every entry handed on was a generated candidate.
fn order_moves(
    moves: &mut Vec<(usize, usize)>,
    heur: &Heuristics,
    mine: bool,
    depth: u8,
    tt_move: Option<(usize, usize)>,
)
    requires
        heur.wf(),
        forall|k: int| 0 <= k < old(moves)@.len() ==> (#[trigger] old(moves)@[k]).0 < 20
            && old(moves)@[k].1 < 20,
    ensures
        final(moves)@.len() == old(moves)@.len(),
        forall|k: int| 0 <= k < final(moves)@.len() ==> old(moves)@.contains(
            #[trigger] final(moves)@[k],
        ),
{
    // Insertion sort by history weight, descending.
    let mut i: usize = 1;
    while i < moves.len()
        invariant
            heur.wf(),
            1 <= i,
            moves@.len() == old(moves)@.len(),
            forall|k: int| 0 <= k < moves@.len() ==> old(moves)@.contains(#[trigger] moves@[k]),
            forall|k: int| 0 <= k < moves@.len() ==> (#[trigger] moves@[k]).0 < 20
                && moves@[k].1 < 20,
        decreases moves@.len() - i,
    {
        let mut j: usize = i;
        while j > 0
            invariant_except_break
                heur.wf(),
                j <= i < moves@.len(),
                moves@.len() == old(moves)@.len(),
                forall|k: int| 0 <= k < moves@.len() ==> old(moves)@.contains(
                    #[trigger] moves@[k],
                ),
                forall|k: int| 0 <= k < moves@.len() ==> (#[trigger] moves@[k]).0 < 20
                    && moves@[k].1 < 20,
            ensures
                moves@.len() == old(moves)@.len(),
                forall|k: int| 0 <= k < moves@.len() ==> old(moves)@.contains(
                    #[trigger] moves@[k],
                ),
                forall|k: int| 0 <= k < moves@.len() ==> (#[trigger] moves@[k]).0 < 20
                    && moves@[k].1 < 20,
            decreases j,
        {
            let a = moves[j - 1];
            let b = moves[j];
            if heur.history_of(mine, b.0, b.1) > heur.history_of(mine, a.0, a.1) {
                let ghost before = moves@;
                moves.set(j - 1, b);
                moves.set(j, a);
                proof {
                    assert forall|k: int| 0 <= k < moves@.len() implies old(moves)@.contains(
                        #[trigger] moves@[k],
                    ) && moves@[k].0 < 20 && moves@[k].1 < 20 by {
                        if k == j - 1 {
                            assert(moves@[k] == before[j as int]);
                        } else if k == j {
                            assert(moves@[k] == before[j - 1]);
                        } else {
                            assert(moves@[k] == before[k]);
                        }
                    }
                }
                j -= 1;
            } else {
                break;
            }
        }
        i += 1;
    }

    // Killers next, most recent in front of the older one.
    if let Some(m) = heur.killer(depth, 1) {
        promote(moves, m);
    }
    if let Some(m) = heur.killer(depth, 0) {
        promote(moves, m);
    }

    // The cached best move is tried first of all.
    if let Some(m) = tt_move {
        promote(moves, m);
    }
}

/// Depth-limited minimax with alpha-beta pruning. `hash` fingerprints
/// the position on `board`; the side-to-move key is mixed in when the
/// table is probed or filled. Returns `None` when the deadline passed
/// (the caller discards the whole pass); an unreachable deadline never
/// aborts. Terminal positions are decided before any recursion or
/// table probe: a completed five scores as a win or loss biased by the
/// remaining depth (faster forced wins count more, later forced losses
/// less), and a full board without one is a draw. Whatever happens, the
/// board is handed back exactly as it was: every placement is undone.
pub fn minimax(
    board: &mut Board,
    keys: &ZobristKeys,
    tt: &mut TranspositionTable,
    heur: &mut Heuristics,
    hash: u64,
    depth: u8,
    alpha: i32,
    beta: i32,
    maximizing: bool,
    player: Cell,
    deadline: u64,
) -> (r: Option<i32>)
    requires
        old(board).wf(),
        old(tt).wf(),
        old(heur).wf(),
        keys.wf(),
        is_stone(player),
    ensures
        final(board).wf(),
        final(board)@ == old(board)@,
        final(tt).wf(),
        final(heur).wf(),
        deadline == u64::MAX ==> r is Some,
        r matches Some(s) ==> -SCORE_LIMIT <= s <= SCORE_LIMIT,
        depth >= 1 && has_five(old(board)@, player) ==> (r matches Some(s) ==> s == SCORE_WIN
            + depth as i32),
        depth >= 1 && !has_five(old(board)@, player) && has_five(
            old(board)@,
            opponent_of(player),
        ) ==> (r matches Some(s) ==> s == -SCORE_WIN - depth as i32),
        depth >= 1 && !has_five(old(board)@, player) && !has_five(
            old(board)@,
            opponent_of(player),
        ) && (forall|i: int| 0 <= i < 400 ==> old(board)@[i] != Cell::Empty) ==> (
        r matches Some(s) ==> s == 0),
        depth == 0 && has_five(old(board)@, player) ==> (r matches Some(s) ==> s == SCORE_WIN),
        depth == 0 && !has_five(old(board)@, player) && has_five(
            old(board)@,
            opponent_of(player),
        ) ==> (r matches Some(s) ==> s == -SCORE_WIN),
    decreases depth,
{
    if now_millis() > deadline {
        return None;
    }
    if depth == 0 {
        return quiescence(board, QUIESCENCE_DEPTH, alpha, beta, maximizing, player, deadline);
    }

    let opponent = match player {
        Cell::MyStone => Cell::OpStone,
        _ => Cell::MyStone,
    };

    if board.check_five_in_a_row(player) {
        return Some(SCORE_WIN + depth as i32);
    }
    if board.check_five_in_a_row(opponent) {
        return Some(-SCORE_WIN - depth as i32);
    }
    if board.is_full() {
        return Some(0);
    }

    let mut alpha = alpha;
    let mut beta = beta;
    let alpha_in = alpha;
    let beta_in = beta;

    // A cached result at sufficient depth tightens or decides the
    // window; a score outside the plausible range is ignored as a
    // collision artefact.
    let probe_hash = if maximizing {
        hash
    } else {
        hash ^ keys.turn_key()
    };
    let cached: Option<TTEntry> = match tt.probe(probe_hash) {
        Some(e) => Some(*e),
        None => None,
    };
    if let Some(entry) = cached {
        if entry.depth >= depth && -SCORE_LIMIT <= entry.score && entry.score <= SCORE_LIMIT {
            match entry.flag {
                TTFlag::Exact => {
                    return Some(entry.score);
                },
                TTFlag::LowerBound => {
                    if entry.score > alpha {
                        alpha = entry.score;
                    }
                },
                TTFlag::UpperBound => {
                    if entry.score < beta {
                        beta = entry.score;
                    }
                },
            }
            if alpha >= beta {
                return Some(entry.score);
            }
        }
    }

    let current_player = if maximizing {
        player
    } else {
        opponent
    };
    let mut moves = generate_moves(board, current_player);

    if moves.len() == 0 {
        return Some(evaluate(board, player));
    }

    // Try the cached best move first, then the depth's killers, then
    // the highest history weights.
    let tt_move: Option<(usize, usize)> = match cached {
        Some(e) => match e.best_move {
            Some(m) => Some((m.0 as usize, m.1 as usize)),
            None => None,
        },
        None => None,
    };
    let current_is_mine = matches!(current_player, Cell::MyStone);
    let ghost generated = moves@;
    order_moves(&mut moves, heur, current_is_mine, depth, tt_move);
    proof {
        assert forall|j: int| 0 <= j < moves@.len() implies (#[trigger] moves@[j]).0 < 20
            && moves@[j].1 < 20 && board@[idx(moves@[j].0 as int, moves@[j].1 as int)]
            == Cell::Empty by {
            assert(generated.contains(moves@[j]));
            let k = choose|k: int| 0 <= k < generated.len() && generated[k] == moves@[j];
            assert(generated[k].0 < 20 && generated[k].1 < 20 && board@[idx(
                generated[k].0 as int,
                generated[k].1 as int,
            )] == Cell::Empty);
        }
    }

    let ghost orig = board@;
    let mut best_move: Option<(usize, usize)> = None;

    if maximizing {
        let mut max_eval = i32::MIN;
        let mut k: usize = 0;
        while k < moves.len()
            invariant_except_break
                board.wf(),
                board@ == orig,
                orig == old(board)@,
                tt.wf(),
                heur.wf(),
                keys.wf(),
                is_stone(player),
                is_stone(current_player),
                depth >= 1,
                moves@.len() > 0,
                k <= moves@.len(),
                forall|j: int| 0 <= j < moves@.len() ==> (#[trigger] moves@[j]).0 < 20
                    && moves@[j].1 < 20 && orig[idx(moves@[j].0 as int, moves@[j].1 as int)]
                    == Cell::Empty,
                best_move matches Some(m) ==> m.0 < 20 && m.1 < 20,
                k == 0 ==> max_eval == i32::MIN,
                k > 0 ==> -SCORE_LIMIT <= max_eval <= SCORE_LIMIT,
            ensures
                board.wf(),
                board@ == orig,
                tt.wf(),
                heur.wf(),
                best_move matches Some(m) ==> m.0 < 20 && m.1 < 20,
                -SCORE_LIMIT <= max_eval <= SCORE_LIMIT,
            decreases moves@.len() - k,
        {
            let (x, y) = moves[k];
            proof {
                assert(moves@[k as int].0 == x && moves@[k as int].1 == y);
                assert(x < 20 && y < 20 && orig[idx(x as int, y as int)] == Cell::Empty);
            }
            let child_hash = hash ^ keys.stone_key(y * 20 + x, current_player);
            let _ = board.set_cell(x, y, current_player);
            let r = minimax(
                board,
                keys,
                tt,
                heur,
                child_hash,
                depth - 1,
                alpha,
                beta,
                false,
                player,
                deadline,
            );
            let _ = board.set_cell(x, y, Cell::Empty);
            proof {
                assert(board@ =~= orig);
            }
            let ev = match r {
                Some(ev) => ev,
                None => {
                    return None;
                },
            };
            if ev > max_eval {
                max_eval = ev;
                best_move = Some((x, y));
            }
            if ev > alpha {
                alpha = ev;
            }
            k += 1;
            if beta <= alpha {
                heur.note_cutoff(depth, current_is_mine, x, y);
                break;
            }
        }
        let flag = if max_eval <= alpha_in {
            TTFlag::UpperBound
        } else if max_eval >= beta_in {
            TTFlag::LowerBound
        } else {
            TTFlag::Exact
        };
        tt.store(probe_hash, depth, max_eval, flag, best_move);
        Some(max_eval)
    } else {
        let mut min_eval = i32::MAX;
        let mut k: usize = 0;
        while k < moves.len()
            invariant_except_break
                board.wf(),
                board@ == orig,
                orig == old(board)@,
                tt.wf(),
                heur.wf(),
                keys.wf(),
                is_stone(player),
                is_stone(current_player),
                depth >= 1,
                moves@.len() > 0,
                k <= moves@.len(),
                forall|j: int| 0 <= j < moves@.len() ==> (#[trigger] moves@[j]).0 < 20
                    && moves@[j].1 < 20 && orig[idx(moves@[j].0 as int, moves@[j].1 as int)]
                    == Cell::Empty,
                best_move matches Some(m) ==> m.0 < 20 && m.1 < 20,
                k == 0 ==> min_eval == i32::MAX,
                k > 0 ==> -SCORE_LIMIT <= min_eval <= SCORE_LIMIT,
            ensures
                board.wf(),
                board@ == orig,
                tt.wf(),
                heur.wf(),
                best_move matches Some(m) ==> m.0 < 20 && m.1 < 20,
                -SCORE_LIMIT <= min_eval <= SCORE_LIMIT,
            decreases moves@.len() - k,
        {
            let (x, y) = moves[k];
            proof {
                assert(moves@[k as int].0 == x && moves@[k as int].1 == y);
                assert(x < 20 && y < 20 && orig[idx(x as int, y as int)] == Cell::Empty);
            }
            let child_hash = hash ^ keys.stone_key(y * 20 + x, current_player);
            let _ = board.set_cell(x, y, current_player);
            let r = minimax(
                board,
                keys,
                tt,
                heur,
                child_hash,
                depth - 1,
                alpha,
                beta,
                true,
                player,
                deadline,
            );
            let _ = board.set_cell(x, y, Cell::Empty);
            proof {
                assert(board@ =~= orig);
            }
            let ev = match r {
                Some(ev) => ev,
                None => {
                    return None;
                },
            };
            if ev < min_eval {
                min_eval = ev;
                best_move = Some((x, y));
            }
            if ev < beta {
                beta = ev;
            }
            k += 1;
            if beta <= alpha {
                heur.note_cutoff(depth, current_is_mine, x, y);
                break;
            }
        }
        let flag = if min_eval <= alpha_in {
            TTFlag::UpperBound
        } else if min_eval >= beta_in {
            TTFlag::LowerBound
        } else {
            TTFlag::Exact
        };
        tt.store(probe_hash, depth, min_eval, flag, best_move);
        Some(min_eval)
    }
}

/// The horizon extension: from a leaf, only forcing moves (those that
/// create or parry a four or a double open three) are searched on, up
/// to a small fixed depth, with the static evaluation as the stand-pat
/// bound; this keeps imminent tactical sequences from being misjudged
/// at the nominal depth limit.
fn quiescence(
    board: &mut Board,
    qdepth: u8,
    alpha: i32,
    beta: i32,
    maximizing: bool,
    player: Cell,
    deadline: u64,
) -> (r: Option<i32>)
    requires
        old(board).wf(),
        is_stone(player),
    ensures
        final(board).wf(),
        final(board)@ == old(board)@,
        deadline == u64::MAX ==> r is Some,
        r matches Some(s) ==> -SCORE_LIMIT <= s <= SCORE_LIMIT,
        has_five(old(board)@, player) ==> (r matches Some(s) ==> s == SCORE_WIN),
        !has_five(old(board)@, player) && has_five(old(board)@, opponent_of(player)) ==> (
        r matches Some(s) ==> s == -SCORE_WIN),
    decreases qdepth,
{
    if now_millis() > deadline {
        return None;
    }

    let opponent = match player {
        Cell::MyStone => Cell::OpStone,
        _ => Cell::MyStone,
    };

    if board.check_five_in_a_row(player) {
        return Some(SCORE_WIN);
    }
    if board.check_five_in_a_row(opponent) {
        return Some(-SCORE_WIN);
    }

    let stand_pat = evaluate(board, player);
    if qdepth == 0 {
        return Some(stand_pat);
    }

    let mut alpha = alpha;
    let mut beta = beta;
    if maximizing {
        if stand_pat >= beta {
            return Some(stand_pat);
        }
        if stand_pat > alpha {
            alpha = stand_pat;
        }
    } else {
        if stand_pat <= alpha {
            return Some(stand_pat);
        }
        if stand_pat < beta {
            beta = stand_pat;
        }
    }

    let current_player = if maximizing {
        player
    } else {
        opponent
    };
    let other_player = if maximizing {
        opponent
    } else {
        player
    };
    let moves = generate_moves(board, current_player);

    let ghost orig = board@;
    let mut best = stand_pat;
    let mut k: usize = 0;
    while k < moves.len()
        invariant_except_break
            board.wf(),
            board@ == orig,
            orig == old(board)@,
            is_stone(player),
            is_stone(current_player),
            is_stone(other_player),
            qdepth >= 1,
            k <= moves@.len(),
            forall|j: int| 0 <= j < moves@.len() ==> (#[trigger] moves@[j]).0 < 20
                && moves@[j].1 < 20 && orig[idx(moves@[j].0 as int, moves@[j].1 as int)]
                == Cell::Empty,
            -SCORE_LIMIT <= best <= SCORE_LIMIT,
        ensures
            board.wf(),
            board@ == orig,
            -SCORE_LIMIT <= best <= SCORE_LIMIT,
        decreases moves@.len() - k,
    {
        let (x, y) = moves[k];
        proof {
            assert(moves@[k as int].0 == x && moves@[k as int].1 == y);
            assert(x < 20 && y < 20 && orig[idx(x as int, y as int)] == Cell::Empty);
        }
        let own_t = threat_info(board, current_player, x, y);
        let opp_t = threat_info(board, other_player, x, y);
        let forcing = own_t.open_fours >= 1 || own_t.closed_fours >= 1 || own_t.open_threes >= 2
            || opp_t.open_fours >= 1 || opp_t.closed_fours >= 1 || opp_t.open_threes >= 2;
        if forcing {
            let _ = board.set_cell(x, y, current_player);
            let r = quiescence(board, qdepth - 1, alpha, beta, !maximizing, player, deadline);
            let _ = board.set_cell(x, y, Cell::Empty);
            proof {
                assert(board@ =~= orig);
            }
            let ev = match r {
                Some(ev) => ev,
                None => {
                    return None;
                },
            };
            if maximizing {
                if ev > best {
                    best = ev;
                }
                if ev > alpha {
                    alpha = ev;
                }
            } else {
                if ev < best {
                    best = ev;
                }
                if ev < beta {
                    beta = ev;
                }
            }
            if beta <= alpha {
                break;
            }
        }
        k += 1;
    }
    Some(best)
}

/// One full minimax pass at `depth`: tries the previous iteration's
/// best move first, then the best-scored candidates in order, and keeps
/// the one with the highest search value. `None` when the deadline cut
/// the pass short (partial results are discarded) or when no candidate
/// exists.
pub fn root_search(
    board: &mut Board,
    keys: &ZobristKeys,
    tt: &mut TranspositionTable,
    heur: &mut Heuristics,
    hash: u64,
    player: Cell,
    depth: u8,
    prefer: Option<(usize, usize)>,
    deadline: u64,
) -> (r: Option<(usize, usize)>)
    requires
        old(board).wf(),
        old(tt).wf(),
        old(heur).wf(),
        keys.wf(),
        is_stone(player),
        depth >= 1,
    ensures
        final(board).wf(),
        final(board)@ == old(board)@,
        final(tt).wf(),
        final(heur).wf(),
        r matches Some(m) ==> m.0 < 20 && m.1 < 20 && old(board)@[idx(m.0 as int, m.1 as int)]
            == Cell::Empty,
        deadline == u64::MAX ==> (r is Some <==> exists|i: int|
            0 <= i < 400 && old(board)@[i] == Cell::Empty),
{
    let moves = generate_moves(board, player);
    if moves.len() == 0 {
        return None;
    }

    let ghost orig = board@;
    let mut best_move: Option<(usize, usize)> = None;
    let mut best_score: i32 = i32::MIN;

    // Principal-variation ordering: the move the previous depth settled
    // on is searched first.
    if let Some((px, py)) = prefer {
        if px < 20 && py < 20 && board.is_empty(px, py) {
            let child_hash = hash ^ keys.stone_key(py * 20 + px, player);
            let _ = board.set_cell(px, py, player);
            let r = minimax(
                board,
                keys,
                tt,
                heur,
                child_hash,
                depth - 1,
                i32::MIN,
                i32::MAX,
                false,
                player,
                deadline,
            );
            let _ = board.set_cell(px, py, Cell::Empty);
            proof {
                assert(board@ =~= orig);
            }
            match r {
                Some(s) => {
                    best_score = s;
                    best_move = Some((px, py));
                },
                None => {
                    return None;
                },
            }
        }
    }

    let limit = if moves.len() < ROOT_MOVES {
        moves.len()
    } else {
        ROOT_MOVES
    };
    let mut k: usize = 0;
    while k < limit
        invariant
            board.wf(),
            board@ == orig,
            orig == old(board)@,
            tt.wf(),
            heur.wf(),
            keys.wf(),
            is_stone(player),
            depth >= 1,
            0 < limit <= moves@.len(),
            k <= limit,
            forall|j: int| 0 <= j < moves@.len() ==> (#[trigger] moves@[j]).0 < 20
                && moves@[j].1 < 20 && orig[idx(moves@[j].0 as int, moves@[j].1 as int)]
                == Cell::Empty,
            best_move matches Some(m) ==> m.0 < 20 && m.1 < 20 && orig[idx(
                m.0 as int,
                m.1 as int,
            )] == Cell::Empty,
            best_move is None ==> best_score == i32::MIN,
            k > 0 || best_move is Some ==> (best_move matches Some(m)),
        decreases limit - k,
    {
        let (x, y) = moves[k];
        proof {
            assert(moves@[k as int].0 == x && moves@[k as int].1 == y);
            assert(x < 20 && y < 20 && orig[idx(x as int, y as int)] == Cell::Empty);
        }
        let child_hash = hash ^ keys.stone_key(y * 20 + x, player);
        let _ = board.set_cell(x, y, player);
        let r = minimax(
            board,
            keys,
            tt,
            heur,
            child_hash,
            depth - 1,
            i32::MIN,
            i32::MAX,
            false,
            player,
            deadline,
        );
        let _ = board.set_cell(x, y, Cell::Empty);
        proof {
            assert(board@ =~= orig);
        }
        let score = match r {
            Some(s) => s,
            None => {
                return None;
            },
        };
        if score > best_score {
            best_score = score;
            best_move = Some((x, y));
        }
        proof {
            if best_move is None {
                assert(score > i32::MIN);
            }
        }
        k += 1;
    }
    best_move
}

/// The self-contained fixed-depth search: immediate win/block precheck,
/// then one root pass at the nominal depth over a fresh key table and
/// cache, with no deadline.
pub fn find_best_move_minimax(board: &Board, player: Cell) -> (r: Option<(usize, usize)>)
    requires
        board.wf(),
        is_stone(player),
    ensures
        r matches Some(m) ==> m.0 < 20 && m.1 < 20 && board@[idx(m.0 as int, m.1 as int)]
            == Cell::Empty,
        (exists|x: int, y: int| creates_five(board@, player, x, y)) ==> (r matches Some(m)
            && creates_five(board@, player, m.0 as int, m.1 as int)),
        ((forall|x: int, y: int| !creates_five(board@, player, x, y)) && exists|x: int, y: int|
            creates_five(board@, crate::ai::opponent_of(player), x, y)) ==> (r matches Some(m)
            && creates_five(board@, crate::ai::opponent_of(player), m.0 as int, m.1 as int)),
        (r is None) ==> (forall|i: int| 0 <= i < 400 ==> board@[i] != Cell::Empty),
{
    let mut board_copy = board.duplicate();

    if let Some(m) = find_winning_move(&board_copy, player) {
        return Some(m);
    }

    let opponent = match player {
        Cell::MyStone => Cell::OpStone,
        _ => Cell::MyStone,
    };
    if let Some(m) = find_blocking_move(&board_copy, opponent) {
        return Some(m);
    }

    let keys = ZobristKeys::new();
    let mut tt = TranspositionTable::new();
    let mut heur = Heuristics::new();
    let hash = compute_board_hash(&board_copy, &keys);
    let r = root_search(
        &mut board_copy,
        &keys,
        &mut tt,
        &mut heur,
        hash,
        player,
        MAX_DEPTH,
        None,
        u64::MAX,
    );
    proof {
        if r is None {
            assert forall|i: int| 0 <= i < 400 implies board@[i] != Cell::Empty by {}
        }
    }
    r
}

/// `a` is a strictly better fallback cell than `b`: nearer the centre,
/// or as near and earlier in raster order.
pub open spec fn fallback_better(ax: int, ay: int, bx: int, by: int) -> bool {
    ||| cheb_center(ax, ay) < cheb_center(bx, by)
    ||| (cheb_center(ax, ay) == cheb_center(bx, by) && raster_before(ax, ay, bx, by))
}

/// The search-free fallback: the empty cell nearest the centre,
/// earliest in raster order among ties; `None` only on a full board.
pub fn fallback_move(board: &Board) -> (r: Option<(usize, usize)>)
    requires
        board.wf(),
    ensures
        r matches Some(m) ==> m.0 < 20 && m.1 < 20 && board@[idx(m.0 as int, m.1 as int)]
            == Cell::Empty && forall|x: int, y: int| in_bounds(x, y) && board@[idx(x, y)]
            == Cell::Empty ==> !fallback_better(x, y, m.0 as int, m.1 as int),
        (r is None) <==> (forall|i: int| 0 <= i < 400 ==> board@[i] != Cell::Empty),
{
    let mut best: Option<(usize, usize)> = None;
    let mut best_d: usize = 0;
    let mut i: usize = 0;
    while i < 400
        invariant
            board.wf(),
            i <= 400,
            best is None ==> forall|j: int| 0 <= j < i ==> board@[j] != Cell::Empty,
            best matches Some(b) ==> b.0 < 20 && b.1 < 20 && board@[idx(b.0 as int, b.1 as int)]
                == Cell::Empty && idx(b.0 as int, b.1 as int) < i && best_d == cheb_center(
                b.0 as int,
                b.1 as int,
            ) && forall|x: int, y: int| in_bounds(x, y) && board@[idx(x, y)] == Cell::Empty && idx(
                x,
                y,
            ) < i ==> !fallback_better(x, y, b.0 as int, b.1 as int),
        decreases 400 - i,
    {
        let x = i % 20;
        let y = i / 20;
        let c = board.cell_at(i);
        if matches!(c, Cell::Empty) {
            let d = crate::ai::cheb_dist(x, y);
            match best {
                None => {
                    best = Some((x, y));
                    best_d = d;
                },
                Some(b) => {
                    if d < best_d {
                        best = Some((x, y));
                        best_d = d;
                    }
                },
            }
        }
        i += 1;
    }
    best
}

/// Time-bounded iterative deepening: an immediate win is played at once,
/// an immediate opposing win is blocked, and otherwise the engine
/// commits to the best move of the deepest pass that finished before the
/// deadline, falling back to the centre-nearest empty cell when not even
/// the first pass did. `None` only on a full board.
pub fn choose_move(
    board: &Board,
    keys: &ZobristKeys,
    tt: &mut TranspositionTable,
    heur: &mut Heuristics,
    hash: u64,
    player: Cell,
    budget_ms: u64,
) -> (r: Option<(usize, usize)>)
    requires
        board.wf(),
        old(tt).wf(),
        old(heur).wf(),
        keys.wf(),
        is_stone(player),
    ensures
        final(tt).wf(),
        final(heur).wf(),
        r matches Some(m) ==> m.0 < 20 && m.1 < 20 && board@[idx(m.0 as int, m.1 as int)]
            == Cell::Empty,
        (exists|x: int, y: int| creates_five(board@, player, x, y)) ==> (r matches Some(m)
            && creates_five(board@, player, m.0 as int, m.1 as int)),
        ((forall|x: int, y: int| !creates_five(board@, player, x, y)) && exists|x: int, y: int|
            creates_five(board@, crate::ai::opponent_of(player), x, y)) ==> (r matches Some(m)
            && creates_five(board@, crate::ai::opponent_of(player), m.0 as int, m.1 as int)),
        (r is None) <==> (forall|i: int| 0 <= i < 400 ==> board@[i] != Cell::Empty),
{
    if let Some(m) = find_winning_move(board, player) {
        return Some(m);
    }

    let opponent = match player {
        Cell::MyStone => Cell::OpStone,
        _ => Cell::MyStone,
    };
    if let Some(m) = find_blocking_move(board, opponent) {
        return Some(m);
    }

    let start = now_millis();
    let deadline = if budget_ms > u64::MAX - start {
        u64::MAX
    } else {
        start + budget_ms
    };

    let mut board_copy = board.duplicate();
    let mut best: Option<(usize, usize)> = None;
    let mut depth: u8 = 1;
    while depth <= MAX_DEPTH
        invariant_except_break
            board_copy.wf(),
            board_copy@ == board@,
            board.wf(),
            tt.wf(),
            heur.wf(),
            keys.wf(),
            is_stone(player),
            depth >= 1,
            best matches Some(m) ==> m.0 < 20 && m.1 < 20 && board@[idx(m.0 as int, m.1 as int)]
                == Cell::Empty,
        ensures
            tt.wf(),
            heur.wf(),
            best matches Some(m) ==> m.0 < 20 && m.1 < 20 && board@[idx(m.0 as int, m.1 as int)]
                == Cell::Empty,
        decreases 5 - depth,
    {
        if now_millis() >= deadline {
            break;
        }
        let r = root_search(&mut board_copy, keys, tt, heur, hash, player, depth, best, deadline);
        match r {
            Some(m) => {
                best = Some(m);
            },
            None => {
                break;
            },
        }
        depth += 1;
    }

    match best {
        Some(m) => Some(m),
        None => fallback_move(board),
    }
}

} // verus!
