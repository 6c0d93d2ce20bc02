//! The engine's command handlers: one long-lived state owning the
//! board, the Zobrist key table and the position fingerprint, mutated
//! only here and always in lockstep.

use vstd::prelude::*;
use crate::board::{Board, Cell, in_bounds, idx};
use crate::zobrist::{ZobristKeys, TranspositionTable, empty_entry, board_hash, lemma_hash_update, lemma_hash_empty};
use crate::ai::{creates_five, score_upto};
use crate::search::{choose_move, fallback_move, fallback_better, Heuristics};
use crate::text::{coord_chars, dec_digits, usize_to_string, coord_to_string};
use crate::incremental::IncrementalScores;

verus! {

/// Wall-clock budget of one move request, in milliseconds.
pub const DEFAULT_BUDGET_MS: u64 = 400;

/// The cell a bulk-upload field number denotes.
pub open spec fn field_cell(field: nat) -> Cell {
    if field == 1 {
        Cell::MyStone
    } else if field == 2 {
        Cell::OpStone
    } else if field == 3 {
        Cell::Forbidden
    } else {
        Cell::Empty
    }
}

/// What the engine answers after a move request on the position `mid`:
/// on a full board the explicit no-legal-move signal; otherwise it
/// plays one empty cell, preferring a five-completing move, then a
/// block of the opponent's five.
pub open spec fn engine_response(mid: Seq<Cell>, fin: Seq<Cell>, resp: Seq<char>) -> bool {
    if forall|i: int| 0 <= i < 400 ==> mid[i] != Cell::Empty {
        fin == mid && resp == "ERROR board full"@
    } else {
        exists|mx: int, my: int|
            {
                &&& in_bounds(mx, my)
                &&& mid[idx(mx, my)] == Cell::Empty
                &&& fin == mid.update(idx(mx, my), Cell::MyStone)
                &&& resp == coord_chars(mx as nat, my as nat)
                &&& ((exists|x: int, y: int| creates_five(mid, Cell::MyStone, x, y))
                    ==> creates_five(mid, Cell::MyStone, mx, my))
                &&& ((forall|x: int, y: int| !creates_five(mid, Cell::MyStone, x, y)) && (exists|
                    x: int,
                    y: int,
                | creates_five(mid, Cell::OpStone, x, y)) ==> creates_five(
                    mid,
                    Cell::OpStone,
                    mx,
                    my,
                ))
            }
    }
}

/// The engine's long-lived state.
pub struct GameState {
    size: usize,
    is_initialized: bool,
    game_in_progress: bool,
    board: Board,
    keys: ZobristKeys,
    hash: u64,
    tt: TranspositionTable,
    heur: Heuristics,
    scores: IncrementalScores,
    scores_synced: bool,
    budget_ms: u64,
}

impl GameState {
    /// The board as the contracts see it.
    pub closed spec fn spec_board(&self) -> Board {
        self.board
    }

    /// Whether `start` has succeeded.
    pub closed spec fn spec_initialized(&self) -> bool {
        self.is_initialized
    }

    /// Whether a game is under way.
    pub closed spec fn spec_in_progress(&self) -> bool {
        self.game_in_progress
    }

    /// The key table.
    pub closed spec fn spec_keys(&self) -> ZobristKeys {
        self.keys
    }

    /// The stored position fingerprint.
    pub closed spec fn spec_hash(&self) -> u64 {
        self.hash
    }

    /// The transposition table.
    pub closed spec fn spec_tt(&self) -> TranspositionTable {
        self.tt
    }

    /// The killer-move and history tables.
    pub closed spec fn spec_heur(&self) -> Heuristics {
        self.heur
    }

    /// The incremental evaluator.
    pub closed spec fn spec_scores(&self) -> IncrementalScores {
        self.scores
    }

    /// Whether the evaluator is in step with the board; a bulk upload
    /// leaves it stale until the next move request rebuilds it.
    pub closed spec fn spec_scores_synced(&self) -> bool {
        self.scores_synced
    }

    /// The wall-clock budget of one move request, in milliseconds.
    pub closed spec fn spec_budget(&self) -> u64 {
        self.budget_ms
    }

    /// The invariant every handler preserves: a well-formed board, the
    /// fixed fresh key table, and a fingerprint that always equals the
    /// XOR of the stone keys of the occupied cells.
    pub open spec fn wf(&self) -> bool {
        &&& self.spec_board().wf()
        &&& self.spec_keys().wf()
        &&& self.spec_keys().is_fresh()
        &&& self.spec_hash() == board_hash(self.spec_board()@, &self.spec_keys())
        &&& (self.spec_initialized() ==> self.spec_size() == 20)
        &&& (self.spec_scores_synced() ==> self.spec_scores().wf(self.spec_board()@))
        &&& self.spec_tt().wf()
        &&& self.spec_heur().wf()
    }

    /// A fresh, uninitialised engine.
    pub fn new() -> (r: GameState)
        ensures
            r.wf(),
            !r.spec_initialized(),
            !r.spec_in_progress(),
            forall|i: int| 0 <= i < 400 ==> r.spec_board()@[i] == Cell::Empty,
            forall|i: int| 0 <= i < crate::zobrist::TT_SIZE ==> r.spec_tt()@[i] == empty_entry(),
            r.spec_heur().is_empty(),
            r.spec_budget() == DEFAULT_BUDGET_MS,
    {
        let board = Board::default();
        let keys = ZobristKeys::new();
        let scores = IncrementalScores::new(&board);
        let tt = TranspositionTable::new();
        let heur = Heuristics::new();
        proof {
            lemma_hash_empty(board@, &keys, 400);
        }
        GameState {
            size: 0,
            is_initialized: false,
            game_in_progress: false,
            board,
            keys,
            hash: 0,
            tt,
            heur,
            scores,
            scores_synced: true,
            budget_ms: DEFAULT_BUDGET_MS,
        }
    }

    /// Read access to the board.
    pub fn board(&self) -> (r: &Board)
        ensures
            *r == self.spec_board(),
    {
        &self.board
    }

    /// Whether `start` has succeeded.
    pub fn initialized(&self) -> (r: bool)
        ensures
            r == self.spec_initialized(),
    {
        self.is_initialized
    }

    /// Whether a game is under way.
    pub fn in_progress(&self) -> (r: bool)
        ensures
            r == self.spec_in_progress(),
    {
        self.game_in_progress
    }

    /// The maintained position fingerprint; always the XOR of the stone
    /// keys of the occupied cells.
    pub fn hash(&self) -> (r: u64)
        requires
            self.wf(),
        ensures
            r == board_hash(self.spec_board()@, &self.spec_keys()),
    {
        self.hash
    }

    /// The fingerprint with the side-to-move key mixed in when it is
    /// the opponent's conceptual turn; used when keying cached search
    /// results.
    pub fn hash_with_turn(&self, opponent_to_move: bool) -> (r: u64)
        requires
            self.wf(),
        ensures
            opponent_to_move ==> r == board_hash(self.spec_board()@, &self.spec_keys())
                ^ self.spec_keys().spec_turn_key(),
            !opponent_to_move ==> r == board_hash(self.spec_board()@, &self.spec_keys()),
    {
        if opponent_to_move {
            self.hash ^ self.keys.turn_key()
        } else {
            self.hash
        }
    }

    /// Recomputes the fingerprint from scratch; always equal to the
    /// maintained one.
    pub fn recompute_hash(&self) -> (r: u64)
        requires
            self.wf(),
        ensures
            r == board_hash(self.spec_board()@, &self.spec_keys()),
            r == self.spec_hash(),
    {
        crate::zobrist::compute_board_hash(&self.board, &self.keys)
    }

    /// The incrementally maintained pattern-score balance of the
    /// position, equal by construction to a full re-scan; a stale cache
    /// after a bulk upload is rebuilt first.
    pub fn position_score(&mut self) -> (r: i32)
        requires
            old(self).wf(),
        ensures
            final(self).wf(),
            final(self).spec_board() == old(self).spec_board(),
            final(self).spec_initialized() == old(self).spec_initialized(),
            final(self).spec_in_progress() == old(self).spec_in_progress(),
            r == score_upto(old(self).spec_board()@, Cell::MyStone, Cell::OpStone, 400),
    {
        if !self.scores_synced {
            self.scores.rebuild_from_board(&self.board);
            self.scores_synced = true;
        }
        self.scores.evaluate_position(&self.board)
    }

    /// Sets the wall-clock budget of one move request.
    pub fn set_time_budget(&mut self, ms: u64)
        requires
            old(self).wf(),
        ensures
            final(self).wf(),
            final(self).spec_budget() == ms,
            final(self).spec_board() == old(self).spec_board(),
            final(self).spec_initialized() == old(self).spec_initialized(),
            final(self).spec_in_progress() == old(self).spec_in_progress(),
    {
        self.budget_ms = ms;
    }

    /// Accepts only the supported board size; resets the game on
    /// success.
    pub fn handle_start(&mut self, size: usize) -> (r: String)
        requires
            old(self).wf(),
        ensures
            final(self).wf(),
            size != 20 ==> *final(self) == *old(self) && r@ == "ERROR unsupported size "@
                + dec_digits(size as nat),
            size == 20 ==> r@ == "OK"@ && final(self).spec_initialized() && !final(self).spec_in_progress() && (forall|i: int|
                0 <= i < 400 ==> final(self).spec_board()@[i] == Cell::Empty) && (forall|i: int|
                0 <= i < crate::zobrist::TT_SIZE ==> final(self).spec_tt()@[i] == empty_entry())
                && final(self).spec_heur().is_empty(),
    {
        if size != 20 {
            let mut s = "ERROR unsupported size ".to_owned();
            let num = usize_to_string(size);
            s.append(num.as_str());
            return s;
        }
        self.size = size;
        self.is_initialized = true;
        self.game_in_progress = false;
        self.board.clear();
        self.hash = 0;
        self.tt.clear();
        self.heur.clear();
        self.scores.rebuild_from_board(&self.board);
        self.scores_synced = true;
        proof {
            lemma_hash_empty(self.board@, &self.keys, 400);
        }
        "OK".to_owned()
    }

    /// Whether `(x, y)` may be played now, and which rule rejects it
    /// first when not.
    pub fn validate_move(&self, x: usize, y: usize) -> (r: Result<(), &'static str>)
        requires
            self.wf(),
        ensures
            !self.spec_initialized() ==> (r matches Err(m) && m@ == "ERROR game not initialized"@),
            self.spec_initialized() && !(x < self.spec_size() && y < self.spec_size()) ==> (
            r matches Err(m) && m@ == "ERROR coordinates out of range"@),
            self.spec_initialized() && x < self.spec_size() && y < self.spec_size() && self.spec_board()@[idx(
                x as int,
                y as int,
            )] == Cell::Forbidden ==> (r matches Err(m) && m@ == "ERROR move forbidden"@),
            self.spec_initialized() && x < self.spec_size() && y < self.spec_size() && self.spec_board()@[idx(
                x as int,
                y as int,
            )] != Cell::Forbidden && self.spec_board()@[idx(x as int, y as int)] != Cell::Empty ==> (
            r matches Err(m) && m@ == "ERROR cell already occupied"@),
            self.spec_initialized() && x < self.spec_size() && y < self.spec_size() && self.spec_board()@[idx(
                x as int,
                y as int,
            )] == Cell::Empty ==> r is Ok,
    {
        if !self.is_initialized {
            return Err("ERROR game not initialized");
        }
        if x >= self.size || y >= self.size {
            return Err("ERROR coordinates out of range");
        }
        if matches!(self.board.get_cell(x, y), Some(Cell::Forbidden)) {
            return Err("ERROR move forbidden");
        }
        if !self.board.is_empty(x, y) {
            return Err("ERROR cell already occupied");
        }
        Ok(())
    }

    /// The configured board side; 20 once initialised.
    pub closed spec fn spec_size(&self) -> int {
        self.size as int
    }

    /// Applies the opponent's stone and answers with the engine's own
    /// move.
    pub fn handle_turn(&mut self, x: usize, y: usize) -> (r: String)
        requires
            old(self).wf(),
        ensures
            final(self).wf(),
            final(self).spec_initialized() == old(self).spec_initialized(),
            !(old(self).spec_initialized() && x < 20 && y < 20 && old(self).spec_board()@[idx(
                x as int,
                y as int,
            )] == Cell::Empty) ==> *final(self) == *old(self),
            !old(self).spec_initialized() ==> r@ == "ERROR game not initialized"@,
            old(self).spec_initialized() && !(x < 20 && y < 20) ==> r@
                == "ERROR coordinates out of range"@,
            old(self).spec_initialized() && x < 20 && y < 20 && old(self).spec_board()@[idx(
                x as int,
                y as int,
            )] == Cell::Forbidden ==> r@ == "ERROR move forbidden"@,
            old(self).spec_initialized() && x < 20 && y < 20 && old(self).spec_board()@[idx(
                x as int,
                y as int,
            )] != Cell::Forbidden && old(self).spec_board()@[idx(x as int, y as int)]
                != Cell::Empty ==> r@ == "ERROR cell already occupied"@,
            old(self).spec_initialized() && x < 20 && y < 20 && old(self).spec_board()@[idx(
                x as int,
                y as int,
            )] == Cell::Empty ==> engine_response(
                old(self).spec_board()@.update(idx(x as int, y as int), Cell::OpStone),
                final(self).spec_board()@,
                r@,
            ) && final(self).spec_in_progress(),
    {
        let valid = match self.validate_move(x, y) {
            Err(e) => {
                return e.to_owned();
            },
            Ok(()) => true,
        };

        if !self.scores_synced {
            self.scores.rebuild_from_board(&self.board);
            self.scores_synced = true;
        }
        let i = y * 20 + x;
        let old_key = self.keys.stone_key(i, Cell::Empty);
        let new_key = self.keys.stone_key(i, Cell::OpStone);
        proof {
            lemma_hash_update(self.board@, &self.keys, i as int, Cell::OpStone, 400);
        }
        self.hash = self.hash ^ old_key ^ new_key;
        self.scores.on_stone_placed(&mut self.board, x, y, Cell::OpStone);
        self.game_in_progress = true;

        self.make_move()
    }

    /// Starts a game with the engine to move first.
    pub fn handle_begin(&mut self) -> (r: String)
        requires
            old(self).wf(),
        ensures
            final(self).wf(),
            !old(self).spec_initialized() ==> *final(self) == *old(self) && r@
                == "ERROR game not initialized"@,
            old(self).spec_initialized() ==> engine_response(
                old(self).spec_board()@,
                final(self).spec_board()@,
                r@,
            ) && final(self).spec_in_progress(),
    {
        if !self.is_initialized {
            return "ERROR game not initialized".to_owned();
        }
        self.game_in_progress = true;
        self.make_move()
    }

    /// Clears the board for a bulk upload.
    pub fn handle_board_start(&mut self) -> (r: bool)
        requires
            old(self).wf(),
        ensures
            final(self).wf(),
            r == old(self).spec_initialized(),
            !r ==> *final(self) == *old(self),
            r ==> final(self).spec_in_progress() && final(self).spec_initialized() && forall|
                i: int,
            | 0 <= i < 400 ==> final(self).spec_board()@[i] == Cell::Empty,
    {
        if !self.is_initialized {
            return false;
        }
        self.game_in_progress = true;
        self.board.clear();
        self.hash = 0;
        self.scores.rebuild_from_board(&self.board);
        self.scores_synced = true;
        proof {
            lemma_hash_empty(self.board@, &self.keys, 400);
        }
        true
    }

    /// Applies one uploaded cell; out-of-bounds lines are ignored.
    pub fn handle_board_move(&mut self, x: usize, y: usize, field: usize)
        requires
            old(self).wf(),
        ensures
            final(self).wf(),
            final(self).spec_initialized() == old(self).spec_initialized(),
            final(self).spec_in_progress() == old(self).spec_in_progress(),
            in_bounds(x as int, y as int) ==> final(self).spec_board()@ == old(self).spec_board()@.update(idx(x as int, y as int), field_cell(field as nat)),
            !in_bounds(x as int, y as int) ==> final(self).spec_board()@ == old(self).spec_board()@,
    {
        let cell = match field {
            1 => Cell::MyStone,
            2 => Cell::OpStone,
            3 => Cell::Forbidden,
            _ => Cell::Empty,
        };
        if x < 20 && y < 20 {
            let i = y * 20 + x;
            let old_cell = self.board.cell_at(i);
            let old_key = self.keys.stone_key(i, old_cell);
            let new_key = self.keys.stone_key(i, cell);
            proof {
                lemma_hash_update(self.board@, &self.keys, i as int, cell, 400);
            }
            self.hash = self.hash ^ old_key ^ new_key;
            let _ = self.board.set_cell(x, y, cell);
            self.scores_synced = false;
        }
    }

    /// Ends a bulk upload and answers with the engine's move.
    pub fn handle_board_done(&mut self) -> (r: String)
        requires
            old(self).wf(),
        ensures
            final(self).wf(),
            !old(self).spec_initialized() ==> *final(self) == *old(self) && r@
                == "ERROR game not initialized"@,
            old(self).spec_initialized() ==> engine_response(
                old(self).spec_board()@,
                final(self).spec_board()@,
                r@,
            ),
    {
        if !self.is_initialized {
            return "ERROR game not initialized".to_owned();
        }
        self.make_move()
    }

    /// Clears all mutable game state, keeping the key table.
    pub fn handle_restart(&mut self) -> (r: String)
        requires
            old(self).wf(),
        ensures
            final(self).wf(),
            !old(self).spec_initialized() ==> *final(self) == *old(self) && r@
                == "ERROR game not initialized"@,
            old(self).spec_initialized() ==> r@ == "OK"@ && final(self).spec_initialized() && !final(self).spec_in_progress() && (forall|i: int|
                0 <= i < 400 ==> final(self).spec_board()@[i] == Cell::Empty) && (forall|i: int|
                0 <= i < crate::zobrist::TT_SIZE ==> final(self).spec_tt()@[i] == empty_entry())
                && final(self).spec_heur().is_empty(),
    {
        if !self.is_initialized {
            return "ERROR game not initialized".to_owned();
        }
        self.game_in_progress = false;
        self.board.clear();
        self.hash = 0;
        self.tt.clear();
        self.heur.clear();
        self.scores.rebuild_from_board(&self.board);
        self.scores_synced = true;
        proof {
            lemma_hash_empty(self.board@, &self.keys, 400);
        }
        "OK".to_owned()
    }

    /// A search-free, always-safe answer: the empty cell nearest the
    /// centre, `None` only on a full board.
    pub fn emergency_move(&self) -> (r: Option<(usize, usize)>)
        requires
            self.wf(),
        ensures
            r matches Some(m) ==> m.0 < 20 && m.1 < 20 && self.spec_board()@[idx(
                m.0 as int,
                m.1 as int,
            )] == Cell::Empty && forall|x: int, y: int| in_bounds(x, y) && self.spec_board()@[idx(
                x,
                y,
            )] == Cell::Empty ==> !fallback_better(x, y, m.0 as int, m.1 as int),
            (r is None) <==> (forall|i: int| 0 <= i < 400 ==> self.spec_board()@[i]
                != Cell::Empty),
    {
        fallback_move(&self.board)
    }

    /// Runs the move pipeline on the current position, applies the
    /// chosen stone and renders the answer.
    fn make_move(&mut self) -> (r: String)
        requires
            old(self).wf(),
        ensures
            final(self).wf(),
            final(self).spec_initialized() == old(self).spec_initialized(),
            final(self).spec_in_progress() == old(self).spec_in_progress(),
            engine_response(old(self).spec_board()@, final(self).spec_board()@, r@),
    {
        if !self.scores_synced {
            self.scores.rebuild_from_board(&self.board);
            self.scores_synced = true;
        }
        match choose_move(
            &self.board,
            &self.keys,
            &mut self.tt,
            &mut self.heur,
            self.hash,
            Cell::MyStone,
            self.budget_ms,
        ) {
            Some((mx, my)) => {
                let i = my * 20 + mx;
                let old_key = self.keys.stone_key(i, Cell::Empty);
                let new_key = self.keys.stone_key(i, Cell::MyStone);
                proof {
                    lemma_hash_update(self.board@, &self.keys, i as int, Cell::MyStone, 400);
                }
                self.hash = self.hash ^ old_key ^ new_key;
                self.scores.on_stone_placed(&mut self.board, mx, my, Cell::MyStone);
                let r = coord_to_string(mx, my);
                proof {
                    let mid = old(self).spec_board()@;
                    assert(in_bounds(mx as int, my as int));
                    assert(mid[idx(mx as int, my as int)] == Cell::Empty);
                    assert(self.spec_board()@ == mid.update(idx(mx as int, my as int), Cell::MyStone));
                    assert(r@ == coord_chars(mx as nat, my as nat));
                    assert(engine_response(old(self).spec_board()@, self.spec_board()@, r@));
                }
                r
            },
            None => {
                "ERROR board full".to_owned()
            },
        }
    }
}

} // verus!
