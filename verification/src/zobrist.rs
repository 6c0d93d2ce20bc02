//! Zobrist position fingerprints and the transposition table.
//!
//! The key table is generated once per process from a fixed seed, so two
//! instances always hold identical keys; the table of prior search
//! results is a fixed-size, depth-preferred, single-slot cache indexed by
//! the low bits of the fingerprint.

use vstd::prelude::*;
use crate::board::Cell;

verus! {

use vstd::pervasive::VecAdditionalExecFns;

/// Seed of the deterministic key stream.
pub const ZOBRIST_SEED: u64 = 0x853c49e6748fea9b;

/// Number of slots in the transposition table (2^22).
pub const TT_SIZE: usize = 0x40_0000;

/// One round of the xorshift generator that produces the key stream.
pub open spec fn xorshift_step(s: u64) -> u64 {
    let a = s ^ (s << 13);
    let b = a ^ (a >> 7);
    b ^ (b << 17)
}

/// The `n`-th state of the key stream, starting from the fixed seed.
pub open spec fn key_stream(n: nat) -> u64
    decreases n,
{
    if n == 0 {
        ZOBRIST_SEED
    } else {
        xorshift_step(key_stream((n - 1) as nat))
    }
}

fn xorshift64(state: u64) -> (r: u64)
    ensures
        r == xorshift_step(state),
{
    let mut s = state;
    s ^= s << 13;
    s ^= s >> 7;
    s ^= s << 17;
    s
}

/// The immutable per-cell, per-stone key table plus the side-to-move key.
pub struct ZobristKeys {
    stones: Vec<u64>,
    turn: u64,
}

impl ZobristKeys {
    /// Structural invariant: one key per cell per stone type.
    pub closed spec fn wf(&self) -> bool {
        self.stones@.len() == 800
    }

    /// The key contributed by `cell` standing at raster index `index`;
    /// zero for non-stone cells.
    pub closed spec fn spec_stone_key(&self, index: int, cell: Cell) -> u64 {
        match cell {
            Cell::MyStone => self.stones@[2 * index],
            Cell::OpStone => self.stones@[2 * index + 1],
            _ => 0,
        }
    }

    /// The side-to-move key.
    pub closed spec fn spec_turn_key(&self) -> u64 {
        self.turn
    }

    /// A freshly generated table: every key pinned to the fixed stream.
    pub open spec fn is_fresh(&self) -> bool {
        &&& self.wf()
        &&& forall|index: int, stone: int| 0 <= index < 400 && 0 <= stone < 2 ==>
            #[trigger] self.key_at(index, stone) == key_stream((2 * index + stone + 1) as nat)
        &&& self.spec_turn_key() == key_stream(801)
    }

    /// The raw key for `(index, stone)`, `stone` 0 for the engine's own
    /// stones and 1 for the opponent's.
    pub closed spec fn key_at(&self, index: int, stone: int) -> u64 {
        self.stones@[2 * index + stone]
    }

    /// Generates the table from the fixed seed.
    pub fn new() -> (r: ZobristKeys)
        ensures
            r.is_fresh(),
    {
        let mut stones: Vec<u64> = Vec::new();
        let mut state: u64 = ZOBRIST_SEED;
        let mut i: usize = 0;
        while i < 800
            invariant
                stones@.len() == i,
                i <= 800,
                state == key_stream(i as nat),
                forall|k: int| 0 <= k < i ==> stones@[k] == key_stream((k + 1) as nat),
            decreases 800 - i,
        {
            state = xorshift64(state);
            stones.push(state);
            i += 1;
        }
        let turn = xorshift64(state);
        let r = ZobristKeys { stones, turn };
        assert forall|index: int, stone: int| 0 <= index < 400 && 0 <= stone < 2 implies
            #[trigger] r.key_at(index, stone) == key_stream((2 * index + stone + 1) as nat) by {
            assert(r.stones@[2 * index + stone] == key_stream((2 * index + stone + 1) as nat));
        }
        r
    }

    /// The key contributed by `cell` at raster index `index`.
    pub fn stone_key(&self, index: usize, cell: Cell) -> (r: u64)
        requires
            self.wf(),
            index < 400,
        ensures
            r == self.spec_stone_key(index as int, cell),
    {
        let stone_idx: usize = match cell {
            Cell::MyStone => 0,
            Cell::OpStone => 1,
            _ => return 0,
        };
        self.stones[2 * index + stone_idx]
    }

    /// The side-to-move key.
    pub fn turn_key(&self) -> (r: u64)
        ensures
            r == self.spec_turn_key(),
    {
        self.turn
    }
}

/// Two freshly generated key tables agree on every key: the stream is a
/// function of the fixed seed alone.
pub proof fn lemma_fresh_keys_agree(a: &ZobristKeys, b: &ZobristKeys)
    requires
        a.is_fresh(),
        b.is_fresh(),
    ensures
        forall|index: int, cell: Cell| 0 <= index < 400 ==> #[trigger] a.spec_stone_key(index, cell)
            == b.spec_stone_key(index, cell),
        a.spec_turn_key() == b.spec_turn_key(),
{
    assert forall|index: int, cell: Cell| 0 <= index < 400 implies #[trigger] a.spec_stone_key(
        index,
        cell,
    ) == b.spec_stone_key(index, cell) by {
        match cell {
            Cell::MyStone => {
                assert(a.key_at(index, 0) == key_stream((2 * index + 1) as nat));
                assert(b.key_at(index, 0) == key_stream((2 * index + 1) as nat));
            },
            Cell::OpStone => {
                assert(a.key_at(index, 1) == key_stream((2 * index + 2) as nat));
                assert(b.key_at(index, 1) == key_stream((2 * index + 2) as nat));
            },
            _ => {},
        }
    }
}

/// Fingerprint of the first `n` cells: the XOR of the stone keys of the
/// occupied ones (empty and forbidden cells contribute zero).
pub open spec fn board_hash_upto(v: Seq<Cell>, keys: &ZobristKeys, n: int) -> u64
    decreases n,
{
    if n <= 0 {
        0
    } else {
        board_hash_upto(v, keys, n - 1) ^ keys.spec_stone_key(n - 1, v[n - 1])
    }
}

/// Fingerprint of a whole board: stones only, independent of whose turn
/// it is.
pub open spec fn board_hash(v: Seq<Cell>, keys: &ZobristKeys) -> u64 {
    board_hash_upto(v, keys, 400)
}

proof fn lemma_hash_prefix_agree(v1: Seq<Cell>, v2: Seq<Cell>, keys: &ZobristKeys, n: int)
    requires
        forall|j: int| 0 <= j < n ==> v1[j] == v2[j],
    ensures
        board_hash_upto(v1, keys, n) == board_hash_upto(v2, keys, n),
    decreases n,
{
    if n > 0 {
        lemma_hash_prefix_agree(v1, v2, keys, n - 1);
    }
}

/// Writing `c` over cell `i` XORs the old cell's key out and the new
/// cell's key in.
pub proof fn lemma_hash_update(v: Seq<Cell>, keys: &ZobristKeys, i: int, c: Cell, n: int)
    requires
        v.len() == 400,
        0 <= i < n <= 400,
    ensures
        board_hash_upto(v.update(i, c), keys, n) == board_hash_upto(v, keys, n)
            ^ keys.spec_stone_key(i, v[i]) ^ keys.spec_stone_key(i, c),
    decreases n,
{
    let v2 = v.update(i, c);
    let a = keys.spec_stone_key(i, v[i]);
    let b = keys.spec_stone_key(i, c);
    if n - 1 == i {
        lemma_hash_prefix_agree(v, v2, keys, n - 1);
        let x = board_hash_upto(v, keys, n - 1);
        assert(x ^ b == ((x ^ a) ^ a) ^ b) by (bit_vector);
    } else {
        lemma_hash_update(v, keys, i, c, n - 1);
        let x = board_hash_upto(v, keys, n - 1);
        let k = keys.spec_stone_key(n - 1, v[n - 1]);
        assert(((x ^ a) ^ b) ^ k == ((x ^ k) ^ a) ^ b) by (bit_vector);
    }
}

/// An all-empty board hashes to zero.
pub proof fn lemma_hash_empty(v: Seq<Cell>, keys: &ZobristKeys, n: int)
    requires
        forall|j: int| 0 <= j < n ==> v[j] == Cell::Empty,
    ensures
        board_hash_upto(v, keys, n) == 0,
    decreases n,
{
    if n > 0 {
        lemma_hash_empty(v, keys, n - 1);
        assert(0u64 ^ 0u64 == 0u64) by (bit_vector);
    }
}

/// Placing a stone on an empty cell and removing it again restores the
/// fingerprint exactly: the XOR of a key is its own inverse.
pub proof fn lemma_hash_place_remove(v: Seq<Cell>, keys: &ZobristKeys, i: int, c: Cell)
    requires
        v.len() == 400,
        0 <= i < 400,
        v[i] == Cell::Empty,
    ensures
        board_hash(v.update(i, c).update(i, Cell::Empty), keys) == board_hash(v, keys),
{
    let v1 = v.update(i, c);
    let h = board_hash(v, keys);
    let b = keys.spec_stone_key(i, c);
    lemma_hash_update(v, keys, i, c, 400);
    lemma_hash_update(v1, keys, i, Cell::Empty, 400);
    assert(v1.update(i, Cell::Empty) =~= v.update(i, Cell::Empty));
    assert(v.update(i, Cell::Empty) =~= v);
    assert((((h ^ 0u64) ^ b) ^ b) ^ 0u64 == h) by (bit_vector);
}

/// Recomputes the fingerprint of a whole board by full scan.
pub fn compute_board_hash(board: &crate::board::Board, keys: &ZobristKeys) -> (r: u64)
    requires
        board.wf(),
        keys.wf(),
    ensures
        r == board_hash(board@, keys),
{
    let mut h: u64 = 0;
    let mut i: usize = 0;
    while i < 400
        invariant
            board.wf(),
            keys.wf(),
            i <= 400,
            h == board_hash_upto(board@, keys, i as int),
        decreases 400 - i,
    {
        let c = board.cell_at(i);
        h = h ^ keys.stone_key(i, c);
        i += 1;
    }
    h
}

/// How a cached score relates to the true value of its position.
#[derive(Clone, Copy, PartialEq, Eq, Structural, Debug)]
pub enum TTFlag {
    Exact,
    LowerBound,
    UpperBound,
}

/// One cached search result.
#[derive(Clone, Copy, Debug)]
pub struct TTEntry {
    pub key: u64,
    pub score: i32,
    pub best_move: Option<(u8, u8)>,
    pub depth: u8,
    pub flag: TTFlag,
}

/// The state of a never-written slot.
pub open spec fn empty_entry() -> TTEntry {
    TTEntry { key: 0, score: 0, best_move: None, depth: 0, flag: TTFlag::Exact }
}

impl Default for TTEntry {
    fn default() -> (r: Self)
        ensures
            r == empty_entry(),
    {
        TTEntry { key: 0, score: 0, best_move: None, depth: 0, flag: TTFlag::Exact }
    }
}

/// The slot that fingerprint `hash` maps to.
pub open spec fn tt_index(hash: u64) -> int {
    (hash & 0x3f_ffff) as int
}

proof fn lemma_tt_index_bound(hash: u64)
    ensures
        0 <= tt_index(hash) < 0x40_0000,
{
    assert(hash & 0x3f_ffff < 0x40_0000) by (bit_vector);
}

/// Narrows a board coordinate pair to the stored byte pair.
pub open spec fn shrink_move(m: Option<(usize, usize)>) -> Option<(u8, u8)> {
    match m {
        None => None,
        Some(p) => Some((p.0 as u8, p.1 as u8)),
    }
}

/// The table after a store: the slot is overwritten exactly when it is
/// empty or holds a result of no greater depth.
pub open spec fn store_spec(
    t: Seq<TTEntry>,
    hash: u64,
    depth: u8,
    score: i32,
    flag: TTFlag,
    best_move: Option<(u8, u8)>,
) -> Seq<TTEntry> {
    let i = tt_index(hash);
    if t[i].key == 0 || t[i].depth <= depth {
        t.update(i, TTEntry { key: hash, score, best_move, depth, flag })
    } else {
        t
    }
}

/// Fixed-capacity, hash-indexed cache of prior search results.
pub struct TranspositionTable {
    entries: Vec<TTEntry>,
}

impl View for TranspositionTable {
    type V = Seq<TTEntry>;

    closed spec fn view(&self) -> Seq<TTEntry> {
        self.entries@
    }
}

impl TranspositionTable {
    /// Structural invariant: exactly `TT_SIZE` slots.
    pub open spec fn wf(&self) -> bool {
        self@.len() == TT_SIZE
    }

    /// A table of empty slots.
    pub fn new() -> (r: TranspositionTable)
        ensures
            r.wf(),
            forall|i: int| 0 <= i < TT_SIZE ==> r@[i] == empty_entry(),
    {
        let mut entries: Vec<TTEntry> = Vec::new();
        let mut i: usize = 0;
        while i < TT_SIZE
            invariant
                entries@.len() == i,
                i <= TT_SIZE,
                forall|k: int| 0 <= k < i ==> entries@[k] == empty_entry(),
            decreases TT_SIZE - i,
        {
            entries.push(TTEntry::default());
            i += 1;
        }
        TranspositionTable { entries }
    }

    fn index(&self, hash: u64) -> (i: usize)
        requires
            self.wf(),
        ensures
            i == tt_index(hash),
            i < TT_SIZE,
    {
        proof {
            lemma_tt_index_bound(hash);
        }
        (hash & 0x3f_ffff) as usize
    }

    /// Single-slot lookup: a key mismatch is a miss even when a different
    /// entry occupies the slot.
    pub fn probe(&self, hash: u64) -> (r: Option<&TTEntry>)
        requires
            self.wf(),
        ensures
            self@[tt_index(hash)].key == hash ==> (r matches Some(e) && *e == self@[tt_index(
                hash,
            )]),
            self@[tt_index(hash)].key != hash ==> r is None,
    {
        let idx = self.index(hash);
        let entry = &self.entries[idx];
        if entry.key == hash {
            Some(entry)
        } else {
            None
        }
    }

    /// Depth-preferred store: see [`store_spec`].
    pub fn store(
        &mut self,
        hash: u64,
        depth: u8,
        score: i32,
        flag: TTFlag,
        best_move: Option<(usize, usize)>,
    )
        requires
            old(self).wf(),
            best_move matches Some(m) ==> m.0 < 256 && m.1 < 256,
        ensures
            final(self).wf(),
            final(self)@ == store_spec(old(self)@, hash, depth, score, flag, shrink_move(
                best_move,
            )),
    {
        let idx = self.index(hash);
        let overwrite = self.entries[idx].key == 0 || self.entries[idx].depth <= depth;
        if overwrite {
            let narrow: Option<(u8, u8)> = match best_move {
                None => None,
                Some((x, y)) => Some((x as u8, y as u8)),
            };
            self.entries.set(
                idx,
                TTEntry { key: hash, score, best_move: narrow, depth, flag },
            );
        }
    }

    /// Resets every slot; called on game start and restart only.
    pub fn clear(&mut self)
        requires
            old(self).wf(),
        ensures
            final(self).wf(),
            forall|i: int| 0 <= i < TT_SIZE ==> final(self)@[i] == empty_entry(),
    {
        let mut i: usize = 0;
        while i < TT_SIZE
            invariant
                self.wf(),
                i <= TT_SIZE,
                forall|k: int| 0 <= k < i ==> self@[k] == empty_entry(),
            decreases TT_SIZE - i,
        {
            self.entries.set(i, TTEntry::default());
            i += 1;
        }
    }
}

/// Replacement is monotone in depth: once a slot holds a result for
/// `hash` at depth `d`, a store for the same `hash` at a shallower depth
/// leaves the slot intact, and one at equal or greater depth overwrites
/// it.
pub proof fn lemma_tt_replacement_monotonic(
    t: Seq<TTEntry>,
    hash: u64,
    depth: u8,
    score: i32,
    flag: TTFlag,
    best_move: Option<(u8, u8)>,
)
    requires
        t.len() == TT_SIZE,
        t[tt_index(hash)].key == hash,
        hash != 0,
    ensures
        depth < t[tt_index(hash)].depth ==> store_spec(t, hash, depth, score, flag, best_move)
            == t,
        depth >= t[tt_index(hash)].depth ==> store_spec(t, hash, depth, score, flag, best_move)
            == t.update(
            tt_index(hash),
            TTEntry { key: hash, score, best_move, depth, flag },
        ),
{
}

} // verus!
