//! The 20x20 game grid: cell states, bounds-checked access, and win
//! detection by directional scan.

use vstd::prelude::*;

verus! {

use vstd::pervasive::VecAdditionalExecFns;

/// Side length of the (only supported) board.
pub const BOARD_SIZE: usize = 20;

/// Total number of cells, `BOARD_SIZE * BOARD_SIZE`.
pub const CELL_COUNT: usize = 400;

/// State of one cell. `Forbidden` cells are permanently non-playable.
#[derive(Clone, Copy, PartialEq, Eq, Structural, Debug)]
pub enum Cell {
    Empty,
    MyStone,
    OpStone,
    Forbidden,
}

impl Default for Cell {
    fn default() -> (r: Self)
        ensures
            r == Cell::Empty,
    {
        Cell::Empty
    }
}

/// True when `(x, y)` lies on the board.
pub open spec fn in_bounds(x: int, y: int) -> bool {
    0 <= x < 20 && 0 <= y < 20
}

/// Raster index of `(x, y)`: row-major, `y` selecting the row.
pub open spec fn idx(x: int, y: int) -> int {
    y * 20 + x
}

/// Step vector of direction `d`: east, south, southeast, northeast.
pub open spec fn dir_dx(d: int) -> int {
    if d == 1 { 0 } else { 1 }
}

/// See [`dir_dx`].
pub open spec fn dir_dy(d: int) -> int {
    if d == 0 { 0 } else if d == 3 { -1 } else { 1 }
}

/// Number of consecutive `p` cells strictly after `(x, y)` stepping by
/// `(dx, dy)`, counting at most `limit` steps and stopping at the board
/// edge or the first non-`p` cell.
pub open spec fn run_len(
    v: Seq<Cell>,
    p: Cell,
    x: int,
    y: int,
    dx: int,
    dy: int,
    limit: nat,
) -> nat
    decreases limit,
{
    if limit == 0 {
        0
    } else {
        let nx = x + dx;
        let ny = y + dy;
        if in_bounds(nx, ny) && v[idx(nx, ny)] == p {
            (1 + run_len(v, p, nx, ny, dx, dy, (limit - 1) as nat)) as nat
        } else {
            0
        }
    }
}

/// A winning run is anchored at `(x, y)`: that cell holds `p` and at
/// least four more `p` cells follow in direction `d`.
pub open spec fn wins_at(v: Seq<Cell>, p: Cell, x: int, y: int, d: int) -> bool {
    &&& in_bounds(x, y)
    &&& 0 <= d < 4
    &&& v[idx(x, y)] == p
    &&& run_len(v, p, x, y, dir_dx(d), dir_dy(d), 4) >= 4
}

/// Five or more colinear `p` stones stand somewhere on the board.
pub open spec fn has_five(v: Seq<Cell>, p: Cell) -> bool {
    exists|x: int, y: int, d: int| wins_at(v, p, x, y, d)
}

/// The raster-ordered sequence of the empty coordinates among the first
/// `n` cells.
pub open spec fn empty_cells_upto(v: Seq<Cell>, n: int) -> Seq<(usize, usize)>
    decreases n,
{
    if n <= 0 {
        Seq::empty()
    } else if v[n - 1] == Cell::Empty {
        empty_cells_upto(v, n - 1) + seq![((((n - 1) % 20) as usize), (((n - 1) / 20) as usize))]
    } else {
        empty_cells_upto(v, n - 1)
    }
}

/// The step vector of direction `d` as executable values.
pub fn dir_step(d: usize) -> (r: (isize, isize))
    requires
        d < 4,
    ensures
        r.0 == dir_dx(d as int),
        r.1 == dir_dy(d as int),
        -1 <= r.0 <= 1,
        -1 <= r.1 <= 1,
{
    match d {
        0 => (1, 0),
        1 => (0, 1),
        2 => (1, 1),
        _ => (1, -1),
    }
}

/// The fixed 20x20 grid of cells.
pub struct Board {
    cells: Vec<Cell>,
    size: usize,
}

impl View for Board {
    type V = Seq<Cell>;

    closed spec fn view(&self) -> Seq<Cell> {
        self.cells@
    }
}

impl Default for Board {
    fn default() -> (r: Board)
        ensures
            r.wf(),
            forall|i: int| 0 <= i < 400 ==> r@[i] == Cell::Empty,
    {
        Board::empty_board()
    }
}

impl Board {
    /// The structural invariant: exactly 400 cells, side length 20.
    pub open spec fn wf(&self) -> bool {
        self@.len() == 400 && self.size_ok()
    }

    /// The private side-length invariant.
    pub closed spec fn size_ok(&self) -> bool {
        self.size == 20
    }

    /// An all-empty board.
    fn empty_board() -> (b: Board)
        ensures
            b.wf(),
            forall|i: int| 0 <= i < 400 ==> b@[i] == Cell::Empty,
    {
        let cells: Vec<Cell> = vec![Cell::Empty; 400];
        Board { cells, size: BOARD_SIZE }
    }

    /// Accepts only the supported size.
    pub fn new(size: usize) -> (r: Option<Board>)
        ensures
            size == 20 ==> (r matches Some(b) && b.wf() && forall|i: int|
                0 <= i < 400 ==> b@[i] == Cell::Empty),
            size != 20 ==> r is None,
    {
        if size != 20 {
            return None;
        }
        Some(Board::empty_board())
    }

    /// Side length of the board.
    pub fn size(&self) -> (r: usize)
        requires
            self.wf(),
        ensures
            r == 20,
    {
        self.size
    }

    /// Raster index of `(x, y)`, `None` out of bounds.
    pub fn get_index(&self, x: usize, y: usize) -> (r: Option<usize>)
        requires
            self.wf(),
        ensures
            in_bounds(x as int, y as int) ==> r == Some((y * 20 + x) as usize),
            !in_bounds(x as int, y as int) ==> r is None,
    {
        if x >= self.size || y >= self.size {
            None
        } else {
            Some(y * self.size + x)
        }
    }

    /// The cell at `(x, y)`, `None` out of bounds.
    pub fn get_cell(&self, x: usize, y: usize) -> (r: Option<Cell>)
        requires
            self.wf(),
        ensures
            in_bounds(x as int, y as int) ==> r == Some(self@[idx(x as int, y as int)]),
            !in_bounds(x as int, y as int) ==> r is None,
    {
        match self.get_index(x, y) {
            Some(i) => Some(self.cells[i]),
            None => None,
        }
    }

    /// Writes `cell` at `(x, y)`; rejects out-of-bounds coordinates.
    pub fn set_cell(&mut self, x: usize, y: usize, cell: Cell) -> (r: Result<(), &'static str>)
        requires
            old(self).wf(),
        ensures
            final(self).wf(),
            in_bounds(x as int, y as int) ==> r is Ok
                && final(self)@ == old(self)@.update(idx(x as int, y as int), cell),
            !in_bounds(x as int, y as int) ==> final(self)@ == old(self)@
                && (r matches Err(m) && m@ == "Coordinates out of bounds"@),
    {
        match self.get_index(x, y) {
            Some(i) => {
                self.cells.set(i, cell);
                Ok(())
            },
            None => Err("Coordinates out of bounds"),
        }
    }

    /// An exact copy of this board.
    pub fn duplicate(&self) -> (b: Board)
        requires
            self.wf(),
        ensures
            b.wf(),
            b@ == self@,
    {
        let cells = self.cells.clone();
        let b = Board { cells, size: self.size };
        proof {
            assert(b@ =~= self@);
        }
        b
    }

    /// The cell at raster index `i`.
    pub fn cell_at(&self, i: usize) -> (r: Cell)
        requires
            self.wf(),
            i < 400,
        ensures
            r == self@[i as int],
    {
        self.cells[i]
    }

    /// True when `(x, y)` is on the board and empty.
    pub fn is_empty(&self, x: usize, y: usize) -> (r: bool)
        requires
            self.wf(),
        ensures
            r == (in_bounds(x as int, y as int) && self@[idx(x as int, y as int)] == Cell::Empty),
    {
        match self.get_cell(x, y) {
            Some(c) => matches!(c, Cell::Empty),
            None => false,
        }
    }

    /// Empties every cell.
    pub fn clear(&mut self)
        requires
            old(self).wf(),
        ensures
            final(self).wf(),
            forall|i: int| 0 <= i < 400 ==> final(self)@[i] == Cell::Empty,
    {
        self.cells = vec![Cell::Empty; 400];
    }

    /// Every coordinate in raster order, row by row.
    pub fn iter_indices(&self) -> (r: Vec<(usize, usize)>)
        requires
            self.wf(),
        ensures
            r@.len() == 400,
            forall|x: int, y: int| in_bounds(x, y) ==> r@[idx(x, y)] == (x as usize, y as usize),
    {
        let mut r: Vec<(usize, usize)> = Vec::new();
        let mut y: usize = 0;
        while y < 20
            invariant
                y <= 20,
                r@.len() == y * 20,
                forall|xx: int, yy: int| in_bounds(xx, yy) && yy < y ==> r@[idx(xx, yy)] == (
                xx as usize,
                yy as usize,
                ),
            decreases 20 - y,
        {
            let mut x: usize = 0;
            while x < 20
                invariant
                    y < 20,
                    x <= 20,
                    r@.len() == y * 20 + x,
                    forall|xx: int, yy: int| in_bounds(xx, yy) && yy < y ==> r@[idx(xx, yy)] == (
                    xx as usize,
                    yy as usize,
                    ),
                    forall|xx: int| 0 <= xx < x ==> r@[idx(xx, y as int)] == (xx as usize, y),
                decreases 20 - x,
            {
                r.push((x, y));
                x += 1;
            }
            y += 1;
        }
        r
    }

    /// The empty coordinates in raster order.
    pub fn iter_empty(&self) -> (r: Vec<(usize, usize)>)
        requires
            self.wf(),
        ensures
            r@ == empty_cells_upto(self@, 400),
    {
        let mut r: Vec<(usize, usize)> = Vec::new();
        let mut i: usize = 0;
        while i < 400
            invariant
                self.wf(),
                i <= 400,
                r@ == empty_cells_upto(self@, i as int),
            decreases 400 - i,
        {
            let c = self.cells[i];
            if matches!(c, Cell::Empty) {
                r.push((i % 20, i / 20));
            }
            i += 1;
        }
        r
    }

    /// No empty cell remains.
    pub fn is_full(&self) -> (r: bool)
        requires
            self.wf(),
        ensures
            r == (forall|i: int| 0 <= i < 400 ==> self@[i] != Cell::Empty),
    {
        let mut i: usize = 0;
        while i < 400
            invariant
                self.wf(),
                i <= 400,
                forall|j: int| 0 <= j < i ==> self@[j] != Cell::Empty,
            decreases 400 - i,
        {
            if matches!(self.cells[i], Cell::Empty) {
                return false;
            }
            i += 1;
        }
        true
    }

    /// Counts the consecutive `p` cells strictly after `(x, y)` stepping
    /// by `(dx, dy)`, up to `limit` steps.
    pub fn run_length(&self, p: Cell, x: usize, y: usize, dx: isize, dy: isize, limit: usize) -> (n: usize)
        requires
            self.wf(),
            x < 20,
            y < 20,
            -1 <= dx <= 1,
            -1 <= dy <= 1,
            limit <= 8,
        ensures
            n == run_len(self@, p, x as int, y as int, dx as int, dy as int, limit as nat),
            n <= limit,
    {
        let mut n: usize = 0;
        let mut cx: isize = x as isize;
        let mut cy: isize = y as isize;
        while n < limit
            invariant_except_break
                self.wf(),
                n <= limit,
                0 <= cx < 20,
                0 <= cy < 20,
                -1 <= dx <= 1,
                -1 <= dy <= 1,
                run_len(self@, p, x as int, y as int, dx as int, dy as int, limit as nat) == n
                    + run_len(self@, p, cx as int, cy as int, dx as int, dy as int, (limit - n) as nat),
            ensures
                n <= limit,
                n == run_len(self@, p, x as int, y as int, dx as int, dy as int, limit as nat),
            decreases limit - n,
        {
            let nx = cx + dx;
            let ny = cy + dy;
            if nx < 0 || nx >= 20 || ny < 0 || ny >= 20 {
                break;
            }
            let c = self.cells[(ny as usize) * 20 + nx as usize];
            if c == p {
                n += 1;
                cx = nx;
                cy = ny;
            } else {
                break;
            }
        }
        n
    }

    /// Whether `player` has at least five in a row in any of the four
    /// orientations.
    pub fn check_five_in_a_row(&self, player: Cell) -> (r: bool)
        requires
            self.wf(),
        ensures
            r == has_five(self@, player),
    {
        let mut y: usize = 0;
        while y < 20
            invariant
                self.wf(),
                y <= 20,
                forall|xx: int, yy: int, dd: int| yy < y ==> !wins_at(self@, player, xx, yy, dd),
            decreases 20 - y,
        {
            let mut x: usize = 0;
            while x < 20
                invariant
                    self.wf(),
                    y < 20,
                    x <= 20,
                    forall|xx: int, yy: int, dd: int| yy < y ==> !wins_at(self@, player, xx, yy, dd),
                    forall|xx: int, dd: int| xx < x ==> !wins_at(self@, player, xx, y as int, dd),
                decreases 20 - x,
            {
                let anchored = self.cells[y * 20 + x] == player;
                if anchored {
                    let mut d: usize = 0;
                    while d < 4
                        invariant
                            self.wf(),
                            y < 20,
                            x < 20,
                            d <= 4,
                            self@[idx(x as int, y as int)] == player,
                            forall|dd: int| dd < d ==> !wins_at(self@, player, x as int, y as int, dd),
                        decreases 4 - d,
                    {
                        let (dx, dy) = dir_step(d);
                        let n = self.run_length(player, x, y, dx, dy, 4);
                        if n >= 4 {
                            assert(wins_at(self@, player, x as int, y as int, d as int));
                            return true;
                        }
                        assert(!wins_at(self@, player, x as int, y as int, d as int));
                        d += 1;
                    }
                }
                assert forall|dd: int| !wins_at(self@, player, x as int, y as int, dd) by {
                    if 0 <= dd < 4 && !anchored {
                        assert(self@[idx(x as int, y as int)] != player);
                    }
                }
                x += 1;
            }
            y += 1;
        }
        assert forall|xx: int, yy: int, dd: int| !wins_at(self@, player, xx, yy, dd) by {
            if in_bounds(xx, yy) {
                assert(yy < 20);
            }
        }
        false
    }
}

} // verus!
