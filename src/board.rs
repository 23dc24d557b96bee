//! The square board of cells and its mathematical model: a grid of rows.

use vstd::prelude::*;

verus! {

/// The state of one cell of the board.
#[derive(Clone, Copy, Debug, PartialEq, Eq, Structural)]
pub enum Cell {
    Empty,
    X,
    O,
}

/// The largest side length that a two-digit move can address.
pub const MAX_SIZE: usize = 9;

/// A grid of cells indexed as `grid[row][col]`.
pub type Grid = Seq<Seq<Cell>>;

/// A grid is well formed when it is square with a side between 1 and 9.
pub open spec fn grid_wf(g: Grid) -> bool {
    &&& 1 <= g.len() <= MAX_SIZE
    &&& forall|r: int| 0 <= r < g.len() ==> #[trigger] g[r].len() == g.len()
}

/// Whether `(r, c)` addresses a cell of the grid.
pub open spec fn in_grid(g: Grid, r: int, c: int) -> bool {
    0 <= r < g.len() && 0 <= c < g.len()
}

/// The grid with `v` written at `(r, c)`.
pub open spec fn place(g: Grid, r: int, c: int, v: Cell) -> Grid {
    g.update(r, g[r].update(c, v))
}

/// Whether some cell of the grid is empty.
pub open spec fn has_empty(g: Grid) -> bool {
    exists|r: int, c: int| in_grid(g, r, c) && #[trigger] g[r][c] == Cell::Empty
}

/// The empty cells of columns `0..c` of row `r` (whose cells are `row`), left to right.
pub open spec fn row_empties(row: Seq<Cell>, r: int, c: int) -> Seq<(int, int)>
    decreases c,
{
    if c <= 0 {
        seq![]
    } else if row[c - 1] == Cell::Empty {
        row_empties(row, r, c - 1).push((r, c - 1))
    } else {
        row_empties(row, r, c - 1)
    }
}

/// The empty cells of rows `0..r`, in row-major order.
pub open spec fn empties_upto(g: Grid, r: int) -> Seq<(int, int)>
    decreases r,
{
    if r <= 0 {
        seq![]
    } else {
        empties_upto(g, r - 1) + row_empties(g[r - 1], r - 1, g.len() as int)
    }
}

/// Every empty cell of the grid, in row-major order.
pub open spec fn empty_cells(g: Grid) -> Seq<(int, int)> {
    empties_upto(g, g.len() as int)
}

/// The number of empty cells.
pub open spec fn empty_count(g: Grid) -> nat {
    empty_cells(g).len()
}

proof fn lemma_row_empties_members(row: Seq<Cell>, r: int, c: int)
    requires
        0 <= c <= row.len(),
    ensures
        forall|m: (int, int)|
            #[trigger] row_empties(row, r, c).contains(m) <==> (m.0 == r && 0 <= m.1 < c
                && row[m.1] == Cell::Empty),
    decreases c,
{
    broadcast use vstd::seq_lib::lemma_seq_empty_contains_nothing;

    if c > 0 {
        lemma_row_empties_members(row, r, c - 1);
        let prev = row_empties(row, r, c - 1);
        assert forall|m: (int, int)|
            #[trigger] row_empties(row, r, c).contains(m) <==> (m.0 == r && 0 <= m.1 < c
                && row[m.1] == Cell::Empty) by {
            vstd::seq_lib::lemma_seq_contains_after_push(prev, (r, c - 1), m);
            assert(prev.contains(m) <==> (m.0 == r && 0 <= m.1 < c - 1 && row[m.1] == Cell::Empty));
        }
    }
}

proof fn lemma_empties_upto_members(g: Grid, r: int)
    requires
        grid_wf(g),
        0 <= r <= g.len(),
    ensures
        forall|m: (int, int)|
            #[trigger] empties_upto(g, r).contains(m) <==> (0 <= m.0 < r && in_grid(g, m.0, m.1)
                && g[m.0][m.1] == Cell::Empty),
    decreases r,
{
    broadcast use vstd::seq_lib::lemma_seq_empty_contains_nothing;

    if r > 0 {
        lemma_empties_upto_members(g, r - 1);
        let a = empties_upto(g, r - 1);
        let b = row_empties(g[r - 1], r - 1, g.len() as int);
        lemma_row_empties_members(g[r - 1], r - 1, g.len() as int);
        assert forall|m: (int, int)|
            #[trigger] empties_upto(g, r).contains(m) <==> (0 <= m.0 < r && in_grid(g, m.0, m.1)
                && g[m.0][m.1] == Cell::Empty) by {
            vstd::seq_lib::lemma_seq_concat_contains_all_elements(a, b, m);
            assert(a.contains(m) <==> (0 <= m.0 < r - 1 && in_grid(g, m.0, m.1) && g[m.0][m.1] == Cell::Empty));
            assert(b.contains(m) <==> (m.0 == r - 1 && 0 <= m.1 < g.len() && g[r - 1][m.1] == Cell::Empty));
        }
    }
}

/// A coordinate is listed among the empty cells exactly when it addresses an
/// empty cell of the grid.
pub proof fn lemma_empty_cells_members(g: Grid)
    requires
        grid_wf(g),
    ensures
        forall|m: (int, int)|
            #[trigger] empty_cells(g).contains(m) <==> (in_grid(g, m.0, m.1) && g[m.0][m.1]
                == Cell::Empty),
        empty_cells(g).len() == 0 <==> !has_empty(g),
{
    lemma_empties_upto_members(g, g.len() as int);
    if has_empty(g) {
        let (r, c) = choose|r: int, c: int| in_grid(g, r, c) && #[trigger] g[r][c] == Cell::Empty;
        assert(empty_cells(g).contains((r, c)));
    }
    if empty_cells(g).len() != 0 {
        let m = empty_cells(g)[0];
        assert(empty_cells(g).contains(m));
        assert(g[m.0][m.1] == Cell::Empty);
    }
}

proof fn lemma_row_empties_place(row: Seq<Cell>, r: int, c: int, col: int, v: Cell)
    requires
        0 <= col < row.len(),
        0 <= c <= row.len(),
        row[col] == Cell::Empty,
        v != Cell::Empty,
    ensures
        row_empties(row.update(col, v), r, c).len() + (if col < c { 1int } else { 0int })
            == row_empties(row, r, c).len(),
    decreases c,
{
    if c > 0 {
        lemma_row_empties_place(row, r, c - 1, col, v);
    }
}

proof fn lemma_empties_upto_place(g: Grid, k: int, r: int, c: int, v: Cell)
    requires
        grid_wf(g),
        0 <= k <= g.len(),
        in_grid(g, r, c),
        g[r][c] == Cell::Empty,
        v != Cell::Empty,
    ensures
        empties_upto(place(g, r, c, v), k).len() + (if r < k { 1int } else { 0int })
            == empties_upto(g, k).len(),
    decreases k,
{
    if k > 0 {
        lemma_empties_upto_place(g, k - 1, r, c, v);
        let g2 = place(g, r, c, v);
        if k - 1 == r {
            lemma_row_empties_place(g[r], r, g.len() as int, c, v);
        } else {
            assert(g2[k - 1] == g[k - 1]);
        }
    }
}

/// Filling an empty cell leaves one empty cell fewer.
pub proof fn lemma_place_decreases_empty_count(g: Grid, r: int, c: int, v: Cell)
    requires
        grid_wf(g),
        in_grid(g, r, c),
        g[r][c] == Cell::Empty,
        v != Cell::Empty,
    ensures
        empty_count(place(g, r, c, v)) + 1 == empty_count(g),
        grid_wf(place(g, r, c, v)),
{
    lemma_empties_upto_place(g, g.len() as int, r, c, v);
    let g2 = place(g, r, c, v);
    assert forall|i: int| 0 <= i < g2.len() implies #[trigger] g2[i].len() == g2.len() by {
        if i != r {
            assert(g2[i] == g[i]);
        }
    }
}

/// A square board of cells, stored row by row.
#[derive(Debug)]
pub struct Board {
    rows: Vec<Vec<Cell>>,
}

impl View for Board {
    type V = Grid;

    closed spec fn view(&self) -> Grid {
        self.rows@.map_values(|row: Vec<Cell>| row@)
    }
}

impl Board {
    /// The board's invariant: its grid is square with a side between 1 and 9.
    pub open spec fn wf(&self) -> bool {
        grid_wf(self@)
    }

    /// A board of `size` rows and columns, all empty; `None` when `size` is
    /// not between 1 and 9.
    pub fn new(size: usize) -> (r: Option<Board>)
        ensures
            (1 <= size <= MAX_SIZE) <==> r is Some,
            r matches Some(b) ==> b.wf() && b@.len() == size && !(exists|i: int, j: int|
                in_grid(b@, i, j) && #[trigger] b@[i][j] != Cell::Empty),
    {
        if size < 1 || size > MAX_SIZE {
            return None;
        }
        let mut rows: Vec<Vec<Cell>> = Vec::new();
        let mut i: usize = 0;
        while i < size
            invariant
                1 <= size <= MAX_SIZE,
                i <= size,
                rows@.len() == i,
                forall|k: int| 0 <= k < i ==> #[trigger] rows@[k]@ == Seq::new(size as nat, |j: int| Cell::Empty),
            decreases size - i,
        {
            let mut row: Vec<Cell> = Vec::new();
            let mut j: usize = 0;
            while j < size
                invariant
                    j <= size,
                    row@ == Seq::new(j as nat, |k: int| Cell::Empty),
                decreases size - j,
            {
                row.push(Cell::Empty);
                j += 1;
                assert(row@ =~= Seq::new(j as nat, |k: int| Cell::Empty));
            }
            rows.push(row);
            i += 1;
        }
        let b = Board { rows };
        assert(b@.len() == size);
        Some(b)
    }

    /// The side length of the board.
    pub fn size(&self) -> (r: usize)
        requires
            self.wf(),
        ensures
            r == self@.len(),
    {
        self.rows.len()
    }

    /// The cell at `(row, col)`.
    pub fn get(&self, row: usize, col: usize) -> (r: Cell)
        requires
            self.wf(),
            in_grid(self@, row as int, col as int),
        ensures
            r == self@[row as int][col as int],
    {
        assert(self.rows@[row as int]@ == self@[row as int]);
        self.rows[row][col]
    }

    /// Writes `cell` at `(row, col)`; every other cell keeps its value.
    pub fn set(&mut self, row: usize, col: usize, cell: Cell)
        requires
            old(self).wf(),
            in_grid(old(self)@, row as int, col as int),
        ensures
            final(self).wf(),
            final(self)@ == place(old(self)@, row as int, col as int, cell),
    {
        let ghost g0 = self@;
        assert(self.rows@[row as int]@ == self@[row as int]);
        self.rows[row][col] = cell;
        assert(self@ =~= place(g0, row as int, col as int, cell)) by {
            assert forall|i: int| 0 <= i < g0.len() implies #[trigger] self@[i] == place(g0, row as int, col as int, cell)[i] by {
                if i != row {
                    assert(self.rows@[i] == old(self).rows@[i]);
                }
            }
        }
        assert forall|i: int| 0 <= i < self@.len() implies #[trigger] self@[i].len() == self@.len() by {
            if i != row {
                assert(self@[i] == g0[i]);
            }
        }
    }

    /// A copy of the board with the same cells.
    pub fn duplicate(&self) -> (r: Board)
        requires
            self.wf(),
        ensures
            r.wf(),
            r@ == self@,
    {
        let n = self.rows.len();
        let mut rows: Vec<Vec<Cell>> = Vec::new();
        let mut i: usize = 0;
        while i < n
            invariant
                n == self.rows@.len(),
                i <= n,
                rows@.len() == i,
                forall|k: int| 0 <= k < i ==> #[trigger] rows@[k]@ == self.rows@[k]@,
            decreases n - i,
        {
            let src = &self.rows[i];
            let mut row: Vec<Cell> = Vec::new();
            let mut j: usize = 0;
            while j < src.len()
                invariant
                    j <= src@.len(),
                    row@ == src@.subrange(0, j as int),
                decreases src@.len() - j,
            {
                row.push(src[j]);
                j += 1;
                assert(row@ =~= src@.subrange(0, j as int));
            }
            assert(row@ =~= src@);
            rows.push(row);
            i += 1;
        }
        let b = Board { rows };
        assert(b@ =~= self@);
        b
    }
}

/// The coordinates of every empty cell, in row-major order.
pub fn get_empty_cells(board: &Board) -> (r: Vec<(usize, usize)>)
    requires
        board.wf(),
    ensures
        r@.len() == empty_cells(board@).len(),
        forall|i: int| 0 <= i < r@.len() ==> (#[trigger] r@[i]).0 as int == empty_cells(board@)[i].0
            && r@[i].1 as int == empty_cells(board@)[i].1,
{
    let n = board.size();
    let ghost g = board@;
    let mut cells: Vec<(usize, usize)> = Vec::new();
    let mut row: usize = 0;
    while row < n
        invariant
            board.wf(),
            g == board@,
            n == g.len(),
            row <= n,
            cells@.len() == empties_upto(g, row as int).len(),
            forall|i: int| 0 <= i < cells@.len() ==> (#[trigger] cells@[i]).0 as int == empties_upto(g, row as int)[i].0
                && cells@[i].1 as int == empties_upto(g, row as int)[i].1,
        decreases n - row,
    {
        let ghost before = empties_upto(g, row as int);
        let mut col: usize = 0;
        while col < n
            invariant
                board.wf(),
                g == board@,
                n == g.len(),
                row < n,
                col <= n,
                before == empties_upto(g, row as int),
                cells@.len() == before.len() + row_empties(g[row as int], row as int, col as int).len(),
                forall|i: int| 0 <= i < cells@.len() ==> (#[trigger] cells@[i]).0 as int == (before + row_empties(g[row as int], row as int, col as int))[i].0
                    && cells@[i].1 as int == (before + row_empties(g[row as int], row as int, col as int))[i].1,
            decreases n - col,
        {
            if board.get(row, col) == Cell::Empty {
                cells.push((row, col));
            }
            col += 1;
        }
        row += 1;
    }
    cells
}

} // verus!
