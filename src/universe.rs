use vstd::prelude::*;
use vstd::string::*;

verus! {

/// The state of one cell of the grid.
#[derive(Debug, Clone, Copy, PartialEq, Eq, Structural)]
pub enum Cell {
    Dead,
    Alive,
}

/// Why a grid could not be built.
#[derive(Debug, Clone, Copy, PartialEq, Eq, Structural)]
pub enum UniverseError {
    /// The width or the height is zero.
    InvalidDimension,
}

/// A fixed-size grid of cells whose edges wrap around.
///
/// Cell `(x, y)`, with `x` the column and `y` the row, is stored at
/// position `y * width + x`.
pub struct Universe {
    height: u32,
    width: u32,
    cells: Vec<Cell>,
}

/// 1 for a live cell, 0 for a dead one.
pub open spec fn alive_num(c: Cell) -> int {
    match c {
        Cell::Alive => 1,
        Cell::Dead => 0,
    }
}

/// Storage position of `(x, y)` in a grid of width `w`.
pub open spec fn index_of(w: int, x: int, y: int) -> int {
    y * w + x
}

/// The `k`-th of the three shifts `n - 1`, `0` and `1` along an axis of
/// length `n`; added modulo `n`, `n - 1` steps back by one.
pub open spec fn shift(n: int, k: int) -> int {
    if k == 0 {
        n - 1
    } else if k == 1 {
        0
    } else {
        1
    }
}

/// What the cell reached from `(x, y)` by column shift `i` and row shift `j`
/// adds to the neighbour count of `(x, y)`: nothing when both shifts are
/// zero, else 1 if that cell is alive, with both axes wrapping around.
pub open spec fn neighbor_term(cells: Seq<Cell>, w: int, h: int, x: int, y: int, i: int, j: int) -> int {
    let dx = shift(w, i);
    let dy = shift(h, j);
    if dx == 0 && dy == 0 {
        0
    } else {
        alive_num(cells[index_of(w, (x + dx) % w, (y + dy) % h)])
    }
}

/// The three terms of column shift `i`.
pub open spec fn neighbor_column(cells: Seq<Cell>, w: int, h: int, x: int, y: int, i: int) -> int {
    neighbor_term(cells, w, h, x, y, i, 0) + neighbor_term(cells, w, h, x, y, i, 1)
        + neighbor_term(cells, w, h, x, y, i, 2)
}

/// The number of live cells around `(x, y)` on a torus of `w` columns and
/// `h` rows.
pub open spec fn live_neighbors(cells: Seq<Cell>, w: int, h: int, x: int, y: int) -> int {
    neighbor_column(cells, w, h, x, y, 0) + neighbor_column(cells, w, h, x, y, 1)
        + neighbor_column(cells, w, h, x, y, 2)
}

/// At most eight neighbours are counted: each term is 0 or 1, and the
/// centre adds nothing.
proof fn lemma_live_neighbors_bound(cells: Seq<Cell>, w: int, h: int, x: int, y: int)
    ensures
        0 <= live_neighbors(cells, w, h, x, y) <= 8,
{
    assert forall|i: int, j: int| 0 <= #[trigger] neighbor_term(cells, w, h, x, y, i, j) <= 1 by {
        let c = cells[index_of(w, (x + shift(w, i)) % w, (y + shift(h, j)) % h)];
        assert(0 <= alive_num(c) <= 1);
    }
    assert(neighbor_term(cells, w, h, x, y, 1, 1) == 0);
}

/// The sum of the first `i` columns of terms.
spec fn columns_before(cells: Seq<Cell>, w: int, h: int, x: int, y: int, i: int) -> int
    decreases i,
{
    if i <= 0 {
        0
    } else {
        columns_before(cells, w, h, x, y, i - 1) + neighbor_column(cells, w, h, x, y, i - 1)
    }
}

/// The sum of the first `j` terms of column shift `i`.
spec fn terms_before(cells: Seq<Cell>, w: int, h: int, x: int, y: int, i: int, j: int) -> int
    decreases j,
{
    if j <= 0 {
        0
    } else {
        terms_before(cells, w, h, x, y, i, j - 1) + neighbor_term(cells, w, h, x, y, i, j - 1)
    }
}

/// The state of a cell in the next generation, from its state and its
/// number of live neighbours.
pub open spec fn next_state(c: Cell, n: int) -> Cell {
    match c {
        Cell::Alive => if n == 2 || n == 3 {
            Cell::Alive
        } else {
            Cell::Dead
        },
        Cell::Dead => if n == 3 {
            Cell::Alive
        } else {
            Cell::Dead
        },
    }
}

/// The generation that follows `cells` on a torus of `w` columns and `h`
/// rows: every cell is updated from the neighbours it has in `cells`.
pub open spec fn next_generation(cells: Seq<Cell>, w: int, h: int) -> Seq<Cell> {
    Seq::new(
        (w * h) as nat,
        |k: int| next_state(cells[k], live_neighbors(cells, w, h, k % w, k / w)),
    )
}

/// The cells of a new grid, one per coin: alive where the coin is `true`.
pub open spec fn cells_from_coins(coins: Seq<bool>) -> Seq<Cell> {
    Seq::new(coins.len(), |k: int| if coins[k] { Cell::Alive } else { Cell::Dead })
}

/// The glyph drawn for a cell: filled when alive, outlined when dead.
pub open spec fn glyph(c: Cell) -> char {
    match c {
        Cell::Alive => '\u{25FC}',
        Cell::Dead => '\u{25FB}',
    }
}

/// Row `y` of a grid of width `w` as text: one glyph per cell, then a line
/// break.
pub open spec fn row_text(cells: Seq<Cell>, w: int, y: int) -> Seq<char> {
    Seq::new(w as nat, |x: int| glyph(cells[index_of(w, x, y)])).push('\n')
}

/// The first `n` rows of a grid of width `w` as text.
pub open spec fn rows_text(cells: Seq<Cell>, w: int, n: int) -> Seq<char>
    decreases n,
{
    if n <= 0 {
        Seq::empty()
    } else {
        rows_text(cells, w, n - 1) + row_text(cells, w, n - 1)
    }
}

impl Universe {
    #[verifier::type_invariant]
    spec fn well_formed(self) -> bool {
        &&& self.width > 0
        &&& self.height > 0
        &&& self.cells@.len() == self.width * self.height
    }

    /// The number of columns.
    pub closed spec fn spec_width(&self) -> nat {
        self.width as nat
    }

    /// The number of rows.
    pub closed spec fn spec_height(&self) -> nat {
        self.height as nat
    }

    /// The cells, row after row.
    pub closed spec fn spec_cells(&self) -> Seq<Cell> {
        self.cells@
    }

    fn get_index(&self, x: u32, y: u32) -> (r: usize)
        requires
            x < self.spec_width(),
            y < self.spec_height(),
        ensures
            r == index_of(self.spec_width() as int, x as int, y as int),
            r < self.spec_cells().len(),
    {
        proof {
            use_type_invariant(self);
        }
        let len = self.cells.len();
        proof {
            let w = self.width as int;
            let h = self.height as int;
            assert(w * h == len);
            assert(y * w + x < w * h) by (nonlinear_arith)
                requires
                    0 <= x < w,
                    0 <= y < h,
            ;
            assert(0 <= y * w <= y * w + x) by (nonlinear_arith)
                requires
                    0 <= x,
                    0 <= y,
                    0 <= w,
            ;
        }
        (y as usize) * (self.width as usize) + (x as usize)
    }

    fn live_neighbor_count(&self, x: u32, y: u32) -> (r: u8)
        requires
            x < self.spec_width(),
            y < self.spec_height(),
        ensures
            r == live_neighbors(
                self.spec_cells(),
                self.spec_width() as int,
                self.spec_height() as int,
                x as int,
                y as int,
            ),
            r <= 8,
    {
        proof {
            use_type_invariant(self);
        }
        let ghost cells = self.cells@;
        let ghost w = self.width as int;
        let ghost h = self.height as int;
        let mut count: u8 = 0;
        let mut i: u32 = 0;
        while i < 3
            invariant
                0 <= i <= 3,
                cells == self.cells@,
                w == self.width,
                h == self.height,
                x < w,
                y < h,
                count == columns_before(cells, w, h, x as int, y as int, i as int),
                count <= 3 * i,
            decreases 3 - i,
        {
            let delt_x: u32 = if i == 0 {
                self.width - 1
            } else if i == 1 {
                0
            } else {
                1
            };
            let mut j: u32 = 0;
            while j < 3
                invariant
                    0 <= i < 3,
                    0 <= j <= 3,
                    cells == self.cells@,
                    w == self.width,
                    h == self.height,
                    x < w,
                    y < h,
                    delt_x == shift(w, i as int),
                    count == columns_before(cells, w, h, x as int, y as int, i as int)
                        + terms_before(cells, w, h, x as int, y as int, i as int, j as int),
                    count <= 3 * i + j,
                decreases 3 - j,
            {
                let delt_y: u32 = if j == 0 {
                    self.height - 1
                } else if j == 1 {
                    0
                } else {
                    1
                };
                if !(delt_x == 0 && delt_y == 0) {
                    let pos_x = ((delt_x as u64 + x as u64) % (self.width as u64)) as u32;
                    let pos_y = ((delt_y as u64 + y as u64) % (self.height as u64)) as u32;
                    let idx = self.get_index(pos_x, pos_y);
                    let live: u8 = match self.cells[idx] {
                        Cell::Alive => 1,
                        Cell::Dead => 0,
                    };
                    count = count + live;
                }
                j = j + 1;
            }
            proof {
                reveal_with_fuel(terms_before, 4);
            }
            i = i + 1;
        }
        proof {
            reveal_with_fuel(columns_before, 4);
            lemma_live_neighbors_bound(cells, w, h, x as int, y as int);
        }
        count
    }

    /// A grid of `width` columns and `height` rows. `coins` holds one draw
    /// per cell, in storage order: a fair coin for each gives every cell
    /// probability one half of starting alive.
    pub fn new(width: u32, height: u32, coins: &Vec<bool>) -> (r: Result<Universe, UniverseError>)
        requires
            coins@.len() == width * height,
        ensures
            r is Err <==> (width == 0 || height == 0),
            r is Err ==> r == Err::<Universe, UniverseError>(UniverseError::InvalidDimension),
            r matches Ok(u) ==> {
                &&& u.spec_width() == width
                &&& u.spec_height() == height
                &&& u.spec_cells() == cells_from_coins(coins@)
                &&& u.spec_cells().len() == u.spec_width() * u.spec_height()
            },
    {
        if width == 0 || height == 0 {
            return Err(UniverseError::InvalidDimension);
        }
        let mut cells: Vec<Cell> = Vec::with_capacity(coins.len());
        let mut k: usize = 0;
        while k < coins.len()
            invariant
                0 <= k <= coins@.len(),
                cells@ == cells_from_coins(coins@).subrange(0, k as int),
            decreases coins@.len() - k,
        {
            let cell = if coins[k] {
                Cell::Alive
            } else {
                Cell::Dead
            };
            cells.push(cell);
            k = k + 1;
            assert(cells@ =~= cells_from_coins(coins@).subrange(0, k as int));
        }
        assert(cells@ =~= cells_from_coins(coins@));
        Ok(Universe { width, height, cells })
    }

    /// Advances the grid by one generation: every cell's next state is
    /// computed from the current generation, then all cells are replaced
    /// at once.
    pub fn tick(&mut self)
        ensures
            final(self).spec_width() == old(self).spec_width(),
            final(self).spec_height() == old(self).spec_height(),
            final(self).spec_cells() == next_generation(
                old(self).spec_cells(),
                old(self).spec_width() as int,
                old(self).spec_height() as int,
            ),
            final(self).spec_cells().len() == final(self).spec_width() * final(self).spec_height(),
    {
        proof {
            use_type_invariant(&*self);
        }
        let ghost cells = self.cells@;
        let ghost w = self.width as int;
        let ghost h = self.height as int;
        let len = self.cells.len();
        let mut next_cells: Vec<Cell> = Vec::with_capacity(len);
        let mut idx: usize = 0;
        while idx < len
            invariant
                0 <= idx <= len,
                len == cells.len(),
                cells == self.cells@,
                w == self.width,
                h == self.height,
                w > 0,
                h > 0,
                len == w * h,
                next_cells@ == next_generation(cells, w, h).subrange(0, idx as int),
            decreases len - idx,
        {
            let x_pos = (idx % (self.width as usize)) as u32;
            let y_pos = (idx / (self.width as usize)) as u32;
            proof {
                let i = idx as int;
                assert(i / w < h) by (nonlinear_arith)
                    requires
                        0 <= i < w * h,
                        w > 0,
                ;
            }
            let cell = self.cells[idx];
            let live_count = self.live_neighbor_count(x_pos, y_pos);
            let next_cell = match (cell, live_count) {
                (Cell::Alive, 2) | (Cell::Alive, 3) => Cell::Alive,
                (Cell::Alive, _) => Cell::Dead,
                (Cell::Dead, 3) => Cell::Alive,
                (Cell::Dead, _) => Cell::Dead,
            };
            next_cells.push(next_cell);
            idx = idx + 1;
            assert(next_cells@ =~= next_generation(cells, w, h).subrange(0, idx as int));
        }
        assert(next_cells@ =~= next_generation(cells, w, h));
        self.cells = next_cells;
    }

    /// The grid as text, one line per row.
    pub fn render(&self) -> (r: String)
        ensures
            r@ == rows_text(self.spec_cells(), self.spec_width() as int, self.spec_height() as int),
    {
        proof {
            use_type_invariant(self);
        }
        let ghost cells = self.cells@;
        let ghost w = self.width as int;
        let mut text = String::new();
        let mut y: u32 = 0;
        while y < self.height
            invariant
                0 <= y <= self.height,
                cells == self.cells@,
                w == self.width,
                0 < self.width,
                0 < self.height,
                cells.len() == w * self.height,
                text@ == rows_text(cells, w, y as int),
            decreases self.height - y,
        {
            let mut x: u32 = 0;
            while x < self.width
                invariant
                    0 <= x <= self.width,
                    0 <= y < self.height,
                    cells == self.cells@,
                    w == self.width,
                    cells.len() == w * self.height,
                    text@ == rows_text(cells, w, y as int) + Seq::new(
                        x as nat,
                        |i: int| glyph(cells[index_of(w, i, y as int)]),
                    ),
                decreases self.width - x,
            {
                let ghost before = text@;
                let idx = self.get_index(x, y);
                match self.cells[idx] {
                    Cell::Alive => {
                        proof {
                            reveal_strlit("\u{25FC}");
                        }
                        text.append("\u{25FC}");
                    },
                    Cell::Dead => {
                        proof {
                            reveal_strlit("\u{25FB}");
                        }
                        text.append("\u{25FB}");
                    },
                }
                x = x + 1;
                assert(text@ =~= rows_text(cells, w, y as int) + Seq::new(
                    x as nat,
                    |i: int| glyph(cells[index_of(w, i, y as int)]),
                ));
            }
            proof {
                reveal_strlit("\n");
            }
            text.append("\n");
            y = y + 1;
            assert(text@ =~= rows_text(cells, w, y as int));
        }
        text
    }

    /// The number of columns.
    pub fn width(&self) -> (r: u32)
        ensures
            r == self.spec_width(),
            r > 0,
    {
        proof {
            use_type_invariant(self);
        }
        self.width
    }

    /// The number of rows.
    pub fn height(&self) -> (r: u32)
        ensures
            r == self.spec_height(),
            r > 0,
    {
        proof {
            use_type_invariant(self);
        }
        self.height
    }

    /// Read access to the cells, row after row; the view lives no longer
    /// than the grid.
    pub fn cells(&self) -> (r: &[Cell])
        ensures
            r@ == self.spec_cells(),
            r@.len() == self.spec_width() * self.spec_height(),
    {
        proof {
            use_type_invariant(self);
        }
        self.cells.as_slice()
    }
}

} // verus!
