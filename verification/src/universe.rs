use vstd::prelude::*;

use vstd::arithmetic::div_mod::{
    lemma_fundamental_div_mod, lemma_fundamental_div_mod_converse, lemma_mod_twice,
    lemma_small_mod,
};

use crate::cell::{life, next_state, seed_cell, Cell};

verus! {

/// Default edge length of a rendered cell square, in linear units.
pub const DEFAULT_SQUARE_SIZE: u32 = 8;

/// Default gap between rendered cell squares, in linear units.
pub const DEFAULT_SPACING: u32 = 1;

/// A fixed-size toroidal grid of cells together with the back buffer used to
/// advance it one generation at a time, and the display parameters consumed
/// by the rendering entry points.
///
/// Cells are stored row-major: the cell at column `x`, row `y` sits at index
/// `y * width + x`. Reads wrap both coordinates modulo the dimensions;
/// writes are bounds-checked against the unwrapped dimensions instead and
/// silently ignore out-of-range coordinates.
pub struct Universe {
    /// Next-generation scratch space; never observed by callers.
    pub(crate) buffered_cells: Vec<Cell>,
    /// The current generation, row-major.
    pub(crate) cells: Vec<Cell>,
    pub(crate) width: u32,
    pub(crate) height: u32,
    pub(crate) square_size_px: u32,
    pub(crate) square_spacing_px: u32,
}

impl Universe {
    /// The grid width, as a mathematical integer.
    pub closed spec fn spec_width(&self) -> int {
        self.width as int
    }

    /// The grid height, as a mathematical integer.
    pub closed spec fn spec_height(&self) -> int {
        self.height as int
    }

    /// The current generation as a sequence, row-major.
    pub closed spec fn grid(&self) -> Seq<Cell> {
        self.cells@
    }

    /// Length of the back buffer (kept equal to the grid's length).
    pub closed spec fn back_len(&self) -> int {
        self.buffered_cells@.len() as int
    }

    /// The rendered square's edge length, in linear units.
    pub closed spec fn spec_square_size(&self) -> int {
        self.square_size_px as int
    }

    /// The rendered inter-square gap, in linear units.
    pub closed spec fn spec_square_spacing(&self) -> int {
        self.square_spacing_px as int
    }

    /// Well-formedness: positive dimensions whose product fits the index
    /// type, and both buffers exactly `width * height` long.
    pub open spec fn wf(&self) -> bool {
        &&& 1 <= self.spec_width()
        &&& 1 <= self.spec_height()
        &&& self.spec_width() * self.spec_height() <= u32::MAX as int
        &&& self.grid().len() == self.spec_width() * self.spec_height()
        &&& self.back_len() == self.grid().len()
    }

    /// Row-major index of the wrapped coordinate pair.
    pub open spec fn spec_idx(&self, x: int, y: int) -> int {
        (y % self.spec_height()) * self.spec_width() + (x % self.spec_width())
    }

    /// The cell read at (`x`, `y`) under toroidal addressing: both
    /// coordinates wrap modulo the dimensions, so every pair is readable.
    pub open spec fn spec_cell_at(&self, x: int, y: int) -> Cell
        recommends
            self.wf(),
            0 <= x,
            0 <= y,
    {
        self.grid()[self.spec_idx(x, y)]
    }

    /// The toroidal 8-neighborhood count of (`x`, `y`), excluding the cell
    /// itself. Offsets of `dimension - 1` stand in for `-1`, congruent
    /// modulo the dimension while staying nonnegative.
    pub open spec fn neighbor_count(&self, x: int, y: int) -> nat
        recommends
            self.wf(),
            0 <= x,
            0 <= y,
    {
        let w = self.spec_width();
        let h = self.spec_height();
        life(self.spec_cell_at(x + w - 1, y + h - 1)) + life(self.spec_cell_at(x + w - 1, y))
            + life(self.spec_cell_at(x + w - 1, y + 1)) + life(self.spec_cell_at(x, y + h - 1))
            + life(self.spec_cell_at(x, y + 1)) + life(self.spec_cell_at(x + 1, y + h - 1))
            + life(self.spec_cell_at(x + 1, y)) + life(self.spec_cell_at(x + 1, y + 1))
    }
}

/// The grid after toggling coordinate (`x`, `y`): flipped in place when the
/// unwrapped coordinates are in bounds, unchanged otherwise.
pub open spec fn toggle_result(s: Seq<Cell>, w: int, h: int, x: int, y: int) -> Seq<Cell> {
    if 0 <= x < w && 0 <= y < h {
        s.update(y * w + x, s[y * w + x].spec_flipped())
    } else {
        s
    }
}

/// Wrapped coordinates land strictly inside the row-major index range.
pub proof fn lemma_idx_bounds(w: int, h: int, x: int, y: int)
    requires
        1 <= w,
        1 <= h,
        0 <= x,
        0 <= y,
    ensures
        0 <= x % w < w,
        0 <= y % h < h,
        0 <= (y % h) * w + (x % w) < w * h,
{
    assert(0 <= x % w < w) by (nonlinear_arith)
        requires
            1 <= w,
            0 <= x,
    ;
    assert(0 <= y % h < h) by (nonlinear_arith)
        requires
            1 <= h,
            0 <= y,
    ;
    assert(0 <= (y % h) * w + (x % w) < w * h) by (nonlinear_arith)
        requires
            0 <= x % w < w,
            0 <= y % h < h,
            1 <= w,
            1 <= h,
    ;
}

/// A row-major index decomposes back into its coordinates.
pub proof fn lemma_row_major(w: int, x: int, y: int)
    requires
        1 <= w,
        0 <= x < w,
        0 <= y,
    ensures
        (y * w + x) / w == y,
        (y * w + x) % w == x,
{
    lemma_fundamental_div_mod_converse(y * w + x, w, y, x);
}

/// Any index below `w * h` has in-range coordinates `i % w` and `i / w`.
pub proof fn lemma_idx_decompose(w: int, h: int, i: int)
    requires
        1 <= w,
        1 <= h,
        0 <= i < w * h,
    ensures
        0 <= i % w < w,
        0 <= i / w < h,
        i == (i / w) * w + (i % w),
{
    lemma_fundamental_div_mod(i, w);
    assert(0 <= i % w < w && 0 <= i / w < h) by (nonlinear_arith)
        requires
            1 <= w,
            1 <= h,
            0 <= i < w * h,
            i == w * (i / w) + (i % w),
    ;
}

/// Toroidal read invariant: a read at any nonnegative coordinates equals the
/// read at those coordinates reduced modulo the dimensions.
pub proof fn lemma_toroidal_read(u: &Universe, x: int, y: int)
    requires
        u.wf(),
        0 <= x,
        0 <= y,
    ensures
        u.spec_cell_at(x, y) == u.spec_cell_at(x % u.spec_width(), y % u.spec_height()),
{
    lemma_mod_twice(x, u.spec_width());
    lemma_mod_twice(y, u.spec_height());
}

/// Toggling the same coordinate twice restores the grid (involution).
pub proof fn lemma_toggle_involution(s: Seq<Cell>, w: int, h: int, x: int, y: int)
    requires
        1 <= w,
        1 <= h,
        s.len() == w * h,
    ensures
        toggle_result(toggle_result(s, w, h, x, y), w, h, x, y) == s,
{
    if 0 <= x < w && 0 <= y < h {
        lemma_idx_bounds(w, h, x, y);
        lemma_small_mod(x as nat, w as nat);
        lemma_small_mod(y as nat, h as nat);
        assert(toggle_result(toggle_result(s, w, h, x, y), w, h, x, y) =~= s);
    }
}

/// Neighbor counts depend only on the grid contents and the dimensions.
proof fn lemma_neighbor_count_same(a: &Universe, b: &Universe, x: int, y: int)
    requires
        a.grid() == b.grid(),
        a.spec_width() == b.spec_width(),
        a.spec_height() == b.spec_height(),
    ensures
        a.neighbor_count(x, y) == b.neighbor_count(x, y),
{
}

/// Copies a cell buffer element by element.
fn copy_cells(v: &Vec<Cell>) -> (r: Vec<Cell>)
    ensures
        r@ == v@,
{
    let mut r: Vec<Cell> = Vec::new();
    let mut i: usize = 0;
    while i < v.len()
        invariant
            i <= v.len(),
            r@ == v@.subrange(0, i as int),
        decreases v.len() - i,
    {
        r.push(v[i]);
        proof {
            assert(v@.subrange(0, i as int).push(v@[i as int]) =~= v@.subrange(0, i + 1 as int));
        }
        i = i + 1;
    }
    proof {
        assert(v@.subrange(0, v@.len() as int) =~= v@);
    }
    r
}

impl Universe {
    /// Builds the deterministic seed grid: cell `i` is alive exactly when
    /// `i` is even or a multiple of seven; both buffers start identical.
    pub fn new(width: u32, height: u32) -> (u: Universe)
        requires
            1 <= width,
            1 <= height,
            width as int * height as int <= u32::MAX as int,
        ensures
            u.wf(),
            u.spec_width() == width as int,
            u.spec_height() == height as int,
            u.spec_square_size() == DEFAULT_SQUARE_SIZE as int,
            u.spec_square_spacing() == DEFAULT_SPACING as int,
            forall|i: int| 0 <= i < u.grid().len() ==> (#[trigger] u.grid()[i]) == seed_cell(i),
    {
        let n: u32 = width * height;
        let mut cells: Vec<Cell> = Vec::new();
        let mut i: u32 = 0;
        while i < n
            invariant
                i <= n,
                cells@.len() == i as int,
                forall|j: int| 0 <= j < i as int ==> cells@[j] == seed_cell(j),
            decreases n - i,
        {
            let c: Cell = if i % 2 == 0 || i % 7 == 0 {
                Cell::Alive
            } else {
                Cell::Dead
            };
            cells.push(c);
            i = i + 1;
        }
        let background_cells: Vec<Cell> = copy_cells(&cells);
        Universe {
            buffered_cells: background_cells,
            cells,
            width,
            height,
            square_size_px: DEFAULT_SQUARE_SIZE,
            square_spacing_px: DEFAULT_SPACING,
        }
    }

    /// The grid width.
    pub fn width(&self) -> (w: u32)
        ensures
            w as int == self.spec_width(),
    {
        self.width
    }

    /// The grid height.
    pub fn height(&self) -> (h: u32)
        ensures
            h as int == self.spec_height(),
    {
        self.height
    }

    /// The rendered square's edge length, in linear units.
    pub fn get_square_size(&self) -> (s: u32)
        ensures
            s as int == self.spec_square_size(),
    {
        self.square_size_px
    }

    /// The rendered inter-square gap, in linear units.
    pub fn get_square_spacing(&self) -> (s: u32)
        ensures
            s as int == self.spec_square_spacing(),
    {
        self.square_spacing_px
    }

    /// Sets the rendered square's edge length.
    pub fn set_square_size(&mut self, size: u32)
        ensures
            final(self).spec_square_size() == size as int,
            final(self).spec_square_spacing() == old(self).spec_square_spacing(),
            final(self).spec_width() == old(self).spec_width(),
            final(self).spec_height() == old(self).spec_height(),
            final(self).grid() == old(self).grid(),
            final(self).back_len() == old(self).back_len(),
    {
        self.square_size_px = size;
    }

    /// Row-major index of the wrapped coordinates, always in range.
    fn get_cell_idx(&self, x: u32, y: u32) -> (idx: usize)
        requires
            self.wf(),
        ensures
            idx as int == self.spec_idx(x as int, y as int),
            idx < self.grid().len(),
    {
        let xm: u32 = x % self.width;
        let ym: u32 = y % self.height;
        proof {
            lemma_idx_bounds(self.spec_width(), self.spec_height(), x as int, y as int);
        }
        (ym * self.width + xm) as usize
    }

    /// The wrapped read: succeeds for every coordinate pair.
    pub fn get_cell_at(&self, x: u32, y: u32) -> (c: Cell)
        requires
            self.wf(),
        ensures
            c == self.spec_cell_at(x as int, y as int),
    {
        let idx: usize = self.get_cell_idx(x, y);
        self.cells[idx]
    }

    /// The bounds-checked write: stores `cell_type` at (`x`, `y`) when both
    /// coordinates are below the unwrapped dimensions, and silently leaves
    /// the grid unchanged otherwise.
    pub fn set_cell_at(&mut self, x: u32, y: u32, cell_type: Cell)
        requires
            old(self).wf(),
        ensures
            final(self).wf(),
            final(self).spec_width() == old(self).spec_width(),
            final(self).spec_height() == old(self).spec_height(),
            final(self).spec_square_size() == old(self).spec_square_size(),
            final(self).spec_square_spacing() == old(self).spec_square_spacing(),
            (x as int) < old(self).spec_width() && (y as int) < old(self).spec_height()
                ==> final(self).grid() == old(self).grid().update(
                (y as int) * old(self).spec_width() + (x as int),
                cell_type,
            ),
            !((x as int) < old(self).spec_width() && (y as int) < old(self).spec_height())
                ==> final(self).grid() == old(self).grid(),
    {
        if x < self.width && y < self.height {
            let idx: usize = self.get_cell_idx(x, y);
            proof {
                lemma_small_mod(x as nat, self.width as nat);
                lemma_small_mod(y as nat, self.height as nat);
            }
            self.cells[idx] = cell_type;
        }
    }

    /// Reads the (wrapped) cell and writes its opposite through the
    /// bounds-checked setter, so out-of-range coordinates change nothing.
    pub fn toggle_cell_at(&mut self, x: u32, y: u32)
        requires
            old(self).wf(),
        ensures
            final(self).wf(),
            final(self).spec_width() == old(self).spec_width(),
            final(self).spec_height() == old(self).spec_height(),
            final(self).spec_square_size() == old(self).spec_square_size(),
            final(self).spec_square_spacing() == old(self).spec_square_spacing(),
            final(self).grid() == toggle_result(
                old(self).grid(),
                old(self).spec_width(),
                old(self).spec_height(),
                x as int,
                y as int,
            ),
    {
        proof {
            if x < self.width && y < self.height {
                lemma_small_mod(x as nat, self.width as nat);
                lemma_small_mod(y as nat, self.height as nat);
                lemma_idx_bounds(self.spec_width(), self.spec_height(), x as int, y as int);
            }
        }
        let new_value: Cell = self.get_cell_at(x, y).flipped();
        self.set_cell_at(x, y, new_value);
    }

    /// Sets every in-bounds cell to dead, through the normal setter.
    pub fn clear(&mut self)
        requires
            old(self).wf(),
        ensures
            final(self).wf(),
            final(self).spec_width() == old(self).spec_width(),
            final(self).spec_height() == old(self).spec_height(),
            final(self).spec_square_size() == old(self).spec_square_size(),
            final(self).spec_square_spacing() == old(self).spec_square_spacing(),
            final(self).grid().len() == old(self).grid().len(),
            forall|i: int|
                0 <= i < final(self).grid().len() ==> (#[trigger] final(self).grid()[i])
                    == Cell::Dead,
    {
        let w: u32 = self.width;
        let h: u32 = self.height;
        let mut y: u32 = 0;
        while y < h
            invariant
                old(self).wf(),
                self.wf(),
                y <= h,
                w as int == self.spec_width(),
                h as int == self.spec_height(),
                self.spec_width() == old(self).spec_width(),
                self.spec_height() == old(self).spec_height(),
                self.spec_square_size() == old(self).spec_square_size(),
                self.spec_square_spacing() == old(self).spec_square_spacing(),
                self.grid().len() == old(self).grid().len(),
                forall|i: int|
                    0 <= i < (y as int) * (w as int) ==> self.grid()[i] == Cell::Dead,
            decreases h - y,
        {
            let mut x: u32 = 0;
            while x < w
                invariant
                    old(self).wf(),
                    self.wf(),
                    y < h,
                    x <= w,
                    w as int == self.spec_width(),
                    h as int == self.spec_height(),
                    self.spec_width() == old(self).spec_width(),
                    self.spec_height() == old(self).spec_height(),
                    self.spec_square_size() == old(self).spec_square_size(),
                    self.spec_square_spacing() == old(self).spec_square_spacing(),
                    self.grid().len() == old(self).grid().len(),
                    forall|i: int|
                        0 <= i < (y as int) * (w as int) + (x as int) ==> self.grid()[i]
                            == Cell::Dead,
                decreases w - x,
            {
                proof {
                    lemma_idx_bounds(w as int, h as int, x as int, y as int);
                    lemma_small_mod(x as nat, w as nat);
                    lemma_small_mod(y as nat, h as nat);
                }
                self.set_cell_at(x, y, Cell::Dead);
                x = x + 1;
            }
            proof {
                assert((y as int + 1) * (w as int) == (y as int) * (w as int) + (w as int))
                    by (nonlinear_arith);
            }
            y = y + 1;
        }
        proof {
            assert((h as int) * (w as int) == (w as int) * (h as int)) by (nonlinear_arith);
        }
    }

    /// Advances the grid one generation: every cell's successor is computed
    /// from the previous generation into the back buffer, and the buffers
    /// are then exchanged by move, never copied.
    pub fn tick(&mut self)
        requires
            old(self).wf(),
        ensures
            final(self).wf(),
            final(self).spec_width() == old(self).spec_width(),
            final(self).spec_height() == old(self).spec_height(),
            final(self).spec_square_size() == old(self).spec_square_size(),
            final(self).spec_square_spacing() == old(self).spec_square_spacing(),
            final(self).grid().len() == old(self).grid().len(),
            forall|i: int|
                0 <= i < final(self).grid().len() ==> (#[trigger] final(self).grid()[i])
                    == next_state(
                    old(self).grid()[i],
                    old(self).neighbor_count(
                        i % old(self).spec_width(),
                        i / old(self).spec_width(),
                    ),
                ),
    {
        let w: u32 = self.width;
        let h: u32 = self.height;
        let mut y: u32 = 0;
        while y < h
            invariant
                old(self).wf(),
                self.wf(),
                y <= h,
                w as int == self.spec_width(),
                h as int == self.spec_height(),
                *self == (Universe { buffered_cells: self.buffered_cells, ..*old(self) }),
                forall|i: int|
                    0 <= i < (y as int) * (w as int) ==> self.buffered_cells@[i] == next_state(
                        old(self).grid()[i],
                        old(self).neighbor_count(i % (w as int), i / (w as int)),
                    ),
            decreases h - y,
        {
            let mut x: u32 = 0;
            while x < w
                invariant
                    old(self).wf(),
                    self.wf(),
                    y < h,
                    x <= w,
                    w as int == self.spec_width(),
                    h as int == self.spec_height(),
                    *self == (Universe { buffered_cells: self.buffered_cells, ..*old(self) }),
                    forall|i: int|
                        0 <= i < (y as int) * (w as int) + (x as int) ==> self.buffered_cells@[i]
                            == next_state(
                            old(self).grid()[i],
                            old(self).neighbor_count(i % (w as int), i / (w as int)),
                        ),
                decreases w - x,
            {
                proof {
                    lemma_idx_bounds(w as int, h as int, x as int, y as int);
                    lemma_small_mod(x as nat, w as nat);
                    lemma_small_mod(y as nat, h as nat);
                    lemma_row_major(w as int, x as int, y as int);
                }
                let idx: usize = self.get_cell_idx(x, y);
                let cnt: u32 = self.get_live_neighbor_count(x, y);
                let cur: Cell = self.cells[idx];
                let next_c: Cell = if cnt < 2 {
                    Cell::Dead
                } else if (matches!(cur, Cell::Alive) && cnt == 2) || cnt == 3 {
                    Cell::Alive
                } else if cnt > 3 {
                    Cell::Dead
                } else {
                    cur
                };
                proof {
                    lemma_neighbor_count_same(self, old(self), x as int, y as int);
                    assert(next_c == next_state(
                        old(self).grid()[idx as int],
                        old(self).neighbor_count(x as int, y as int),
                    ));
                }
                self.buffered_cells[idx] = next_c;
                x = x + 1;
            }
            proof {
                assert((y as int + 1) * (w as int) == (y as int) * (w as int) + (w as int))
                    by (nonlinear_arith);
            }
            y = y + 1;
        }
        proof {
            assert((h as int) * (w as int) == (w as int) * (h as int)) by (nonlinear_arith);
        }
        std::mem::swap(&mut self.buffered_cells, &mut self.cells);
    }

    /// The toroidal 8-neighborhood count, using `dimension - 1` in place of
    /// `-1` so the unsigned arithmetic never wraps.
    fn get_live_neighbor_count(&self, x: u32, y: u32) -> (count: u32)
        requires
            self.wf(),
        ensures
            count as nat == self.neighbor_count(x as int, y as int),
            count <= 8,
    {
        let w: u64 = self.width as u64;
        let h: u64 = self.height as u64;
        let xl: u32 = ((x as u64 + w - 1) % w) as u32;
        let x0: u32 = (x as u64 % w) as u32;
        let xr: u32 = ((x as u64 + 1) % w) as u32;
        let yu: u32 = ((y as u64 + h - 1) % h) as u32;
        let y0: u32 = (y as u64 % h) as u32;
        let yd: u32 = ((y as u64 + 1) % h) as u32;
        proof {
            lemma_mod_twice(x as int + w as int - 1, w as int);
            lemma_mod_twice(x as int, w as int);
            lemma_mod_twice(x as int + 1, w as int);
            lemma_mod_twice(y as int + h as int - 1, h as int);
            lemma_mod_twice(y as int, h as int);
            lemma_mod_twice(y as int + 1, h as int);
            lemma_idx_bounds(w as int, h as int, x as int, y as int);
        }
        let mut count: u32 = 0;
        count = count + crate::cell::life_count(self.get_cell_at(xl, yu));
        count = count + crate::cell::life_count(self.get_cell_at(xl, y0));
        count = count + crate::cell::life_count(self.get_cell_at(xl, yd));
        count = count + crate::cell::life_count(self.get_cell_at(x0, yu));
        count = count + crate::cell::life_count(self.get_cell_at(x0, yd));
        count = count + crate::cell::life_count(self.get_cell_at(xr, yu));
        count = count + crate::cell::life_count(self.get_cell_at(xr, y0));
        count = count + crate::cell::life_count(self.get_cell_at(xr, yd));
        count
    }

    /// Replaces both buffers with a grid of the new dimensions, each new
    /// index sampled from the current grid through the old toroidal
    /// addressing; growing therefore tiles the old content rather than
    /// padding with dead cells.
    pub fn resize_to(&mut self, width: u32, height: u32)
        requires
            old(self).wf(),
            1 <= width,
            1 <= height,
            width as int * height as int <= u32::MAX as int,
        ensures
            final(self).wf(),
            final(self).spec_width() == width as int,
            final(self).spec_height() == height as int,
            final(self).spec_square_size() == old(self).spec_square_size(),
            final(self).spec_square_spacing() == old(self).spec_square_spacing(),
            forall|i: int|
                0 <= i < width as int * height as int ==> (#[trigger] final(self).grid()[i])
                    == old(self).spec_cell_at(i % (width as int), i / (width as int)),
    {
        let n: u32 = width * height;
        let mut cells: Vec<Cell> = Vec::new();
        let mut i: u32 = 0;
        while i < n
            invariant
                *self == *old(self),
                self.wf(),
                i <= n,
                n as int == width as int * height as int,
                1 <= width,
                cells@.len() == i as int,
                forall|j: int|
                    0 <= j < i as int ==> cells@[j] == old(self).spec_cell_at(
                        j % (width as int),
                        j / (width as int),
                    ),
            decreases n - i,
        {
            let x: u32 = i % width;
            let y: u32 = i / width;
            let c: Cell = self.get_cell_at(x, y);
            cells.push(c);
            i = i + 1;
        }
        let background_cells: Vec<Cell> = copy_cells(&cells);
        self.width = width;
        self.height = height;
        self.cells = cells;
        self.buffered_cells = background_cells;
    }
}

/// Resizing and then advancing one generation is total: any dimensions of at
/// least one whose product fits the index type meet both preconditions, so
/// the sequence is verified free of panics, down to a one-by-one grid.
pub fn resize_then_tick(u: &mut Universe, width: u32, height: u32)
    requires
        old(u).wf(),
        1 <= width,
        1 <= height,
        width as int * height as int <= u32::MAX as int,
    ensures
        final(u).wf(),
        final(u).spec_width() == width as int,
        final(u).spec_height() == height as int,
{
    u.resize_to(width, height);
    u.tick();
}

} // verus!
