use vstd::prelude::*;
use vstd::arithmetic::div_mod::{lemma_fundamental_div_mod, lemma_fundamental_div_mod_converse};
use crate::cell::{next_state, Cell};
use crate::grid::{
    alive_hues, col_offset, covered, lemma_alive_hues_len, lemma_covered_extend,
    lemma_index_bounds, lemma_index_split, lemma_wrap_step, row_offset, shifted, GridView,
};

verus! {

/// A toroidal grid of cells with a second buffer that receives each new
/// generation, so that no cell of a generation sees another cell's next state.
pub struct Universe {
    width: u32,
    height: u32,
    cells: Vec<Cell>,
    next_cells: Vec<Cell>,
}

impl View for Universe {
    type V = GridView;

    closed spec fn view(&self) -> GridView {
        GridView { width: self.width as nat, height: self.height as nat, cells: self.cells@ }
    }
}

/// A requested dimension, raised to at least one.
pub open spec fn at_least_one(n: u32) -> nat {
    if n == 0 {
        1
    } else {
        n as nat
    }
}

/// `x` reduced modulo `n` onto `0..n`, also for negative `x`.
fn wrap_coord(x: i64, n: u32) -> (r: u32)
    requires
        n >= 1,
        -0x1_0000_0000 <= x <= 0x1_0000_0000,
    ensures
        r == (x as int) % (n as int),
{
    if x >= 0 {
        (x as u64 % n as u64) as u32
    } else {
        let y: u64 = (-x) as u64;
        let m: u64 = y % n as u64;
        proof {
            lemma_fundamental_div_mod(y as int, n as int);
            let q = y as int / n as int;
            assert((-q) * n == -(n * q) && (-q - 1) * n == -(n * q) - n) by (nonlinear_arith);
            if m == 0 {
                lemma_fundamental_div_mod_converse(x as int, n as int, -q, 0);
            } else {
                lemma_fundamental_div_mod_converse(x as int, n as int, -q - 1, n - m);
            }
        }
        if m == 0 {
            0
        } else {
            (n as u64 - m) as u32
        }
    }
}

impl Universe {
    /// Both buffers hold one cell per position of a grid of positive size.
    pub closed spec fn wf(&self) -> bool {
        &&& self@.valid()
        &&& self.width as nat * self.height as nat <= usize::MAX
        &&& self.next_cells@.len() == self.cells@.len()
    }

    /// A universe of `width` × `height` dead cells; a zero dimension is taken
    /// as one, so the smallest grid is a single cell that neighbours itself.
    pub fn new(width: u32, height: u32) -> (r: Universe)
        requires
            at_least_one(width) * at_least_one(height) <= usize::MAX,
        ensures
            r.wf(),
            r@.valid(),
            r@.width == at_least_one(width),
            r@.height == at_least_one(height),
            forall|i: int| 0 <= i < r@.cells.len() ==> r@.cells[i] == Cell::Dead,
    {
        let w: u32 = if width == 0 { 1 } else { width };
        let h: u32 = if height == 0 { 1 } else { height };
        let size: usize = w as usize * h as usize;
        let mut cells: Vec<Cell> = Vec::new();
        let mut next_cells: Vec<Cell> = Vec::new();
        let mut i: usize = 0;
        while i < size
            invariant
                i <= size,
                cells@.len() == i,
                next_cells@.len() == i,
                forall|j: int| 0 <= j < i ==> cells@[j] == Cell::Dead,
            decreases size - i,
        {
            cells.push(Cell::Dead);
            next_cells.push(Cell::Dead);
            i = i + 1;
        }
        Universe { width: w, height: h, cells, next_cells }
    }

    /// Fills the grid from per-cell draws of a random source: cell `i` becomes
    /// `Alive` with hue `hues[i]` where `alive[i]` holds, else `Dead`.
    pub fn randomize(&mut self, alive: &Vec<bool>, hues: &Vec<u8>)
        requires
            old(self).wf(),
            alive@.len() == old(self)@.cells.len(),
            hues@.len() == old(self)@.cells.len(),
        ensures
            final(self).wf(),
            final(self)@.width == old(self)@.width,
            final(self)@.height == old(self)@.height,
            final(self)@.cells.len() == old(self)@.cells.len(),
            forall|i: int|
                0 <= i < final(self)@.cells.len() ==> final(self)@.cells[i] == if alive@[i] {
                    Cell::Alive { hue: hues@[i] }
                } else {
                    Cell::Dead
                },
    {
        let n = self.cells.len();
        let mut i: usize = 0;
        while i < n
            invariant
                self.wf(),
                self.width == old(self).width,
                self.height == old(self).height,
                self.cells@.len() == n,
                n == alive@.len(),
                n == hues@.len(),
                i <= n,
                forall|j: int|
                    0 <= j < i ==> self.cells@[j] == if alive@[j] {
                        Cell::Alive { hue: hues@[j] }
                    } else {
                        Cell::Dead
                    },
            decreases n - i,
        {
            let c = if alive[i] {
                Cell::Alive { hue: hues[i] }
            } else {
                Cell::Dead
            };
            self.cells.set(i, c);
            i = i + 1;
        }
    }

    pub fn width(&self) -> (r: u32)
        ensures
            r == self@.width,
    {
        self.width
    }

    pub fn height(&self) -> (r: u32)
        ensures
            r == self@.height,
    {
        self.height
    }

    /// Row-major position of `(row, col)`.
    pub fn index(&self, row: u32, col: u32) -> (r: usize)
        requires
            self.wf(),
            row < self@.height,
            col < self@.width,
        ensures
            r == self@.index(row as int, col as int),
            r < self@.cells.len(),
    {
        proof {
            lemma_index_bounds(row as int, col as int, self.width as int, self.height as int);
        }
        row as usize * self.width as usize + col as usize
    }

    /// The current state of the cell at `(row, col)`.
    pub fn read_cell(&self, row: u32, col: u32) -> (r: Cell)
        requires
            self.wf(),
            row < self@.height,
            col < self@.width,
        ensures
            r == self@.cell(row as int, col as int),
    {
        let idx = self.index(row, col);
        self.cells[idx]
    }

    /// Surveys the eight wrapped neighbours of `(row, col)` in the order NW, N,
    /// NE, W, E, SW, S, SE. Returns how many are alive and leaves their hues, in
    /// that order, in `hues` (whatever it held before is discarded).
    pub fn count_neighbors_and_get_hues(&self, row: u32, col: u32, hues: &mut Vec<u8>) -> (r: u8)
        requires
            self.wf(),
            row < self@.height,
            col < self@.width,
        ensures
            final(hues)@ == self@.neighbor_hues(row as int, col as int),
            r as nat == self@.alive_neighbors(row as int, col as int),
            r <= 8,
    {
        let h = self.height;
        let w = self.width;
        let north = if row == 0 { h - 1 } else { row - 1 };
        let south = if row == h - 1 { 0 } else { row + 1 };
        let west = if col == 0 { w - 1 } else { col - 1 };
        let east = if col == w - 1 { 0 } else { col + 1 };
        proof {
            lemma_wrap_step(row - 1, h as int);
            lemma_wrap_step(row as int, h as int);
            lemma_wrap_step(row + 1, h as int);
            lemma_wrap_step(col - 1, w as int);
            lemma_wrap_step(col as int, w as int);
            lemma_wrap_step(col + 1, w as int);
        }
        let rows: [u32; 8] = [north, north, north, row, row, south, south, south];
        let cols: [u32; 8] = [west, col, east, west, east, west, col, east];
        let ghost g = self@;
        let ghost around = g.neighbors(row as int, col as int);
        assert forall|k: int| 0 <= k < 8 implies rows@[k] == g.neighbor_row(row as int, k)
            && cols@[k] == g.neighbor_col(col as int, k) by {
            assert(row_offset(k) == seq![-1int, -1, -1, 0, 0, 1, 1, 1][k]);
            assert(col_offset(k) == seq![-1int, 0, 1, -1, 1, -1, 0, 1][k]);
        }
        hues.clear();
        let mut k: usize = 0;
        while k < 8
            invariant
                self.wf(),
                g == self@,
                around == g.neighbors(row as int, col as int),
                k <= 8,
                forall|j: int|
                    0 <= j < 8 ==> rows@[j] == g.neighbor_row(row as int, j) && cols@[j]
                        == g.neighbor_col(col as int, j),
                forall|j: int| 0 <= j < 8 ==> rows@[j] < h && cols@[j] < w,
                h == g.height,
                w == g.width,
                hues@ == alive_hues(around.take(k as int)),
            decreases 8 - k,
        {
            let idx = self.index(rows[k], cols[k]);
            let ghost before = around.take(k as int);
            assert(around.take(k + 1).drop_last() =~= before);
            if let Cell::Alive { hue } = self.cells[idx] {
                hues.push(hue);
            }
            k = k + 1;
        }
        proof {
            assert(around.take(8) =~= around);
            lemma_alive_hues_len(around);
        }
        hues.len() as u8
    }

    /// For each cell in row-major order, the hues that the caller must blend
    /// before the next `tick`: the live neighbours' hues, in survey order, of a
    /// dead cell with exactly three live neighbours; nothing for every other cell.
    pub fn mix_inputs(&self) -> (r: Vec<Vec<u8>>)
        requires
            self.wf(),
        ensures
            r@.len() == self@.cells.len(),
            forall|i: int| 0 <= i < r@.len() ==> (#[trigger] r@[i])@ == self@.mix_inputs()[i],
    {
        let h = self.height;
        let w = self.width;
        let ghost g = self@;
        let mut out: Vec<Vec<u8>> = Vec::new();
        let mut row: u32 = 0;
        while row < h
            invariant
                self.wf(),
                self@ == g,
                h == g.height,
                w == g.width,
                row <= h,
                out@.len() == row * w,
                forall|j: int| 0 <= j < out@.len() ==> (#[trigger] out@[j])@ == g.mix_inputs()[j],
            decreases h - row,
        {
            let mut col: u32 = 0;
            while col < w
                invariant
                    self.wf(),
                    self@ == g,
                    h == g.height,
                    w == g.width,
                    row < h,
                    col <= w,
                    out@.len() == row * w + col,
                    forall|j: int|
                        0 <= j < out@.len() ==> (#[trigger] out@[j])@ == g.mix_inputs()[j],
                decreases w - col,
            {
                let idx = self.index(row, col);
                let mut hues: Vec<u8> = Vec::new();
                let count = self.count_neighbors_and_get_hues(row, col, &mut hues);
                proof {
                    lemma_index_bounds(row as int, col as int, w as int, h as int);
                }
                if self.cells[idx] == Cell::Dead && count == 3 {
                    out.push(hues);
                } else {
                    out.push(Vec::new());
                }
                proof {
                    assert(out@[idx as int]@ == g.mix_inputs()[idx as int]);
                }
                col = col + 1;
            }
            proof {
                assert((row + 1) * w == row * w + w) by (nonlinear_arith);
            }
            row = row + 1;
        }
        proof {
            assert(h * w == w * h) by (nonlinear_arith);
        }
        out
    }

    /// Paints the square of half-width `half` centred on `(center_row,
    /// center_col)` alive with `hue`, coordinates wrapped around the torus as
    /// neighbour lookups are. The write bypasses the rule and lands in the
    /// current generation; a negative `half` paints nothing.
    pub fn set_alive_block(&mut self, center_row: i32, center_col: i32, half: i32, hue: u8)
        requires
            old(self).wf(),
        ensures
            final(self).wf(),
            final(self)@ == old(self)@.inject(
                center_row as int,
                center_col as int,
                half as int,
                hue,
            ),
    {
        let h = self.height;
        let w = self.width;
        let ghost g = self@;
        let ghost cr = center_row as int;
        let ghost cc = center_col as int;
        let ghost hf = half as int;
        let half_wide: i64 = half as i64;
        let mut dr: i64 = -half_wide;
        while dr <= half_wide
            invariant
                self.wf(),
                self@.width == g.width,
                self@.height == g.height,
                self@.cells.len() == g.cells.len(),
                h == g.height,
                w == g.width,
                g.valid(),
                half_wide == hf,
                hf == half,
                cr == center_row,
                cc == center_col,
                -hf <= dr,
                dr <= hf + 1 || dr == -hf,
                forall|i: int|
                    0 <= i < g.cells.len() ==> #[trigger] self@.cells[i] == if covered(
                        cr,
                        -hf,
                        dr as int,
                        h as int,
                        i / (w as int),
                    ) && covered(cc, -hf, hf + 1, w as int, i % (w as int)) {
                        Cell::Alive { hue }
                    } else {
                        g.cells[i]
                    },
            decreases hf + 1 - dr,
        {
            let r = wrap_coord(center_row as i64 + dr, h);
            let mut dc: i64 = -half_wide;
            while dc <= half_wide
                invariant
                    self.wf(),
                    self@.width == g.width,
                    self@.height == g.height,
                    self@.cells.len() == g.cells.len(),
                    h == g.height,
                    w == g.width,
                    g.valid(),
                    half_wide == hf,
                    hf == half,
                    cr == center_row,
                    cc == center_col,
                hf == half,
                cr == center_row,
                cc == center_col,
                    -hf <= dr <= hf,
                    -hf <= dc <= hf + 1,
                    r < h,
                    r == shifted(cr, dr as int, h as int),
                    forall|i: int|
                        0 <= i < g.cells.len() ==> #[trigger] self@.cells[i] == if (covered(
                            cr,
                            -hf,
                            dr as int,
                            h as int,
                            i / (w as int),
                        ) && covered(cc, -hf, hf + 1, w as int, i % (w as int))) || (i / (w as int)
                            == r && covered(cc, -hf, dc as int, w as int, i % (w as int))) {
                            Cell::Alive { hue }
                        } else {
                            g.cells[i]
                        },
                decreases hf + 1 - dc,
            {
                let c = wrap_coord(center_col as i64 + dc, w);
                let idx = self.index(r, c);
                let ghost before = self@.cells;
                self.cells.set(idx, Cell::Alive { hue });
                proof {
                    lemma_index_bounds(r as int, c as int, w as int, h as int);
                    assert forall|i: int| 0 <= i < g.cells.len() implies #[trigger] self@.cells[i]
                        == if (covered(cr, -hf, dr as int, h as int, i / (w as int)) && covered(
                        cc,
                        -hf,
                        hf + 1,
                        w as int,
                        i % (w as int),
                    )) || (i / (w as int) == r && covered(
                        cc,
                        -hf,
                        dc + 1,
                        w as int,
                        i % (w as int),
                    )) {
                        Cell::Alive { hue }
                    } else {
                        g.cells[i]
                    } by {
                        lemma_covered_extend(cc, -hf, dc as int, w as int, i % (w as int));
                        lemma_index_split(i, w as int, h as int);
                        if i != idx {
                            assert(before[i] == self@.cells[i]);
                        }
                    }
                }
                dc = dc + 1;
            }
            proof {
                assert forall|i: int| 0 <= i < g.cells.len() implies #[trigger] self@.cells[i]
                    == if covered(cr, -hf, dr + 1, h as int, i / (w as int)) && covered(
                    cc,
                    -hf,
                    hf + 1,
                    w as int,
                    i % (w as int),
                ) {
                    Cell::Alive { hue }
                } else {
                    g.cells[i]
                } by {
                    lemma_covered_extend(cr, -hf, dr as int, h as int, i / (w as int));
                }
            }
            dr = dr + 1;
        }
        proof {
            assert(self@.cells =~= g.inject(cr, cc, hf, hue).cells);
        }
    }

    /// Advances the universe by one generation. Every cell's next state is
    /// computed from the current generation alone into the scratch buffer, and
    /// the two buffers then exchange roles. `mixed[i]` is the hue that cell `i`
    /// takes if it is born: the blend of the hues listed for it by `mix_inputs`.
    pub fn tick(&mut self, mixed: &Vec<u8>)
        requires
            old(self).wf(),
            mixed@.len() == old(self)@.cells.len(),
        ensures
            final(self).wf(),
            final(self)@ == old(self)@.next(mixed@),
    {
        let h = self.height;
        let w = self.width;
        let ghost g = self@;
        let ghost target = g.next(mixed@);
        let mut hues: Vec<u8> = Vec::with_capacity(8);
        let mut row: u32 = 0;
        while row < h
            invariant
                self.wf(),
                self@ == g,
                h == g.height,
                w == g.width,
                mixed@.len() == g.cells.len(),
                target == g.next(mixed@),
                row <= h,
                forall|j: int| 0 <= j < row * w ==> self.next_cells@[j] == target.cells[j],
            decreases h - row,
        {
            let mut col: u32 = 0;
            while col < w
                invariant
                    self.wf(),
                    self@ == g,
                    h == g.height,
                    w == g.width,
                    mixed@.len() == g.cells.len(),
                    target == g.next(mixed@),
                    row < h,
                    col <= w,
                    forall|j: int|
                        0 <= j < row * w + col ==> self.next_cells@[j] == target.cells[j],
                decreases w - col,
            {
                let idx = self.index(row, col);
                let cell = self.cells[idx];
                let count = self.count_neighbors_and_get_hues(row, col, &mut hues);
                proof {
                    lemma_index_bounds(row as int, col as int, w as int, h as int);
                }
                self.next_cells.set(idx, next_state(cell, count, mixed[idx]));
                col = col + 1;
            }
            proof {
                assert((row + 1) * w == row * w + w) by (nonlinear_arith);
            }
            row = row + 1;
        }
        proof {
            assert(self.next_cells@ =~= target.cells);
        }
        std::mem::swap(&mut self.cells, &mut self.next_cells);
    }
}

} // verus!
