use vstd::prelude::*;
use vstd::arithmetic::div_mod::{lemma_fundamental_div_mod, lemma_fundamental_div_mod_converse};
use crate::cell::{next_cell, Cell};

verus! {

/// The mathematical picture of a universe: its dimensions and its cells in
/// row-major order (`index = row * width + col`).
pub struct GridView {
    pub width: nat,
    pub height: nat,
    pub cells: Seq<Cell>,
}

/// Row offset of the `k`-th neighbour, in the order NW, N, NE, W, E, SW, S, SE.
pub open spec fn row_offset(k: int) -> int {
    seq![-1int, -1, -1, 0, 0, 1, 1, 1][k]
}

/// Column offset of the `k`-th neighbour, in the order NW, N, NE, W, E, SW, S, SE.
pub open spec fn col_offset(k: int) -> int {
    seq![-1int, 0, 1, -1, 1, -1, 0, 1][k]
}

/// The hues of the live cells of `cells`, in order.
pub open spec fn alive_hues(cells: Seq<Cell>) -> Seq<u8>
    decreases cells.len(),
{
    if cells.len() == 0 {
        seq![]
    } else {
        let rest = alive_hues(cells.drop_last());
        match cells.last() {
            Cell::Alive { hue } => rest.push(hue),
            Cell::Dead => rest,
        }
    }
}

/// `center + d` reduced onto an axis of length `n`.
pub open spec fn shifted(center: int, d: int, n: int) -> int {
    (center + d) % n
}

/// Whether position `x` of an axis of length `n` is `center + d`, wrapped, for
/// some offset `lo <= d < hi`.
pub open spec fn covered(center: int, lo: int, hi: int, n: int, x: int) -> bool {
    exists|d: int| lo <= d < hi && #[trigger] shifted(center, d, n) == x
}

impl GridView {
    /// Positive dimensions and one cell per position.
    pub open spec fn valid(self) -> bool {
        &&& self.width >= 1
        &&& self.height >= 1
        &&& self.cells.len() == self.width * self.height
    }

    pub open spec fn index(self, row: int, col: int) -> int {
        row * self.width + col
    }

    pub open spec fn cell(self, row: int, col: int) -> Cell {
        self.cells[self.index(row, col)]
    }

    /// Row of the `k`-th neighbour of a cell in `row`, wrapped around the torus.
    pub open spec fn neighbor_row(self, row: int, k: int) -> int {
        (row + row_offset(k)) % (self.height as int)
    }

    /// Column of the `k`-th neighbour of a cell in `col`, wrapped around the torus.
    pub open spec fn neighbor_col(self, col: int, k: int) -> int {
        (col + col_offset(k)) % (self.width as int)
    }

    /// The eight neighbours of `(row, col)` in survey order.
    pub open spec fn neighbors(self, row: int, col: int) -> Seq<Cell> {
        Seq::new(8, |k: int| self.cell(self.neighbor_row(row, k), self.neighbor_col(col, k)))
    }

    /// The hues of the live neighbours of `(row, col)`, in survey order.
    pub open spec fn neighbor_hues(self, row: int, col: int) -> Seq<u8> {
        alive_hues(self.neighbors(row, col))
    }

    pub open spec fn alive_neighbors(self, row: int, col: int) -> nat {
        self.neighbor_hues(row, col).len()
    }

    /// Number of live neighbours of the cell at row-major position `i`.
    pub open spec fn alive_neighbors_at(self, i: int) -> nat {
        self.alive_neighbors(i / (self.width as int), i % (self.width as int))
    }

    /// Whether the dead cell at position `i` comes alive in the next generation.
    pub open spec fn is_birth(self, i: int) -> bool {
        self.cells[i] == Cell::Dead && self.alive_neighbors_at(i) == 3
    }

    /// What a caller must blend for each cell: the neighbour hues at a birth,
    /// nothing elsewhere.
    pub open spec fn mix_inputs(self) -> Seq<Seq<u8>> {
        Seq::new(
            self.cells.len(),
            |i: int|
                if self.is_birth(i) {
                    self.neighbor_hues(i / (self.width as int), i % (self.width as int))
                } else {
                    seq![]
                },
        )
    }

    /// Whether `(row, col)` lies in the square of half-width `half` centred on
    /// `(center_row, center_col)`, both coordinates wrapped around the torus.
    pub open spec fn in_block(
        self,
        center_row: int,
        center_col: int,
        half: int,
        row: int,
        col: int,
    ) -> bool {
        &&& covered(center_row, -half, half + 1, self.height as int, row)
        &&& covered(center_col, -half, half + 1, self.width as int, col)
    }

    /// This grid with every cell of the wrapped square of half-width `half`
    /// centred on `(center_row, center_col)` set to `Alive(hue)`.
    pub open spec fn inject(self, center_row: int, center_col: int, half: int, hue: u8) -> GridView {
        GridView {
            width: self.width,
            height: self.height,
            cells: Seq::new(
                self.cells.len(),
                |i: int|
                    if self.in_block(
                        center_row,
                        center_col,
                        half,
                        i / (self.width as int),
                        i % (self.width as int),
                    ) {
                        Cell::Alive { hue }
                    } else {
                        self.cells[i]
                    },
            ),
        }
    }

    /// The next generation, every cell computed from this one alone; `mixed[i]`
    /// is the hue that cell `i` takes if it is born.
    pub open spec fn next(self, mixed: Seq<u8>) -> GridView {
        GridView {
            width: self.width,
            height: self.height,
            cells: Seq::new(
                self.cells.len(),
                |i: int| next_cell(self.cells[i], self.alive_neighbors_at(i), mixed[i]),
            ),
        }
    }
}

/// Stepping one place along an axis of length `n` from an in-range position
/// and reducing modulo `n` only wraps at the two ends.
pub proof fn lemma_wrap_step(x: int, n: int)
    requires
        n >= 1,
        -1 <= x <= n,
    ensures
        x % n == if x < 0 {
            x + n
        } else if x >= n {
            x - n
        } else {
            x
        },
{
    if x < 0 {
        lemma_fundamental_div_mod_converse(x, n, -1, x + n);
    } else if x >= n {
        lemma_fundamental_div_mod_converse(x, n, 1, x - n);
    } else {
        lemma_fundamental_div_mod_converse(x, n, 0, x);
    }
}

/// Row-major positions of in-range coordinates stay inside the grid and
/// give the coordinates back.
pub proof fn lemma_index_bounds(row: int, col: int, width: int, height: int)
    requires
        0 <= row < height,
        0 <= col < width,
    ensures
        0 <= row * width + col < width * height,
        (row * width + col) / width == row,
        (row * width + col) % width == col,
{
    assert(0 <= row * width) by (nonlinear_arith)
        requires 0 <= row, 0 <= width;
    assert(row * width + col < width * height) by (nonlinear_arith)
        requires 0 <= row < height, 0 <= col < width;
    lemma_fundamental_div_mod_converse(row * width + col, width, row, col);
}

/// A position inside the grid splits into in-range coordinates.
pub proof fn lemma_index_split(i: int, width: int, height: int)
    requires
        width >= 1,
        0 <= i < width * height,
    ensures
        0 <= i / width < height,
        0 <= i % width < width,
        i == (i / width) * width + i % width,
{
    lemma_fundamental_div_mod(i, width);
    let q = i / width;
    let r = i % width;
    assert(i == width * q + r);
    assert(0 <= q < height) by (nonlinear_arith)
        requires i == width * q + r, 0 <= r < width, 0 <= i < width * height, width >= 1;
}

/// Live hues number at most the cells they come from.
pub proof fn lemma_alive_hues_len(cells: Seq<Cell>)
    ensures
        alive_hues(cells).len() <= cells.len(),
    decreases cells.len(),
{
    if cells.len() > 0 {
        lemma_alive_hues_len(cells.drop_last());
    }
}

/// Widening an offset range by one more offset adds exactly the position
/// that offset reaches.
pub proof fn lemma_covered_extend(center: int, lo: int, hi: int, n: int, x: int)
    requires
        lo <= hi,
    ensures
        covered(center, lo, hi + 1, n, x) == (covered(center, lo, hi, n, x) || shifted(
            center,
            hi,
            n,
        ) == x),
{
    if covered(center, lo, hi + 1, n, x) {
        let d = choose|d: int| lo <= d < hi + 1 && #[trigger] shifted(center, d, n) == x;
        if d < hi {
            assert(covered(center, lo, hi, n, x));
        }
    }
    if shifted(center, hi, n) == x {
        assert(covered(center, lo, hi + 1, n, x));
    }
    if covered(center, lo, hi, n, x) {
        let d = choose|d: int| lo <= d < hi && #[trigger] shifted(center, d, n) == x;
        assert(shifted(center, d, n) == x);
    }
}

} // verus!
