use vstd::prelude::*;
use crate::cell::{next_cell, Cell};
use crate::grid::{alive_hues, lemma_alive_hues_len, lemma_index_bounds, lemma_wrap_step, GridView};

verus! {

/// The next state of the cell at `(row, col)` is the rule applied to its own
/// current state and its current live-neighbour count.
proof fn lemma_next_at(g: GridView, mixed: Seq<u8>, row: int, col: int)
    requires
        g.valid(),
        mixed.len() == g.cells.len(),
        0 <= row < g.height,
        0 <= col < g.width,
    ensures
        0 <= g.index(row, col) < g.cells.len(),
        g.index(row, col) / (g.width as int) == row,
        g.index(row, col) % (g.width as int) == col,
        g.next(mixed).cell(row, col) == next_cell(
            g.cell(row, col),
            g.alive_neighbors(row, col),
            mixed[g.index(row, col)],
        ),
{
    lemma_index_bounds(row, col, g.width as int, g.height as int);
}

/// Every cell has between zero and eight live neighbours.
pub proof fn lemma_neighbor_count_bounds(g: GridView, row: int, col: int)
    requires
        g.valid(),
        0 <= row < g.height,
        0 <= col < g.width,
    ensures
        0 <= g.alive_neighbors(row, col) <= 8,
{
    lemma_alive_hues_len(g.neighbors(row, col));
}

/// The neighbourhood wraps on both axes at once: the north-west neighbour of
/// the top-left cell is the bottom-right cell.
pub proof fn lemma_corner_wraps(g: GridView)
    requires
        g.valid(),
    ensures
        g.neighbor_row(0, 0) == g.height - 1,
        g.neighbor_col(0, 0) == g.width - 1,
        g.neighbors(0, 0)[0] == g.cell(g.height - 1, g.width - 1),
{
    lemma_wrap_step(-1, g.height as int);
    lemma_wrap_step(-1, g.width as int);
}

/// A live cell with fewer than two or more than three live neighbours dies,
/// whatever its hue.
pub proof fn lemma_alive_dies(g: GridView, mixed: Seq<u8>, row: int, col: int)
    requires
        g.valid(),
        mixed.len() == g.cells.len(),
        0 <= row < g.height,
        0 <= col < g.width,
        g.cell(row, col) is Alive,
        g.alive_neighbors(row, col) != 2,
        g.alive_neighbors(row, col) != 3,
    ensures
        g.next(mixed).cell(row, col) == Cell::Dead,
{
    lemma_next_at(g, mixed, row, col);
}

/// A live cell with two or three live neighbours survives with exactly the
/// same hue.
pub proof fn lemma_alive_survives(g: GridView, mixed: Seq<u8>, row: int, col: int, hue: u8)
    requires
        g.valid(),
        mixed.len() == g.cells.len(),
        0 <= row < g.height,
        0 <= col < g.width,
        g.cell(row, col) == (Cell::Alive { hue }),
        g.alive_neighbors(row, col) == 2 || g.alive_neighbors(row, col) == 3,
    ensures
        g.next(mixed).cell(row, col) == (Cell::Alive { hue }),
{
    lemma_next_at(g, mixed, row, col);
}

/// A dead cell stays dead unless it has exactly three live neighbours; with
/// three it is born with the blend given for it, and the hues it asks to have
/// blended are exactly those three neighbours' hues.
pub proof fn lemma_birth(g: GridView, mixed: Seq<u8>, row: int, col: int)
    requires
        g.valid(),
        mixed.len() == g.cells.len(),
        0 <= row < g.height,
        0 <= col < g.width,
        g.cell(row, col) == Cell::Dead,
    ensures
        g.alive_neighbors(row, col) != 3 ==> g.next(mixed).cell(row, col) == Cell::Dead,
        g.alive_neighbors(row, col) == 3 ==> {
            &&& g.next(mixed).cell(row, col) == (Cell::Alive {
                hue: mixed[g.index(row, col)],
            })
            &&& g.mix_inputs()[g.index(row, col)] == g.neighbor_hues(row, col)
            &&& g.mix_inputs()[g.index(row, col)].len() == 3
        },
{
    lemma_next_at(g, mixed, row, col);
}

/// A generation is computed from the previous one alone: two grids of the
/// same shape that agree on a cell and its eight neighbours give that cell the
/// same next state, whatever the rest of either grid holds.
pub proof fn lemma_generation_isolation(
    g1: GridView,
    g2: GridView,
    mixed: Seq<u8>,
    row: int,
    col: int,
)
    requires
        g1.valid(),
        g2.valid(),
        g1.width == g2.width,
        g1.height == g2.height,
        mixed.len() == g1.cells.len(),
        0 <= row < g1.height,
        0 <= col < g1.width,
        g1.cell(row, col) == g2.cell(row, col),
        g1.neighbors(row, col) == g2.neighbors(row, col),
    ensures
        g1.next(mixed).cell(row, col) == g2.next(mixed).cell(row, col),
{
    lemma_next_at(g1, mixed, row, col);
    lemma_next_at(g2, mixed, row, col);
}

/// A live cell whose eight neighbours are all dead dies, whatever its hue.
pub proof fn lemma_isolated_cell_dies(g: GridView, mixed: Seq<u8>, row: int, col: int)
    requires
        g.valid(),
        mixed.len() == g.cells.len(),
        0 <= row < g.height,
        0 <= col < g.width,
        g.cell(row, col) is Alive,
        forall|k: int| 0 <= k < 8 ==> #[trigger] g.neighbors(row, col)[k] == Cell::Dead,
    ensures
        g.next(mixed).cell(row, col) == Cell::Dead,
{
    let s = g.neighbors(row, col);
    assert forall|k: int| 0 <= k <= 8 implies alive_hues(#[trigger] s.take(k)).len() == 0 by {
        lemma_no_alive_prefix(s, k);
    }
    assert(s.take(8) =~= s);
    lemma_next_at(g, mixed, row, col);
}

proof fn lemma_no_alive_prefix(s: Seq<Cell>, k: int)
    requires
        0 <= k <= s.len(),
        forall|j: int| 0 <= j < s.len() ==> #[trigger] s[j] == Cell::Dead,
    ensures
        alive_hues(s.take(k)).len() == 0,
    decreases k,
{
    if k > 0 {
        assert(s.take(k).drop_last() =~= s.take(k - 1));
        lemma_no_alive_prefix(s, k - 1);
    }
}

} // verus!
