//! A toroidal Game of Life whose live cells carry a hue.
//!
//! The grid engine lives here: the cell model, the B3/S23 transition rule with
//! hue inheritance, the wrap-around neighbourhood, a double-buffered generation
//! step and block injection. Blending hues at birth is a circular mean in
//! floating point, so the caller computes it from the hues that
//! `Universe::mix_inputs` lists and hands the results to `Universe::tick`.
mod cell;
mod grid;
mod laws;
mod universe;

pub use cell::{next_cell, next_state, Cell};
pub use grid::{alive_hues, col_offset, covered, row_offset, shifted, GridView};
pub use laws::{
    lemma_alive_dies, lemma_alive_survives, lemma_birth, lemma_corner_wraps,
    lemma_generation_isolation, lemma_isolated_cell_dies, lemma_neighbor_count_bounds,
};
pub use universe::{at_least_one, Universe};
