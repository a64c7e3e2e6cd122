use vstd::prelude::*;

verus! {

/// One square of the grid: dead, or alive with a hue on a 256-step colour wheel.
#[derive(Clone, Copy, Debug, PartialEq, Eq, Structural)]
pub enum Cell {
    Dead,
    Alive { hue: u8 },
}

/// The B3/S23 rule with colour: a live cell keeps its hue while it has two or
/// three live neighbours, and a dead cell with exactly three is born with the
/// blend `mixed` of their hues.
pub open spec fn next_cell(cell: Cell, alive_neighbors: nat, mixed: u8) -> Cell {
    match cell {
        Cell::Alive { hue } => if alive_neighbors == 2 || alive_neighbors == 3 {
            Cell::Alive { hue }
        } else {
            Cell::Dead
        },
        Cell::Dead => if alive_neighbors == 3 {
            Cell::Alive { hue: mixed }
        } else {
            Cell::Dead
        },
    }
}

/// The state of a cell in the next generation, given its live-neighbour count
/// and the blend of its live neighbours' hues (used only at a birth).
pub fn next_state(cell: Cell, alive_neighbors: u8, mixed: u8) -> (r: Cell)
    ensures
        r == next_cell(cell, alive_neighbors as nat, mixed),
{
    match cell {
        Cell::Alive { hue } => {
            if alive_neighbors == 2 || alive_neighbors == 3 {
                Cell::Alive { hue }
            } else {
                Cell::Dead
            }
        },
        Cell::Dead => {
            if alive_neighbors == 3 {
                Cell::Alive { hue: mixed }
            } else {
                Cell::Dead
            }
        },
    }
}

} // verus!
