//! The rule of the game: which generation follows a generation.

use crate::grid::{cell, is_grid};
use crate::util::neighbor_set;
use vstd::prelude::*;

verus! {

/// The test that picks the live cells of `grid`.
pub open spec fn live_in(grid: Seq<Seq<bool>>) -> spec_fn((usize, usize)) -> bool {
    |coord: (usize, usize)| cell(grid, coord)
}

/// How many of the neighbors of `coord` are live. A neighbor that several
/// directions lead to counts once.
pub open spec fn live_neighbors(
    grid: Seq<Seq<bool>>,
    coord: (usize, usize),
    width: usize,
    height: usize,
) -> nat {
    neighbor_set(coord, width, height).filter(live_in(grid)).len()
}

/// The rule of the game: a live cell stays live with two or three live
/// neighbors, a dead cell comes to life with exactly three.
pub open spec fn lives_on(alive: bool, live_neighbors: nat) -> bool {
    if alive {
        live_neighbors == 2 || live_neighbors == 3
    } else {
        live_neighbors == 3
    }
}

/// The state of the cell at `coord` one generation after `grid`.
pub open spec fn next_cell(
    grid: Seq<Seq<bool>>,
    coord: (usize, usize),
    width: usize,
    height: usize,
) -> bool {
    lives_on(cell(grid, coord), live_neighbors(grid, coord, width, height))
}

/// The generation that follows `grid` on a torus of `width` columns and
/// `height` rows.
pub open spec fn next_generation(grid: Seq<Seq<bool>>, width: usize, height: usize) -> Seq<
    Seq<bool>,
> {
    Seq::new(
        height as nat,
        |y: int|
            Seq::new(
                width as nat,
                |x: int| next_cell(grid, (x as usize, y as usize), width, height),
            ),
    )
}

/// The generation that follows any grid has the dimensions of the torus.
pub proof fn lemma_next_generation_is_grid(grid: Seq<Seq<bool>>, width: usize, height: usize)
    ensures
        is_grid(next_generation(grid, width, height), width, height),
{
}

} // verus!
