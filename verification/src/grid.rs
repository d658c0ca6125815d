//! Grids of cells: what a stored grid holds, and which shapes are grids.

use vstd::prelude::*;

verus! {

/// The grid that `state` holds, row by row.
pub open spec fn grid_view(state: Vec<Vec<bool>>) -> Seq<Seq<bool>> {
    Seq::new(state.len() as nat, |y: int| state[y]@)
}

/// Whether `grid` has `height` rows of `width` cells each.
pub open spec fn is_grid(grid: Seq<Seq<bool>>, width: usize, height: usize) -> bool {
    &&& grid.len() == height
    &&& forall|y: int| 0 <= y < grid.len() ==> (#[trigger] grid[y]).len() == width
}

/// The state of the cell at `coord`, a column and a row: `true` for live.
pub open spec fn cell(grid: Seq<Seq<bool>>, coord: (usize, usize)) -> bool {
    grid[coord.1 as int][coord.0 as int]
}

} // verus!
