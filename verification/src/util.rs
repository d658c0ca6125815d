//! The topology of the torus, and the coloring of a grid for display.

use crate::grid::grid_view;
use vstd::arithmetic::div_mod::{lemma_mod_add_multiples_vanish, lemma_small_mod};
use vstd::prelude::*;

verus! {

/// The index reached from `i` by `d` steps on a ring of `n` cells.
pub open spec fn wrap(i: int, d: int, n: int) -> int {
    (i + d) % n
}

/// The cell `dx` columns and `dy` rows away from `coord` on a torus of
/// `width` columns and `height` rows.
pub open spec fn shifted(
    coord: (usize, usize),
    dx: int,
    dy: int,
    width: usize,
    height: usize,
) -> (usize, usize) {
    (
        wrap(coord.0 as int, dx, width as int) as usize,
        wrap(coord.1 as int, dy, height as int) as usize,
    )
}

/// The cells that touch `coord`, by an edge or by a corner, on a torus of
/// `width` columns and `height` rows.
///
/// On a torus fewer than three cells wide or tall, several of the eight
/// directions lead to one cell, and the set has fewer than eight members.
pub open spec fn neighbor_set(coord: (usize, usize), width: usize, height: usize) -> Set<
    (usize, usize),
> {
    set![
        shifted(coord, -1, 1, width, height),
        shifted(coord, 0, 1, width, height),
        shifted(coord, 1, 1, width, height),
        shifted(coord, -1, 0, width, height),
        shifted(coord, 1, 0, width, height),
        shifted(coord, -1, -1, width, height),
        shifted(coord, 0, -1, width, height),
        shifted(coord, 1, -1, width, height),
    ]
}

/// Whether `coord` names a cell of a grid of `width` columns and `height` rows.
pub open spec fn in_bounds(coord: (usize, usize), width: usize, height: usize) -> bool {
    coord.0 < width && coord.1 < height
}

/// One step back, no step, or one step on from a cell of the ring, by cases.
pub proof fn lemma_wrap(i: int, n: int)
    requires
        0 <= i < n,
    ensures
        wrap(i, -1, n) == (if i == 0 {
            n - 1
        } else {
            i - 1
        }),
        wrap(i, 0, n) == i,
        wrap(i, 1, n) == (if i == n - 1 {
            0
        } else {
            i + 1
        }),
{
    lemma_small_mod(i as nat, n as nat);
    if i == 0 {
        lemma_mod_add_multiples_vanish(-1, n);
        lemma_small_mod((n - 1) as nat, n as nat);
    } else {
        lemma_small_mod((i - 1) as nat, n as nat);
    }
    if i == n - 1 {
        lemma_mod_add_multiples_vanish(0, n);
        lemma_small_mod(0, n as nat);
    } else {
        lemma_small_mod((i + 1) as nat, n as nat);
    }
}

/// Every neighbor of a cell of the grid is a cell of the grid.
pub proof fn lemma_neighbors_in_bounds(coord: (usize, usize), width: usize, height: usize)
    requires
        in_bounds(coord, width, height),
    ensures
        forall|c: (usize, usize)| #[trigger]
            neighbor_set(coord, width, height).contains(c) ==> in_bounds(c, width, height),
{
    lemma_wrap(coord.0 as int, width as int);
    lemma_wrap(coord.1 as int, height as int);
}

/// A cell is its own neighbor exactly on a torus one cell wide or one cell
/// tall, where a step to the side leads back to where it began.
pub proof fn lemma_own_cell_among_neighbors(coord: (usize, usize), width: usize, height: usize)
    requires
        in_bounds(coord, width, height),
    ensures
        neighbor_set(coord, width, height).contains(coord) <==> width == 1 || height == 1,
{
    lemma_wrap(coord.0 as int, width as int);
    lemma_wrap(coord.1 as int, height as int);
}

/// A cell has at least one neighbor and at most eight, and exactly eight
/// on a torus at least three cells wide and three cells tall.
pub proof fn lemma_neighbor_count(coord: (usize, usize), width: usize, height: usize)
    requires
        in_bounds(coord, width, height),
    ensures
        neighbor_set(coord, width, height).finite(),
        1 <= neighbor_set(coord, width, height).len() <= 8,
        width >= 3 && height >= 3 ==> neighbor_set(coord, width, height).len() == 8,
{
    lemma_wrap(coord.0 as int, width as int);
    lemma_wrap(coord.1 as int, height as int);
}

/// Being a neighbor is mutual: if `b` touches `a`, then `a` touches `b`.
pub proof fn lemma_neighbors_are_mutual(
    a: (usize, usize),
    b: (usize, usize),
    width: usize,
    height: usize,
)
    requires
        in_bounds(a, width, height),
        in_bounds(b, width, height),
    ensures
        neighbor_set(a, width, height).contains(b) <==> neighbor_set(b, width, height).contains(a),
{
    lemma_wrap(a.0 as int, width as int);
    lemma_wrap(a.1 as int, height as int);
    lemma_wrap(b.0 as int, width as int);
    lemma_wrap(b.1 as int, height as int);
}

/// Whether `cells` holds `coord`.
fn holds(cells: &Vec<(usize, usize)>, coord: (usize, usize)) -> (found: bool)
    ensures
        found == cells@.contains(coord),
{
    let mut i: usize = 0;
    while i < cells.len()
        invariant
            i <= cells.len(),
            forall|j: int| 0 <= j < i ==> cells@[j] != coord,
        decreases cells.len() - i,
    {
        let c = cells[i];
        if c.0 == coord.0 && c.1 == coord.1 {
            return true;
        }
        i += 1;
    }
    false
}

/// Adds `coord` to `cells` unless it is there already.
fn add_cell(cells: &mut Vec<(usize, usize)>, coord: (usize, usize))
    requires
        old(cells)@.no_duplicates(),
    ensures
        final(cells)@.no_duplicates(),
        final(cells)@.to_set() == old(cells)@.to_set().insert(coord),
{
    if !holds(cells, coord) {
        cells.push(coord);
        proof {
            old(cells)@.lemma_push_to_set_commute(coord);
        }
    } else {
        assert(old(cells)@.to_set().insert(coord) =~= old(cells)@.to_set());
    }
}

/// The neighbors of `coord` on a torus of `width` columns and `height`
/// rows, each of them once, in no particular order.
pub fn get_neighboring_coordinates(coord: (usize, usize), width: usize, height: usize) -> (neighbors:
    Vec<(usize, usize)>)
    requires
        in_bounds(coord, width, height),
    ensures
        neighbors@.no_duplicates(),
        neighbors@.to_set() == neighbor_set(coord, width, height),
        1 <= neighbors.len() <= 8,
{
    let left_coord: usize = if coord.0 == 0 {
        width - 1
    } else {
        coord.0 - 1
    };
    let right_coord: usize = if coord.0 == width - 1 {
        0
    } else {
        coord.0 + 1
    };
    let top_coord: usize = if coord.1 == 0 {
        height - 1
    } else {
        coord.1 - 1
    };
    let bottom_coord: usize = if coord.1 == height - 1 {
        0
    } else {
        coord.1 + 1
    };
    proof {
        lemma_wrap(coord.0 as int, width as int);
        lemma_wrap(coord.1 as int, height as int);
    }

    let mut neighbors: Vec<(usize, usize)> = Vec::new();
    assert(neighbors@.to_set() =~= Set::empty());
    add_cell(&mut neighbors, (left_coord, bottom_coord));
    add_cell(&mut neighbors, (coord.0, bottom_coord));
    add_cell(&mut neighbors, (right_coord, bottom_coord));
    add_cell(&mut neighbors, (left_coord, coord.1));
    add_cell(&mut neighbors, (right_coord, coord.1));
    add_cell(&mut neighbors, (left_coord, top_coord));
    add_cell(&mut neighbors, (coord.0, top_coord));
    add_cell(&mut neighbors, (right_coord, top_coord));
    proof {
        neighbors@.unique_seq_to_set();
        lemma_neighbor_count(coord, width, height);
    }
    neighbors
}

/// The colors that `matrix` holds, row by row.
pub open spec fn matrix_view(matrix: Vec<Vec<[u8; 4]>>) -> Seq<Seq<[u8; 4]>> {
    Seq::new(matrix.len() as nat, |y: int| matrix[y]@)
}

/// `grid` with `live_color` in place of each live cell and `dead_color` in
/// place of each dead one.
pub open spec fn colored(grid: Seq<Seq<bool>>, live_color: [u8; 4], dead_color: [u8; 4]) -> Seq<
    Seq<[u8; 4]>,
> {
    Seq::new(
        grid.len(),
        |y: int|
            Seq::new(
                grid[y].len(),
                |x: int|
                    if grid[y][x] {
                        live_color
                    } else {
                        dead_color
                    },
            ),
    )
}

/// The colors in which to show `life_state`: `live_color` for a live cell,
/// `dead_color` for a dead one, row by row and cell by cell. The rows may
/// differ in length.
pub fn life_state_to_matrix_state(
    life_state: Vec<Vec<bool>>,
    live_color: [u8; 4],
    dead_color: [u8; 4],
) -> (matrix: Vec<Vec<[u8; 4]>>)
    ensures
        matrix_view(matrix) == colored(grid_view(life_state), live_color, dead_color),
{
    let ghost target = colored(grid_view(life_state), live_color, dead_color);
    let mut matrix: Vec<Vec<[u8; 4]>> = Vec::new();
    let mut y: usize = 0;
    while y < life_state.len()
        invariant
            y <= life_state.len(),
            target == colored(grid_view(life_state), live_color, dead_color),
            matrix.len() == y,
            forall|j: int| 0 <= j < y ==> (#[trigger] matrix[j])@ == target[j],
        decreases life_state.len() - y,
    {
        let row = &life_state[y];
        let mut colors: Vec<[u8; 4]> = Vec::new();
        let mut x: usize = 0;
        while x < row.len()
            invariant
                y < life_state.len(),
                row == life_state[y as int],
                x <= row.len(),
                target == colored(grid_view(life_state), live_color, dead_color),
                colors.len() == x,
                forall|i: int| 0 <= i < x ==> #[trigger] colors[i] == target[y as int][i],
            decreases row.len() - x,
        {
            colors.push(
                if row[x] {
                    live_color
                } else {
                    dead_color
                },
            );
            x += 1;
        }
        assert(colors@ =~= target[y as int]);
        matrix.push(colors);
        y += 1;
    }
    assert(matrix_view(matrix) =~= target);
    matrix
}

} // verus!
