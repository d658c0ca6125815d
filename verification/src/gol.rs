//! The engine: a grid, its dimensions, and the generations it has produced.

use crate::model::LifeModel;
use crate::grid::{cell, grid_view, is_grid};
use crate::rules::{live_in, live_neighbors, next_cell, next_generation};
use crate::rng::random_cell;
use crate::util::{get_neighboring_coordinates, in_bounds, lemma_neighbors_in_bounds};
use crate::visited::VisitedStates;
use vstd::prelude::*;

verus! {

/// Counting along a list without repeats: the live items among the first
/// `i + 1` are those among the first `i`, and the next one if it is live.
proof fn lemma_live_count_step<A>(items: Seq<A>, i: int, live: spec_fn(A) -> bool)
    requires
        items.no_duplicates(),
        0 <= i < items.len(),
    ensures
        items.take(i + 1).to_set().filter(live).len() == items.take(i).to_set().filter(live).len()
            + (if live(items[i]) {
            1nat
        } else {
            0nat
        }),
{
    let before = items.take(i);
    let after = items.take(i + 1);
    assert(after =~= before.push(items[i]));
    before.lemma_push_to_set_commute(items[i]);
    vstd::seq_lib::seq_to_set_is_finite(before);
    assert(!before.to_set().contains(items[i]));
    if live(items[i]) {
        assert(after.to_set().filter(live) =~= before.to_set().filter(live).insert(items[i]));
    } else {
        assert(after.to_set().filter(live) =~= before.to_set().filter(live));
    }
}

/// A game of life on a torus.
pub struct GameOfLife {
    /// The current generation, row by row.
    pub state: Vec<Vec<bool>>,
    /// The number of columns of the torus.
    width: usize,
    /// The number of rows of the torus.
    height: usize,
    /// The generations that steps have produced.
    visited_states: VisitedStates,
    /// Whether a step has produced a generation for the second time.
    pub is_cycling: bool,
}

impl View for GameOfLife {
    type V = LifeModel;

    open spec fn view(&self) -> LifeModel {
        LifeModel {
            grid: self.grid(),
            width: self.width(),
            height: self.height(),
            visited: self.visited(),
            is_cycling: self.cycling(),
        }
    }
}

impl Default for GameOfLife {
    /// A game on a torus of no columns and no rows: a placeholder until a
    /// real game takes its place.
    fn default() -> (game: Self)
        ensures
            game@ == LifeModel::fresh(Seq::empty(), 0, 0),
    {
        let game = Self::new(Vec::new(), 0, 0);
        assert(game@.grid =~= Seq::empty());
        game
    }
}

impl GameOfLife {
    /// The current generation: what the field `state` holds.
    pub closed spec fn grid(&self) -> Seq<Seq<bool>> {
        grid_view(self.state)
    }

    /// Whether the game has been found to repeat: the field `is_cycling`.
    pub closed spec fn cycling(&self) -> bool {
        self.is_cycling
    }

    /// The number of columns of the torus.
    pub closed spec fn width(&self) -> usize {
        self.width
    }

    /// The number of rows of the torus.
    pub closed spec fn height(&self) -> usize {
        self.height
    }

    /// The generations that steps of this game have produced.
    pub closed spec fn visited(&self) -> Set<Seq<Seq<bool>>> {
        self.visited_states@
    }

    /// Whether the current generation has the dimensions of the torus.
    pub open spec fn wf(&self) -> bool {
        self@.wf()
    }

    /// A game that begins with `state` on a torus of `width` columns and
    /// `height` rows. `state` is taken as it is: the game is well formed
    /// if `state` has `height` rows of `width` cells.
    pub fn new(state: Vec<Vec<bool>>, width: usize, height: usize) -> (game: Self)
        ensures
            game@ == LifeModel::fresh(grid_view(state), width, height),
    {
        GameOfLife { state, width, height, visited_states: VisitedStates::new(), is_cycling: false }
    }

    /// A game that begins with a random grid of `width` columns and
    /// `height` rows: each cell is drawn on its own, live or dead.
    pub fn random(width: usize, height: usize) -> (game: Self)
        ensures
            game.wf(),
            game@ == LifeModel::fresh(game@.grid, width, height),
    {
        let mut rng = rand::thread_rng();

        // Make a new state with random values
        let mut state: Vec<Vec<bool>> = Vec::new();
        let mut y: usize = 0;
        while y < height
            invariant
                y <= height,
                state.len() == y,
                forall|j: int| 0 <= j < y ==> (#[trigger] state[j]).len() == width,
            decreases height - y,
        {
            let mut row: Vec<bool> = Vec::new();
            let mut x: usize = 0;
            while x < width
                invariant
                    x <= width,
                    row.len() == x,
                decreases width - x,
            {
                row.push(random_cell(&mut rng));
                x += 1;
            }
            state.push(row);
            y += 1;
        }

        // Return a new game object
        Self::new(state, width, height)
    }

    /// Whether the current generation has the dimensions of the torus.
    pub fn is_well_formed(&self) -> (ok: bool)
        ensures
            ok == self.wf(),
    {
        if self.state.len() != self.height {
            return false;
        }
        let mut y: usize = 0;
        while y < self.state.len()
            invariant
                y <= self.state.len(),
                self.state.len() == self.height,
                forall|j: int| 0 <= j < y ==> (#[trigger] self.state[j]).len() == self.width,
            decreases self.state.len() - y,
        {
            if self.state[y].len() != self.width {
                assert(grid_view(self.state)[y as int].len() != self.width);
                return false;
            }
            y += 1;
        }
        true
    }

    /// Steps the game to the next generation and returns that generation.
    ///
    /// The new generation is remembered. If an earlier step had produced
    /// it already, the game is cycling from now on.
    pub fn advance(&mut self) -> (next_state: Vec<Vec<bool>>)
        requires
            old(self).wf(),
        ensures
            final(self)@ == old(self)@.step(),
            grid_view(next_state) == final(self)@.grid,
            is_grid(grid_view(next_state), old(self).width(), old(self).height()),
            old(self)@.is_cycling ==> final(self)@.is_cycling,
            final(self).wf(),
    {
        // Determine the next game state
        let ghost target = next_generation(self@.grid, self.width, self.height);
        let mut next_state: Vec<Vec<bool>> = Vec::new();
        let mut y: usize = 0;
        while y < self.height
            invariant
                *self == *old(self),
                self.wf(),
                y <= self.height,
                target == next_generation(self@.grid, self.width, self.height),
                next_state.len() == y,
                forall|j: int| 0 <= j < y ==> (#[trigger] next_state[j])@ == target[j],
            decreases self.height - y,
        {
            let mut row: Vec<bool> = Vec::new();
            let mut x: usize = 0;
            while x < self.width
                invariant
                    *self == *old(self),
                    self.wf(),
                    y < self.height,
                    x <= self.width,
                    target == next_generation(self@.grid, self.width, self.height),
                    row.len() == x,
                    forall|i: int| 0 <= i < x ==> #[trigger] row[i] == target[y as int][i],
                decreases self.width - x,
            {
                row.push(self.next_cell_state((x, y)));
                x += 1;
            }
            assert(row@ =~= target[y as int]);
            next_state.push(row);
            y += 1;
        }
        assert(grid_view(next_state) =~= target);

        // Check if the next state has been seen before
        if self.visited_states.contains(&next_state) {
            // If we have seen this state before, we must be in a cycle
            self.is_cycling = true;
            assert(self.visited().insert(target) =~= self.visited());
        } else {
            // If we haven't seen this state before, mark it as seen
            let seen = next_state.clone();
            assert(grid_view(seen) =~= target);
            self.visited_states.insert(seen);
        }

        // Make it the current state
        self.state = next_state.clone();
        assert(grid_view(self.state) =~= target);

        next_state
    }

    /// Whether the cell at `coord` is live.
    pub fn is_cell_live(&self, coord: (usize, usize)) -> (alive: bool)
        requires
            self.wf(),
            in_bounds(coord, self.width(), self.height()),
        ensures
            alive == cell(self@.grid, coord),
    {
        assert(self.grid()[coord.1 as int].len() == self.width);
        self.state[coord.1][coord.0]
    }

    /// The number of live neighbors of the cell at `coord`.
    pub fn count_live_neighbors(&self, coord: (usize, usize)) -> (count: usize)
        requires
            self.wf(),
            in_bounds(coord, self.width(), self.height()),
        ensures
            count == live_neighbors(self@.grid, coord, self.width(), self.height()),
    {
        let neighbors = get_neighboring_coordinates(coord, self.width, self.height);
        let ghost live = live_in(self@.grid);
        proof {
            lemma_neighbors_in_bounds(coord, self.width, self.height);
            assert(neighbors@.take(0).to_set().filter(live) =~= Set::empty());
        }
        let mut count: usize = 0;
        let mut i: usize = 0;
        while i < neighbors.len()
            invariant
                self.wf(),
                i <= neighbors.len(),
                count <= i,
                neighbors@.no_duplicates(),
                live == live_in(self@.grid),
                forall|c: (usize, usize)| #[trigger]
                    neighbors@.to_set().contains(c) ==> in_bounds(c, self.width(), self.height()),
                count == neighbors@.take(i as int).to_set().filter(live).len(),
            decreases neighbors.len() - i,
        {
            proof {
                lemma_live_count_step(neighbors@, i as int, live);
                assert(neighbors@.to_set().contains(neighbors@[i as int]));
            }
            if self.is_cell_live(neighbors[i]) {
                count += 1;
            }
            i += 1;
        }
        assert(neighbors@.take(neighbors.len() as int) =~= neighbors@);
        count
    }

    /// The state of the cell at `coord` in the next generation.
    pub fn next_cell_state(&self, coord: (usize, usize)) -> (alive: bool)
        requires
            self.wf(),
            in_bounds(coord, self.width(), self.height()),
        ensures
            alive == next_cell(self@.grid, coord, self.width(), self.height()),
    {
        let n_neighbors: usize = self.count_live_neighbors(coord);
        let cell_is_live: bool = self.is_cell_live(coord);

        if cell_is_live && (n_neighbors == 2 || n_neighbors == 3) {
            true
        } else if !cell_is_live && (n_neighbors == 3) {
            true
        } else {
            false
        }
    }
}

} // verus!
