//! The engine as a mathematical value, and what holds of every run of it.

use crate::grid::is_grid;
use crate::rules::next_generation;
use vstd::prelude::*;

verus! {

/// What an engine is at one moment.
pub struct LifeModel {
    /// The current generation.
    pub grid: Seq<Seq<bool>>,
    /// The number of columns of the torus.
    pub width: usize,
    /// The number of rows of the torus.
    pub height: usize,
    /// The generations produced so far. The generation the engine began
    /// with is not one of them, unless a step produced it again.
    pub visited: Set<Seq<Seq<bool>>>,
    /// Whether a step has produced a generation that an earlier step had
    /// produced.
    pub is_cycling: bool,
}

impl LifeModel {
    /// An engine that has not stepped yet.
    pub open spec fn fresh(grid: Seq<Seq<bool>>, width: usize, height: usize) -> LifeModel {
        LifeModel { grid, width, height, visited: Set::empty(), is_cycling: false }
    }

    /// Whether the current generation has the dimensions of the torus.
    pub open spec fn wf(self) -> bool {
        is_grid(self.grid, self.width, self.height)
    }

    /// The engine one step later.
    pub open spec fn step(self) -> LifeModel {
        let next = next_generation(self.grid, self.width, self.height);
        LifeModel {
            grid: next,
            width: self.width,
            height: self.height,
            visited: self.visited.insert(next),
            is_cycling: self.is_cycling || self.visited.contains(next),
        }
    }

    /// The engine `steps` steps later.
    pub open spec fn after(self, steps: nat) -> LifeModel
        decreases steps,
    {
        if steps == 0 {
            self
        } else {
            self.after((steps - 1) as nat).step()
        }
    }

    /// Whether some step of the first `steps` produced `grid`.
    pub open spec fn produced(self, steps: nat, grid: Seq<Seq<bool>>) -> bool {
        exists|i: nat| 1 <= i <= steps && (#[trigger] self.after(i)).grid == grid
    }

    /// Whether two of the first `steps` steps produced the same generation.
    pub open spec fn repeats_within(self, steps: nat) -> bool {
        exists|i: nat, j: nat|
            1 <= i < j <= steps && (#[trigger] self.after(i)).grid == (#[trigger] self.after(
                j,
            )).grid
    }

    /// The dimensions never change, and every generation that a step
    /// produces has them.
    pub proof fn lemma_dimensions_are_kept(self, steps: nat)
        ensures
            self.after(steps).width == self.width,
            self.after(steps).height == self.height,
            steps > 0 || self.wf() ==> self.after(steps).wf(),
        decreases steps,
    {
        if steps > 0 {
            self.lemma_dimensions_are_kept((steps - 1) as nat);
        }
    }

    /// Once the game is cycling, it is cycling after every later step.
    pub proof fn lemma_cycling_is_kept(self, earlier: nat, later: nat)
        requires
            earlier <= later,
            self.after(earlier).is_cycling,
        ensures
            self.after(later).is_cycling,
        decreases later,
    {
        if earlier < later {
            self.lemma_cycling_is_kept(earlier, (later - 1) as nat);
        }
    }

    /// No generation is ever forgotten.
    pub proof fn lemma_visited_only_grows(self, earlier: nat, later: nat)
        requires
            earlier <= later,
        ensures
            self.after(earlier).visited.subset_of(self.after(later).visited),
        decreases later,
    {
        if earlier < later {
            self.lemma_visited_only_grows(earlier, (later - 1) as nat);
        }
    }

    /// What is remembered after `steps` steps is what was remembered at the
    /// start and what the steps produced, and nothing else.
    pub proof fn lemma_visited_is_what_was_produced(self, steps: nat, grid: Seq<Seq<bool>>)
        ensures
            self.after(steps).visited.contains(grid) <==> self.visited.contains(grid)
                || self.produced(steps, grid),
        decreases steps,
    {
        if steps > 0 {
            let before = (steps - 1) as nat;
            self.lemma_visited_is_what_was_produced(before, grid);
            if self.produced(steps, grid) {
                let i = choose|i: nat| 1 <= i <= steps && (#[trigger] self.after(i)).grid == grid;
                if i < steps {
                    assert(self.produced(before, grid));
                }
            }
            if self.produced(before, grid) {
                let i = choose|i: nat| 1 <= i <= before && (#[trigger] self.after(i)).grid == grid;
                assert(1 <= i <= steps && self.after(i).grid == grid);
            }
            if self.after(steps).grid == grid {
                assert(1 <= steps <= steps && self.after(steps).grid == grid);
            }
        }
    }

    /// Each step adds at most one generation to those remembered.
    pub proof fn lemma_visited_is_bounded(self, steps: nat)
        requires
            self.visited.finite(),
        ensures
            self.after(steps).visited.finite(),
            self.after(steps).visited.len() <= self.visited.len() + steps,
        decreases steps,
    {
        if steps > 0 {
            self.lemma_visited_is_bounded((steps - 1) as nat);
        }
    }

    /// A game that has not stepped yet is cycling after `steps` steps
    /// exactly if two of those steps produced the same generation.
    pub proof fn lemma_cycling_is_a_repeat(self, steps: nat)
        requires
            self.visited == Set::<Seq<Seq<bool>>>::empty(),
            !self.is_cycling,
        ensures
            self.after(steps).is_cycling <==> self.repeats_within(steps),
        decreases steps,
    {
        if steps > 0 {
            let before = (steps - 1) as nat;
            self.lemma_cycling_is_a_repeat(before);
            let last = self.after(steps).grid;
            self.lemma_visited_is_what_was_produced(before, last);
            if self.repeats_within(before) {
                let (i, j) = choose|i: nat, j: nat|
                    1 <= i < j <= before && (#[trigger] self.after(i)).grid == (
                    #[trigger] self.after(j)).grid;
                assert(1 <= i < j <= steps && self.after(i).grid == self.after(j).grid);
            }
            if self.produced(before, last) {
                let i = choose|i: nat| 1 <= i <= before && (#[trigger] self.after(i)).grid == last;
                assert(1 <= i < steps <= steps && self.after(i).grid == self.after(steps).grid);
            }
            if self.repeats_within(steps) {
                let (i, j) = choose|i: nat, j: nat|
                    1 <= i < j <= steps && (#[trigger] self.after(i)).grid == (
                    #[trigger] self.after(j)).grid;
                if j < steps {
                    assert(self.repeats_within(before));
                } else {
                    assert(1 <= i <= before && self.after(i).grid == last);
                    assert(self.produced(before, last));
                }
            }
        }
    }

    /// The generations depend on the first one and on the dimensions
    /// alone, not on what is remembered.
    pub proof fn lemma_generations_are_determined(self, other: LifeModel, steps: nat)
        requires
            self.grid == other.grid,
            self.width == other.width,
            self.height == other.height,
        ensures
            self.after(steps).grid == other.after(steps).grid,
        decreases steps,
    {
        if steps > 0 {
            self.lemma_generations_are_determined(other, (steps - 1) as nat);
            self.lemma_dimensions_are_kept((steps - 1) as nat);
            other.lemma_dimensions_are_kept((steps - 1) as nat);
        }
    }

    /// Stepping `first` times and then `then` times is stepping
    /// `first + then` times.
    pub proof fn lemma_after_adds_up(self, first: nat, then: nat)
        ensures
            self.after(first).after(then) == self.after(first + then),
        decreases then,
    {
        if then > 0 {
            self.lemma_after_adds_up(first, (then - 1) as nat);
        }
    }

    /// If the generation at the start comes back after `period` steps,
    /// every generation comes back `period` steps later, and the game is
    /// cycling from the step after that on. A still life has period 1 and
    /// is cycling from the second step on; so is the empty grid.
    pub proof fn lemma_a_period_is_found(self, period: nat, steps: nat)
        requires
            period >= 1,
            self.after(period).grid == self.grid,
        ensures
            self.after(steps + period).grid == self.after(steps).grid,
            steps > period ==> self.after(steps).is_cycling,
    {
        self.lemma_dimensions_are_kept(period);
        self.lemma_after_adds_up(period, steps);
        self.after(period).lemma_generations_are_determined(self, steps);
        if steps > period {
            let first = self.after(1).grid;
            self.lemma_dimensions_are_kept(period);
            self.lemma_after_adds_up(period, 1);
            self.after(period).lemma_generations_are_determined(self, 1);
            assert(self.after(period + 1).grid == first);
            self.lemma_visited_is_what_was_produced(period, first);
            assert(self.produced(period, first)) by {
                assert(1 <= 1 <= period && self.after(1).grid == first);
            }
            assert(self.after(period + 1).is_cycling);
            self.lemma_cycling_is_kept(period + 1, steps);
        }
    }

    /// Once the generation at the start has come back, after `period`
    /// steps, nothing new is remembered: the set of generations stays as it
    /// is after those steps, however many steps follow.
    pub proof fn lemma_visited_stops_growing(self, period: nat, steps: nat)
        requires
            period >= 1,
            self.after(period).grid == self.grid,
            steps >= period,
        ensures
            self.after(steps).visited == self.after(period).visited,
        decreases steps,
    {
        if steps > period {
            let before = (steps - 1) as nat;
            let earlier = (steps - period) as nat;
            let last = self.after(steps).grid;
            self.lemma_visited_stops_growing(period, before);
            self.lemma_a_period_is_found(period, earlier);
            assert(self.produced(before, last)) by {
                assert(1 <= earlier <= before && self.after(earlier).grid == last);
            }
            self.lemma_visited_is_what_was_produced(before, last);
            assert(self.after(steps).visited =~= self.after(before).visited);
        }
    }

    /// A torus without rows has one grid, the empty one. Every step
    /// produces it, and the second step finds it remembered.
    pub proof fn lemma_no_rows(self, steps: nat)
        requires
            self.height == 0,
            steps >= 1,
        ensures
            self.after(steps).grid == Seq::<Seq<bool>>::empty(),
            steps >= 2 ==> self.after(steps).is_cycling,
        decreases steps,
    {
        self.lemma_dimensions_are_kept((steps - 1) as nat);
        assert(self.after(steps).grid =~= Seq::<Seq<bool>>::empty());
        if steps >= 2 {
            self.lemma_no_rows((steps - 1) as nat);
        }
    }
}

} // verus!
